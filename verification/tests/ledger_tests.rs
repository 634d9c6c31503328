use plutocradroid::ledger::{Ledger, ItemType, Alias, TransferKind};
use plutocradroid::errors::Error;

fn registry() -> Vec<ItemType> {
    vec![
        ItemType {
            name: String::from("pc"),
            long_name_plural: String::from("capability points"),
            long_name_ambiguous: String::from("point"),
        },
        ItemType {
            name: String::from("gen"),
            long_name_plural: String::from("generators"),
            long_name_ambiguous: String::from("generator"),
        },
    ]
}

fn aliases() -> Vec<Alias> {
    vec![Alias { alias: String::from("points"), name: String::from("pc") }]
}

#[test]
fn balances_start_at_zero() {
    let l = Ledger::new(registry(), aliases());
    assert_eq!(l.balance(1, "pc"), 0);
    assert_eq!(l.balance(1, "gen"), 0);
}

#[test]
fn snapshots_follow_running_balance() {
    // Every row's snapshots must equal the running sum of signed quantities
    // for its (user, currency) pair, in commit order, starting from zero.
    let mut l = Ledger::new(registry(), aliases());
    l.record_transfer(TransferKind::CommandFabricate, "pc", None, Some(1), 10, 1, None, None, None, None)
        .unwrap();
    l.record_transfer(TransferKind::Give, "pc", Some(1), Some(2), 4, 2, None, None, None, None)
        .unwrap();
    l.record_transfer(TransferKind::AdminGive, "pc", Some(2), Some(1), 1, 3, None, None, None, None)
        .unwrap();
    l.record_transfer(TransferKind::CommandFabricate, "gen", None, Some(1), 7, 4, None, None, None, None)
        .unwrap();

    let mut expected: std::collections::BTreeMap<(u64, String), i128> =
        std::collections::BTreeMap::new();
    for t in &l.transfers {
        if let Some(u) = t.from_user {
            let e = expected.entry((u, t.currency.clone())).or_insert(0);
            *e -= t.quantity as i128;
            assert_eq!(t.from_balance.map(|b| b as i128), Some(*e));
        }
        if let Some(u) = t.to_user {
            let e = expected.entry((u, t.currency.clone())).or_insert(0);
            *e += t.quantity as i128;
            assert_eq!(t.to_balance.map(|b| b as i128), Some(*e));
        }
    }
    assert_eq!(l.balance(1, "pc"), 7);
    assert_eq!(l.balance(2, "pc"), 3);
    assert_eq!(l.balance(1, "gen"), 7);
    assert_eq!(l.balance(2, "gen"), 0);
}

#[test]
fn overdraw_is_rejected_without_mutation() {
    let mut l = Ledger::new(registry(), aliases());
    l.record_transfer(TransferKind::CommandFabricate, "pc", None, Some(1), 5, 1, None, None, None, None)
        .unwrap();
    let n = l.transfers.len();
    assert_eq!(
        l.record_transfer(TransferKind::Give, "pc", Some(1), Some(2), 6, 2, None, None, None, None),
        Err(Error::InsufficientBalance)
    );
    assert_eq!(l.transfers.len(), n);
    assert_eq!(l.balance(1, "pc"), 5);
    assert_eq!(l.balance(2, "pc"), 0);
    // Spending exactly the balance is allowed; balances never go negative.
    l.record_transfer(TransferKind::Give, "pc", Some(1), Some(2), 5, 3, None, None, None, None)
        .unwrap();
    assert_eq!(l.balance(1, "pc"), 0);
}

#[test]
fn validation_rejections() {
    let mut l = Ledger::new(registry(), aliases());
    // Zero quantity.
    assert_eq!(
        l.record_transfer(TransferKind::CommandFabricate, "pc", None, Some(1), 0, 1, None, None, None, None),
        Err(Error::Validation)
    );
    // Unknown currency (aliases do not apply at the ledger boundary).
    assert_eq!(
        l.record_transfer(TransferKind::CommandFabricate, "points", None, Some(1), 1, 1, None, None, None, None),
        Err(Error::Validation)
    );
    // Neither side present.
    assert_eq!(
        l.record_transfer(TransferKind::Give, "pc", None, None, 1, 1, None, None, None, None),
        Err(Error::Validation)
    );
    // Transfer to oneself.
    assert_eq!(
        l.record_transfer(TransferKind::Give, "pc", Some(1), Some(1), 1, 1, None, None, None, None),
        Err(Error::Validation)
    );
    // A minting kind cannot have a source.
    assert_eq!(
        l.record_transfer(TransferKind::Generated, "pc", Some(1), Some(2), 1, 1, None, None, None, None),
        Err(Error::Validation)
    );
    assert_eq!(l.transfers.len(), 0);
}

#[test]
fn burn_without_destination() {
    let mut l = Ledger::new(registry(), aliases());
    l.record_transfer(TransferKind::CommandFabricate, "pc", None, Some(1), 5, 1, None, None, None, None)
        .unwrap();
    l.record_transfer(TransferKind::AdminGive, "pc", Some(1), None, 2, 2, None, None, None, None)
        .unwrap();
    assert_eq!(l.balance(1, "pc"), 3);
}

#[test]
fn transfer_ids_are_monotonic() {
    let mut l = Ledger::new(registry(), aliases());
    let a = l
        .record_transfer(TransferKind::CommandFabricate, "pc", None, Some(1), 5, 1, None, None, None, None)
        .unwrap();
    let b = l
        .record_transfer(TransferKind::CommandFabricate, "pc", None, Some(2), 5, 2, None, None, None, None)
        .unwrap();
    assert!(b > a);
    assert_eq!(l.transfers[0].id, a);
    assert_eq!(l.transfers[1].id, b);
}

#[test]
fn timestamps_never_run_backwards() {
    // Commit order is the ordering authority: a stale clock reading is
    // clamped so recorded times follow commit order.
    let mut l = Ledger::new(registry(), aliases());
    l.record_transfer(TransferKind::CommandFabricate, "pc", None, Some(1), 5, 100, None, None, None, None)
        .unwrap();
    l.record_transfer(TransferKind::CommandFabricate, "pc", None, Some(2), 5, 40, None, None, None, None)
        .unwrap();
    assert_eq!(l.transfers[1].happened_at, 100);
}

#[test]
fn currency_resolution() {
    let l = Ledger::new(registry(), aliases());
    assert_eq!(l.resolve_currency("pc"), Some(String::from("pc")));
    assert_eq!(l.resolve_currency("points"), Some(String::from("pc")));
    assert_eq!(l.resolve_currency("gold"), None);
    assert!(l.has_item_type("gen"));
    assert!(!l.has_item_type("points"));
}
