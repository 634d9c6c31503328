use plutocradroid::ledger::{Ledger, ItemType, TransferKind};
use plutocradroid::history::StatementLine;

fn ledger_with_pc() -> Ledger {
    Ledger::new(
        vec![ItemType {
            name: String::from("pc"),
            long_name_plural: String::from("capability points"),
            long_name_ambiguous: String::from("point"),
        }],
        Vec::new(),
    )
}

/// Fabricate at t=1 (10), generate at t=2 and t=3 (5 each), give 3 away at
/// t=4, generate at t=5 (2). Balances for user 1: 10, 15, 20, 17, 19.
fn seeded_ledger() -> Ledger {
    let mut l = ledger_with_pc();
    l.record_transfer(TransferKind::CommandFabricate, "pc", None, Some(1), 10, 1, None, None, None, None)
        .unwrap();
    l.record_transfer(TransferKind::Generated, "pc", None, Some(1), 5, 2, None, None, None, None)
        .unwrap();
    l.record_transfer(TransferKind::Generated, "pc", None, Some(1), 5, 3, None, None, None, None)
        .unwrap();
    l.record_transfer(TransferKind::Give, "pc", Some(1), Some(2), 3, 4, None, None, None, None)
        .unwrap();
    l.record_transfer(TransferKind::Generated, "pc", None, Some(1), 2, 5, None, None, None, None)
        .unwrap();
    l
}

#[test]
fn history_is_newest_first() {
    let l = seeded_ledger();
    let h = l.history(1, None, None, 100);
    assert_eq!(h.len(), 5);
    let times: Vec<u64> = h.iter().map(|e| e.happened_at).collect();
    assert_eq!(times, vec![5, 4, 3, 2, 1]);
    assert_eq!(h[1].quantity, 3);
    assert!(h[1].outgoing);
    assert_eq!(h[1].balance, 17);
    assert_eq!(h[1].other_party, Some(2));
    assert_eq!(h[4].balance, 10);
    assert!(!h[4].outgoing);
}

#[test]
fn history_respects_limit_and_before() {
    let l = seeded_ledger();
    let h = l.history(1, None, None, 2);
    let times: Vec<u64> = h.iter().map(|e| e.happened_at).collect();
    assert_eq!(times, vec![5, 4]);

    let older = l.history(1, None, Some(4), 100);
    let times: Vec<u64> = older.iter().map(|e| e.happened_at).collect();
    assert_eq!(times, vec![3, 2, 1]);
}

#[test]
fn history_filters_by_user_and_currency() {
    let l = seeded_ledger();
    let h2 = l.history(2, None, None, 100);
    assert_eq!(h2.len(), 1);
    assert_eq!(h2[0].balance, 3);
    assert!(!h2[0].outgoing);

    let none = l.history(1, Some("gold"), None, 100);
    assert!(none.is_empty());
    let pc = l.history(1, Some("pc"), None, 100);
    assert_eq!(pc.len(), 5);
}

#[test]
fn collapsed_view_rolls_up_generation_runs() {
    let l = seeded_ledger();
    let (lines, hit_limit) = l.collapsed_history(1, None, None, 10);
    assert!(!hit_limit);
    assert_eq!(lines.len(), 4);
    // Newest first: the trailing generation run, the give, the rolled-up
    // generation run (sum 10, last snapshot 20), the fabrication.
    match &lines[0] {
        StatementLine::Generated { amount, balance } => {
            assert_eq!(*amount, 2);
            assert_eq!(*balance, 19);
        },
        other => panic!("expected a generation roll-up, got {:?}", other),
    }
    match &lines[1] {
        StatementLine::Entry(e) => {
            assert_eq!(e.happened_at, 4);
            assert!(e.outgoing);
        },
        other => panic!("expected the give, got {:?}", other),
    }
    match &lines[2] {
        StatementLine::Generated { amount, balance } => {
            assert_eq!(*amount, 10);
            assert_eq!(*balance, 20);
        },
        other => panic!("expected a generation roll-up, got {:?}", other),
    }
    match &lines[3] {
        StatementLine::Entry(e) => {
            assert_eq!(e.happened_at, 1);
            assert_eq!(e.balance, 10);
        },
        other => panic!("expected the fabrication, got {:?}", other),
    }
}

#[test]
fn collapsed_view_page_limit() {
    let l = seeded_ledger();
    // Only one ordinary entry per page: the give at t=4 is shown, and the
    // generation entries reach back just past the next older fetched entry.
    let (lines, hit_limit) = l.collapsed_history(1, None, None, 1);
    assert!(hit_limit);
    assert_eq!(
        lines,
        vec![
            StatementLine::Generated { amount: 2, balance: 19 },
            StatementLine::Entry(l.history(1, None, None, 100).remove(1)),
            StatementLine::Generated { amount: 10, balance: 20 },
        ]
    );
}

#[test]
fn collapsed_view_empty_when_no_ordinary_entries() {
    let mut l = ledger_with_pc();
    l.record_transfer(TransferKind::Generated, "pc", None, Some(1), 5, 2, None, None, None, None)
        .unwrap();
    // With no ordinary entry fetched there is no page to anchor the
    // generation window, so the page is empty.
    let (lines, hit_limit) = l.collapsed_history(1, None, None, 10);
    assert!(!hit_limit);
    assert!(lines.is_empty());
}
