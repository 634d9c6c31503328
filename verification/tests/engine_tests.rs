use plutocradroid::engine::{Engine, Config, Resolution, MotionState, MotionVote};
use plutocradroid::ledger::{ItemType, TransferKind};
use plutocradroid::errors::Error;

fn pc_item() -> ItemType {
    ItemType {
        name: String::from("pc"),
        long_name_plural: String::from("capability points"),
        long_name_ambiguous: String::from("point"),
    }
}

fn test_config() -> Config {
    Config {
        voting_window: 1_000,
        super_num: 2,
        super_den: 1,
        gen_interval: 100,
        gen_rate: 5,
        vote_currency: String::from("pc"),
    }
}

fn fresh_engine() -> Engine {
    Engine::new(test_config(), vec![pc_item()], Vec::new(), 0).unwrap()
}

fn fabricate(e: &mut Engine, user: u64, amount: u64, now: u64) {
    e.ledger
        .record_transfer(
            TransferKind::CommandFabricate,
            "pc",
            None,
            Some(user),
            amount,
            now,
            None,
            None,
            None,
            None,
        )
        .unwrap();
}

#[test]
fn new_engine_rejects_unknown_vote_currency() {
    let mut cfg = test_config();
    cfg.vote_currency = String::from("gold");
    assert_eq!(
        Engine::new(cfg, vec![pc_item()], Vec::new(), 0).err(),
        Some(Error::Validation)
    );
}

#[test]
fn scenario_vote_then_reduce() {
    // User 1 holds 10 pc; votes 5 for an open motion, then reduces to 2.
    let mut e = fresh_engine();
    fabricate(&mut e, 1, 10, 5);
    fabricate(&mut e, 2, 1, 5);
    let m = e
        .create_motion(String::from("buy a fountain"), false, 2, 900, 901, 10)
        .unwrap();

    e.cast_vote(1, m, true, 5, 20, None).unwrap();
    assert_eq!(e.ledger.balance(1, "pc"), 5);
    assert_eq!(
        e.votes
            .iter()
            .filter(|v| v.user == 1 && v.motion == m)
            .collect::<Vec<_>>(),
        vec![&MotionVote { user: 1, motion: m, direction: true, amount: 5 }]
    );

    e.cast_vote(1, m, true, 2, 30, None).unwrap();
    assert_eq!(e.ledger.balance(1, "pc"), 8);
    assert_eq!(
        e.votes
            .iter()
            .filter(|v| v.user == 1 && v.motion == m)
            .collect::<Vec<_>>(),
        vec![&MotionVote { user: 1, motion: m, direction: true, amount: 2 }]
    );

    let (yes, no, _win) = e.tally(m).unwrap();
    assert_eq!(yes, 2);
    assert_eq!(no, 0);
}

#[test]
fn revote_direction_change_is_one_net_transfer() {
    let mut e = fresh_engine();
    fabricate(&mut e, 1, 10, 0);
    fabricate(&mut e, 2, 1, 0);
    let m = e
        .create_motion(String::from("repaint the hall"), false, 2, 900, 901, 0)
        .unwrap();

    e.cast_vote(1, m, true, 5, 1, None).unwrap();
    let n_before = e.ledger.transfers.len();

    // Direction change 5 for -> 3 against: refund 5, charge 3, recorded as
    // one net refund of 2, never two transfers.
    e.cast_vote(1, m, false, 3, 2, None).unwrap();
    assert_eq!(e.ledger.transfers.len(), n_before + 1);
    let t = e.ledger.transfers.last().unwrap();
    assert_eq!(t.kind, TransferKind::MotionVote);
    assert_eq!(t.from_user, None);
    assert_eq!(t.to_user, Some(1));
    assert_eq!(t.quantity, 2);
    assert_eq!(e.ledger.balance(1, "pc"), 7);

    let rows: Vec<&MotionVote> =
        e.votes.iter().filter(|v| v.user == 1 && v.motion == m).collect();
    assert_eq!(rows, vec![&MotionVote { user: 1, motion: m, direction: false, amount: 3 }]);

    // An unchanged stake moves nothing.
    let n = e.ledger.transfers.len();
    e.cast_vote(1, m, false, 3, 3, None).unwrap();
    assert_eq!(e.ledger.transfers.len(), n);

    let (yes, no, _win) = e.tally(m).unwrap();
    assert_eq!((yes, no), (0, 3));
}

#[test]
fn vote_rejections() {
    let mut e = fresh_engine();
    fabricate(&mut e, 1, 10, 0);
    fabricate(&mut e, 2, 1, 0);
    let m = e
        .create_motion(String::from("dig a moat"), false, 2, 900, 901, 0)
        .unwrap();

    assert_eq!(e.cast_vote(1, 777, true, 1, 1, None), Err(Error::MotionNotFound));
    assert_eq!(e.tally(777), Err(Error::MotionNotFound));
    assert_eq!(e.motion_state(777, 1), Err(Error::MotionNotFound));
    assert!(e.motion(777).is_none());
    assert_eq!(e.motion(m).unwrap().motion_text, "dig a moat");
    // Window is 1000 starting at 0: time 1000 is closed.
    assert_eq!(e.cast_vote(1, m, true, 1, 1_000, None), Err(Error::MotionClosed));
    // Balance is 10: an 11-vote stake must be refused without mutation.
    let n = e.ledger.transfers.len();
    assert_eq!(e.cast_vote(1, m, true, 11, 5, None), Err(Error::InsufficientBalance));
    assert_eq!(e.ledger.transfers.len(), n);
    assert_eq!(e.ledger.balance(1, "pc"), 10);
}

#[test]
fn tally_thresholds() {
    // Same 3-vs-2 tally: a simple-majority motion wins, a 2:1 supermajority
    // motion does not.
    let mut e = fresh_engine();
    fabricate(&mut e, 1, 10, 0);
    fabricate(&mut e, 2, 10, 0);
    fabricate(&mut e, 3, 1, 0);
    let simple = e
        .create_motion(String::from("simple rule"), false, 3, 900, 901, 0)
        .unwrap();
    let supermotion = e
        .create_motion(String::from("super rule"), true, 3, 902, 903, 0)
        .unwrap();

    for m in [simple, supermotion] {
        e.cast_vote(1, m, true, 3, 1, None).unwrap();
        e.cast_vote(2, m, false, 2, 2, None).unwrap();
    }
    assert_eq!(e.tally(simple).unwrap(), (3, 2, true));
    assert_eq!(e.tally(supermotion).unwrap(), (3, 2, false));
}

#[test]
fn ties_fail() {
    let mut e = fresh_engine();
    fabricate(&mut e, 1, 10, 0);
    fabricate(&mut e, 2, 10, 0);
    fabricate(&mut e, 3, 1, 0);
    let m = e
        .create_motion(String::from("tied motion"), false, 3, 900, 901, 0)
        .unwrap();
    e.cast_vote(1, m, true, 4, 1, None).unwrap();
    e.cast_vote(2, m, false, 4, 2, None).unwrap();
    assert_eq!(e.tally(m).unwrap(), (4, 4, false));
}

#[test]
fn resolve_exactly_once() {
    let mut e = fresh_engine();
    fabricate(&mut e, 1, 10, 0);
    fabricate(&mut e, 2, 1, 0);
    let m = e
        .create_motion(String::from("declare victory"), false, 2, 900, 901, 0)
        .unwrap();
    e.cast_vote(1, m, true, 3, 1, None).unwrap();

    // Before the end of the window resolution is a no-op signal.
    assert_eq!(e.resolve(m, 500, 42), Ok(Resolution::StillOpen));
    assert_eq!(e.motion_state(m, 500), Ok(MotionState::Open));

    // At the end, exactly one caller announces; the motion is then terminal.
    assert_eq!(e.motion_state(m, 1_000), Ok(MotionState::PendingResolution));
    assert_eq!(e.resolve(m, 1_000, 42), Ok(Resolution::Announced(true)));
    let motion = e.motions.iter().find(|x| x.id == m).unwrap();
    assert_eq!(motion.announcement_message_id, Some(42));
    assert!(!motion.needs_update);

    // Every later attempt observes the no-op signal and changes nothing.
    assert_eq!(e.resolve(m, 1_001, 43), Ok(Resolution::AlreadyResolved));
    let motion = e.motions.iter().find(|x| x.id == m).unwrap();
    assert_eq!(motion.announcement_message_id, Some(42));
    assert_eq!(e.motion_state(m, 1_001), Ok(MotionState::Resolved));

    assert_eq!(e.resolve(777, 1_001, 44), Err(Error::MotionNotFound));
}

#[test]
fn result_flip_marks_motion() {
    let mut e = fresh_engine();
    fabricate(&mut e, 1, 10, 0);
    fabricate(&mut e, 2, 10, 0);
    fabricate(&mut e, 3, 1, 0);
    let m = e
        .create_motion(String::from("flip me"), false, 3, 900, 901, 0)
        .unwrap();
    // Freshly created motions are marked for a status broadcast.
    assert!(e.motions.iter().find(|x| x.id == m).unwrap().needs_update);

    e.cast_vote(1, m, true, 3, 10, None).unwrap(); // losing -> winning: flip
    let motion = e.motions.iter().find(|x| x.id == m).unwrap();
    assert_eq!(motion.last_result_change, 10);

    e.cast_vote(2, m, false, 1, 20, None).unwrap(); // still winning: no flip
    let motion = e.motions.iter().find(|x| x.id == m).unwrap();
    assert_eq!(motion.last_result_change, 10);

    e.cast_vote(2, m, false, 5, 30, None).unwrap(); // winning -> losing: flip
    let motion = e.motions.iter().find(|x| x.id == m).unwrap();
    assert_eq!(motion.last_result_change, 30);
    assert!(motion.needs_update);
}

#[test]
fn generation_mints_per_elapsed_interval() {
    let mut e = fresh_engine();
    let users = vec![1u64, 2u64];
    // Interval 100, rate 5, last run at 0: at time 250 two whole intervals
    // have elapsed, so each user receives 10.
    assert_eq!(e.run_generation_cycle(250, &users), Ok(true));
    assert_eq!(e.ledger.balance(1, "pc"), 10);
    assert_eq!(e.ledger.balance(2, "pc"), 10);
    assert_eq!(e.last_gen, 250);
    let t = e.ledger.transfers.last().unwrap();
    assert_eq!(t.kind, TransferKind::Generated);
    assert_eq!(t.from_user, None);
}

#[test]
fn generation_runs_at_most_once() {
    let mut e = fresh_engine();
    let users = vec![1u64, 2u64];
    assert_eq!(e.run_generation_cycle(250, &users), Ok(true));
    let n = e.ledger.transfers.len();

    // A second cycle at the same wall-clock time mints nothing.
    assert_eq!(e.run_generation_cycle(250, &users), Ok(false));
    assert_eq!(e.ledger.transfers.len(), n);
    assert_eq!(e.ledger.balance(1, "pc"), 10);
    assert_eq!(e.last_gen, 250);

    // Nor does one before the next interval has fully elapsed.
    assert_eq!(e.run_generation_cycle(349, &users), Ok(false));
    assert_eq!(e.ledger.transfers.len(), n);
}

#[test]
fn generation_before_first_interval_is_noop() {
    let mut e = fresh_engine();
    let users = vec![1u64];
    assert_eq!(e.run_generation_cycle(99, &users), Ok(false));
    assert_eq!(e.ledger.balance(1, "pc"), 0);
    assert_eq!(e.last_gen, 0);
}
