//! Voting engine and passive-income generator, built on the ledger.
//!
//! A motion moves through `Open` (no announcement yet, before its end time),
//! `PendingResolution` (past its end time, not yet announced) and `Resolved`
//! (announcement recorded; terminal). Votes are currency-weighted: casting a
//! vote stakes currency through the ledger, re-voting replaces the previous
//! vote and moves only the net difference. The generator mints income at most
//! once per elapsed interval, serialized by a single control value.

use vstd::prelude::*;
use vstd::pervasive::VecAdditionalExecFns;
use crate::errors::Error;
use crate::ledger::{Ledger, ItemType, Alias, TransferKind, balance_in, known_currency};

verus! {

/// External configuration: the engine reads these, it never hardcodes them.
pub struct Config {
    /// Length of a motion's voting window, from its creation time.
    pub voting_window: u64,
    /// A supermajority motion wins when `yes * super_den > no * super_num`.
    pub super_num: u64,
    pub super_den: u64,
    /// Minimum elapsed time before the generator mints again.
    pub gen_interval: u64,
    /// Amount minted per eligible user per full elapsed interval.
    pub gen_rate: u64,
    /// The currency that votes stake and the generator mints.
    pub vote_currency: String,
}

pub open spec fn config_wf(c: Config) -> bool {
    &&& c.super_num >= 1
    &&& c.super_den >= 1
    &&& c.gen_interval >= 1
}

/// A proposal under vote. Permanent once created; only `last_result_change`,
/// `needs_update` and the one-shot `announcement_message_id` ever change.
pub struct Motion {
    pub id: u64,
    pub command_message_id: u64,
    pub bot_message_id: u64,
    pub motion_text: String,
    pub motioned_at: u64,
    pub last_result_change: u64,
    pub is_super: bool,
    pub announcement_message_id: Option<u64>,
    pub needs_update: bool,
    pub motioned_by: u64,
}

/// Current vote state, keyed uniquely by (user, motion). Re-voting replaces
/// the row.
#[derive(Clone, Copy, Debug, PartialEq, Eq, Structural)]
pub struct MotionVote {
    pub user: u64,
    pub motion: u64,
    pub direction: bool,
    pub amount: u64,
}

/// Outcome of a resolution attempt. Exactly one caller ever observes
/// `Announced`; latecomers observe `AlreadyResolved`, and early callers
/// `StillOpen` — neither is an error and neither mutates anything.
#[derive(Clone, Copy, Debug, PartialEq, Eq, Structural)]
pub enum Resolution {
    Announced(bool),
    AlreadyResolved,
    StillOpen,
}

/// Lifecycle state of a motion at a given time.
#[derive(Clone, Copy, Debug, PartialEq, Eq, Structural)]
pub enum MotionState {
    Open,
    PendingResolution,
    Resolved,
}

/// The whole engine: ledger, motion and vote tables, the permanent motion id
/// sequence, and the generation control value.
pub struct Engine {
    pub config: Config,
    pub ledger: Ledger,
    pub motions: Vec<Motion>,
    pub votes: Vec<MotionVote>,
    pub next_motion_id: u64,
    pub last_gen: u64,
}

/// Sum of vote amounts for a motion in one direction.
pub open spec fn vote_sum(s: Seq<MotionVote>, m: u64, dir: bool) -> int
    decreases s.len(),
{
    if s.len() == 0 {
        0
    } else {
        vote_sum(s.drop_last(), m, dir) + vote_amt(s.last(), m, dir)
    }
}

/// The contribution of one vote row to a tally.
pub open spec fn vote_amt(v: MotionVote, m: u64, dir: bool) -> int {
    if v.motion == m && v.direction == dir {
        v.amount as int
    } else {
        0
    }
}

/// The vote row for (user, motion), if any.
pub open spec fn vote_of(s: Seq<MotionVote>, u: u64, m: u64) -> Option<MotionVote>
    decreases s.len(),
{
    if s.len() == 0 {
        None
    } else if s.last().user == u && s.last().motion == m {
        Some(s.last())
    } else {
        vote_of(s.drop_last(), u, m)
    }
}

/// The motion with the given id, if any.
pub open spec fn motion_of(s: Seq<Motion>, id: u64) -> Option<Motion>
    decreases s.len(),
{
    if s.len() == 0 {
        None
    } else if s.last().id == id {
        Some(s.last())
    } else {
        motion_of(s.drop_last(), id)
    }
}

/// Whether a tally wins: strictly more than a threshold of the opposition.
/// Simple majority for ordinary motions; the configured ratio for
/// supermajority motions. Ties always fail.
pub open spec fn is_winning(yes: int, no: int, is_super: bool, num: u64, den: u64) -> bool {
    if is_super {
        yes * den > no * num
    } else {
        yes > no
    }
}

/// A motion's end time: creation time plus the configured voting window.
pub open spec fn end_time(m: Motion, c: Config) -> int {
    m.motioned_at + c.voting_window
}

/// Whether a generation cycle is due at time `now`.
pub open spec fn gen_due(e: Engine, now: u64) -> bool {
    now >= e.last_gen && now - e.last_gen >= e.config.gen_interval
}

impl Engine {
    /// Engine invariant: a well-formed ledger; valid configuration with a
    /// registered vote currency; unique motion ids below the id counter;
    /// unique (user, motion) vote keys, each referencing an existing motion;
    /// and per-motion tallies that fit the amount type.
    pub open spec fn wf(self) -> bool {
        &&& self.ledger.wf()
        &&& config_wf(self.config)
        &&& known_currency(self.ledger.item_types@, self.config.vote_currency@)
        &&& forall|i: int, j: int|
            #![trigger self.motions@[i].id, self.motions@[j].id]
            0 <= i < j < self.motions@.len() ==> self.motions@[i].id != self.motions@[j].id
        &&& forall|i: int|
            0 <= i < self.motions@.len() ==> #[trigger] self.motions@[i].id < self.next_motion_id
        &&& forall|i: int, j: int|
            #![trigger self.votes@[i], self.votes@[j]]
            0 <= i < j < self.votes@.len() ==> !(self.votes@[i].user == self.votes@[j].user
                && self.votes@[i].motion == self.votes@[j].motion)
        &&& forall|i: int|
            0 <= i < self.votes@.len() ==> motion_of(self.motions@, (#[trigger] self.votes@[i]).motion)
                is Some
        &&& forall|m: u64|
            (#[trigger] vote_sum(self.votes@, m, true)) + vote_sum(self.votes@, m, false)
                <= u64::MAX
    }

    /// A fresh engine over the given configuration and currency registry.
    /// Rejects a configuration with a zero divisor or interval, or whose
    /// vote currency is not registered.
    pub fn new(config: Config, item_types: Vec<ItemType>, aliases: Vec<Alias>, now: u64) -> (r:
        Result<Engine, Error>)
        ensures
            match r {
                Ok(e) => {
                    &&& config_wf(config)
                    &&& known_currency(item_types@, config.vote_currency@)
                    &&& e.wf()
                    &&& e.config == config
                    &&& e.ledger.item_types@ == item_types@
                    &&& e.ledger.aliases@ == aliases@
                    &&& e.ledger.transfers@.len() == 0
                    &&& e.motions@.len() == 0
                    &&& e.votes@.len() == 0
                    &&& e.next_motion_id == 1
                    &&& e.last_gen == now
                },
                Err(err) => {
                    &&& err == Error::Validation
                    &&& (!config_wf(config) || !known_currency(
                        item_types@,
                        config.vote_currency@,
                    ))
                },
            },
    {
        if config.super_num < 1 || config.super_den < 1 || config.gen_interval < 1 {
            return Err(Error::Validation);
        }
        let ledger = Ledger::new(item_types, aliases);
        if !ledger.has_item_type(config.vote_currency.as_str()) {
            return Err(Error::Validation);
        }
        let e = Engine {
            config,
            ledger,
            motions: Vec::new(),
            votes: Vec::new(),
            next_motion_id: 1,
            last_gen: now,
        };
        proof {
            assert forall|m: u64|
                (#[trigger] vote_sum(e.votes@, m, true)) + vote_sum(e.votes@, m, false)
                    <= u64::MAX by {
                assert(vote_sum(e.votes@, m, true) == 0);
                assert(vote_sum(e.votes@, m, false) == 0);
            }
        }
        Ok(e)
    }

    /// The index of the motion with the given id.
    fn find_motion(&self, id: u64) -> (r: Option<usize>)
        requires
            self.wf(),
        ensures
            match r {
                Some(i) => {
                    &&& i < self.motions@.len()
                    &&& self.motions@[i as int].id == id
                    &&& motion_of(self.motions@, id) == Some(self.motions@[i as int])
                },
                None => motion_of(self.motions@, id) is None,
            },
    {
        let mut i: usize = 0;
        while i < self.motions.len()
            invariant
                self.wf(),
                0 <= i <= self.motions@.len(),
                forall|j: int| 0 <= j < i ==> (#[trigger] self.motions@[j].id) != id,
            decreases self.motions@.len() - i,
        {
            if self.motions[i].id == id {
                proof {
                    lemma_motion_of_found(self.motions@, i as int, id);
                }
                return Some(i);
            }
            i = i + 1;
        }
        proof {
            lemma_motion_of_absent(self.motions@, id);
        }
        None
    }

    /// The index of the vote row for (user, motion).
    fn find_vote(&self, user: u64, motion: u64) -> (r: Option<usize>)
        requires
            self.wf(),
        ensures
            match r {
                Some(i) => {
                    &&& i < self.votes@.len()
                    &&& self.votes@[i as int].user == user
                    &&& self.votes@[i as int].motion == motion
                    &&& vote_of(self.votes@, user, motion) == Some(self.votes@[i as int])
                },
                None => vote_of(self.votes@, user, motion) is None,
            },
    {
        let mut i: usize = 0;
        while i < self.votes.len()
            invariant
                self.wf(),
                0 <= i <= self.votes@.len(),
                forall|j: int|
                    0 <= j < i ==> !((#[trigger] self.votes@[j]).user == user
                        && self.votes@[j].motion == motion),
            decreases self.votes@.len() - i,
        {
            let v = &self.votes[i];
            if v.user == user && v.motion == motion {
                proof {
                    lemma_vote_of_found(self.votes@, i as int, user, motion);
                }
                return Some(i);
            }
            i = i + 1;
        }
        proof {
            lemma_vote_of_absent(self.votes@, user, motion);
        }
        None
    }
}

/// Lifecycle state of a motion at time `now`.
pub open spec fn spec_motion_state(m: Motion, c: Config, now: u64) -> MotionState {
    if m.announcement_message_id is Some {
        MotionState::Resolved
    } else if (now as int) < end_time(m, c) {
        MotionState::Open
    } else {
        MotionState::PendingResolution
    }
}

impl Engine {
    /// Current tallies and winning status of a motion: the sums of vote
    /// amounts by direction, and whether "yes" currently wins.
    pub fn tally(&self, motion_id: u64) -> (r: Result<(u64, u64, bool), Error>)
        requires
            self.wf(),
        ensures
            match r {
                Ok(t) => {
                    &&& motion_of(self.motions@, motion_id) is Some
                    &&& t.0 as int == vote_sum(self.votes@, motion_id, true)
                    &&& t.1 as int == vote_sum(self.votes@, motion_id, false)
                    &&& t.2 == is_winning(
                        t.0 as int,
                        t.1 as int,
                        motion_of(self.motions@, motion_id)->0.is_super,
                        self.config.super_num,
                        self.config.super_den,
                    )
                },
                Err(e) => {
                    &&& e == Error::MotionNotFound
                    &&& motion_of(self.motions@, motion_id) is None
                },
            },
    {
        let midx = match self.find_motion(motion_id) {
            Some(i) => i,
            None => {
                return Err(Error::MotionNotFound);
            },
        };
        let (yes, no) = tally_sums(&self.votes, motion_id);
        let win = winning_exec(
            yes,
            no,
            self.motions[midx].is_super,
            self.config.super_num,
            self.config.super_den,
        );
        Ok((yes, no, win))
    }

    /// The motion with the given id, for rendering its text, timestamps and
    /// announcement state.
    pub fn motion(&self, motion_id: u64) -> (r: Option<&Motion>)
        requires
            self.wf(),
        ensures
            match r {
                Some(m) => motion_of(self.motions@, motion_id) == Some(*m),
                None => motion_of(self.motions@, motion_id) is None,
            },
    {
        match self.find_motion(motion_id) {
            Some(i) => Some(&self.motions[i]),
            None => None,
        }
    }

    /// The lifecycle state of a motion at time `now`.
    pub fn motion_state(&self, motion_id: u64, now: u64) -> (r: Result<MotionState, Error>)
        requires
            self.wf(),
        ensures
            match r {
                Ok(st) => {
                    &&& motion_of(self.motions@, motion_id) is Some
                    &&& st == spec_motion_state(
                        motion_of(self.motions@, motion_id)->0,
                        self.config,
                        now,
                    )
                },
                Err(e) => {
                    &&& e == Error::MotionNotFound
                    &&& motion_of(self.motions@, motion_id) is None
                },
            },
    {
        let midx = match self.find_motion(motion_id) {
            Some(i) => i,
            None => {
                return Err(Error::MotionNotFound);
            },
        };
        let m = &self.motions[midx];
        if m.announcement_message_id.is_some() {
            Ok(MotionState::Resolved)
        } else if (now as u128) < (m.motioned_at as u128) + (self.config.voting_window as u128) {
            Ok(MotionState::Open)
        } else {
            Ok(MotionState::PendingResolution)
        }
    }

    /// Creates a motion: assigns the next id from the permanent sequence
    /// (ids are never reused, even across deletion) and inserts the motion,
    /// open as of `now` and marked as needing a status broadcast. Fails, and
    /// mutates nothing, only when the id sequence is exhausted.
    pub fn create_motion(
        &mut self,
        motion_text: String,
        is_super: bool,
        creator: u64,
        command_message_id: u64,
        bot_message_id: u64,
        now: u64,
    ) -> (r: Result<u64, Error>)
        requires
            old(self).wf(),
        ensures
            final(self).wf(),
            r is Ok <==> old(self).next_motion_id < u64::MAX,
            r is Err ==> r == Err::<u64, Error>(Error::Validation) && *final(self) == *old(self),
            r is Ok ==> ({
                let id = old(self).next_motion_id;
                let m = final(self).motions@.last();
                &&& r->Ok_0 == id
                &&& final(self).next_motion_id == id + 1
                &&& final(self).motions@.drop_last() == old(self).motions@
                &&& final(self).motions@.len() == old(self).motions@.len() + 1
                &&& m.id == id
                &&& m.command_message_id == command_message_id
                &&& m.bot_message_id == bot_message_id
                &&& m.motion_text == motion_text
                &&& m.motioned_at == now
                &&& m.last_result_change == now
                &&& m.is_super == is_super
                &&& m.announcement_message_id is None
                &&& m.needs_update == true
                &&& m.motioned_by == creator
                &&& motion_of(final(self).motions@, id) == Some(m)
                &&& (forall|id2: u64|
                    id2 != id ==> motion_of(final(self).motions@, id2) == motion_of(
                        old(self).motions@,
                        id2,
                    ))
                &&& final(self).votes@ == old(self).votes@
                &&& final(self).ledger == old(self).ledger
                &&& final(self).config == old(self).config
                &&& final(self).last_gen == old(self).last_gen
            }),
    {
        if self.next_motion_id == u64::MAX {
            return Err(Error::Validation);
        }
        let id = self.next_motion_id;
        let ghost old_motions = self.motions@;
        self.motions.push(
            Motion {
                id,
                command_message_id,
                bot_message_id,
                motion_text,
                motioned_at: now,
                last_result_change: now,
                is_super,
                announcement_message_id: None,
                needs_update: true,
                motioned_by: creator,
            },
        );
        self.next_motion_id = id + 1;
        proof {
            let nm = self.motions@;
            assert(nm.drop_last() =~= old_motions);
            assert forall|i: int, j: int|
                0 <= i < j < nm.len() implies nm[i].id != nm[j].id by {
                if j == nm.len() - 1 {
                    assert(nm[i] == old_motions[i]);
                    assert(old_motions[i].id < id);
                }
            }
            assert forall|i: int|
                0 <= i < nm.len() implies #[trigger] nm[i].id < self.next_motion_id by {
                if i < old_motions.len() {
                    assert(nm[i] == old_motions[i]);
                    assert(old_motions[i].id < id);
                }
            }
            assert forall|i: int|
                0 <= i < self.votes@.len() implies motion_of(
                    nm,
                    (#[trigger] self.votes@[i]).motion,
                ) is Some by {
                assert(motion_of(old_motions, self.votes@[i].motion) is Some);
                lemma_motion_of_some_exists(old_motions, self.votes@[i].motion);
                lemma_motion_of_push_other(old_motions, nm.last(), self.votes@[i].motion);
            }
            assert(motion_of(nm, id) == Some(nm.last()));
            assert forall|id2: u64|
                id2 != id implies motion_of(nm, id2) == motion_of(old_motions, id2) by {
                lemma_motion_of_push_other(old_motions, nm.last(), id2);
            }
        }
        Ok(id)
    }
}

impl Engine {
    /// Casts or changes a vote: replaces the (user, motion) vote row with the
    /// new direction and amount, records exactly one ledger transfer for the
    /// net currency movement (a charge when the new stake exceeds the old,
    /// a refund when it shrinks, nothing when equal — never two transfers),
    /// and, when the winning side flips, stamps the motion as changed and
    /// needing a fresh status broadcast.
    ///
    /// Rejections, in decision order and mutating nothing: `MotionNotFound`;
    /// `MotionClosed` once `now` reaches the motion's end time; `Validation`
    /// when the new tally would exceed the amount type (or an id counter or
    /// the refunded balance would overflow); `InsufficientBalance` when the
    /// net charge exceeds the caller's balance.
    #[verifier::rlimit(100)]
    pub fn cast_vote(
        &mut self,
        user: u64,
        motion_id: u64,
        direction: bool,
        amount: u64,
        now: u64,
        message_id: Option<u64>,
    ) -> (r: Result<(), Error>)
        requires
            old(self).wf(),
        ensures
            final(self).wf(),
            ({
                let cur = old(self).config.vote_currency@;
                let ov = vote_of(old(self).votes@, user, motion_id);
                let old_amt = (match ov {
                    Some(v) => v.amount as int,
                    None => 0,
                });
                let oy = vote_sum(old(self).votes@, motion_id, true);
                let on = vote_sum(old(self).votes@, motion_id, false);
                let bal = balance_in(old(self).ledger.transfers@, user, cur);
                let net = amount - old_amt;
                match motion_of(old(self).motions@, motion_id) {
                    None => r == Err::<(), Error>(Error::MotionNotFound),
                    Some(om) => {
                        let closed = now as int >= end_time(om, old(self).config);
                        let total_ok = oy + on - old_amt + amount <= u64::MAX;
                        let charge_fail = net > 0 && bal < net;
                        let refund_over = net < 0 && bal - net > u64::MAX;
                        let exhausted = net != 0 && old(self).ledger.next_id == u64::MAX;
                        &&& (r == Err::<(), Error>(Error::MotionClosed) <==> closed)
                        &&& (r == Err::<(), Error>(Error::Validation) <==> (!closed && (!total_ok
                            || (total_ok && !charge_fail && (refund_over || exhausted)))))
                        &&& (r == Err::<(), Error>(Error::InsufficientBalance) <==> (!closed
                            && total_ok && charge_fail))
                        &&& (r is Ok <==> (!closed && total_ok && !charge_fail && !refund_over
                            && !exhausted))
                    },
                }
            }),
            r is Err ==> *final(self) == *old(self),
            r is Ok ==> ({
                let cur = old(self).config.vote_currency@;
                let ov = vote_of(old(self).votes@, user, motion_id);
                let old_amt = (match ov {
                    Some(v) => v.amount as int,
                    None => 0,
                });
                let oy = vote_sum(old(self).votes@, motion_id, true);
                let on = vote_sum(old(self).votes@, motion_id, false);
                let bal = balance_in(old(self).ledger.transfers@, user, cur);
                let net = amount - old_amt;
                let om = motion_of(old(self).motions@, motion_id)->0;
                let nv = MotionVote { user, motion: motion_id, direction, amount };
                let ny = oy - (match ov {
                    Some(v) => vote_amt(v, motion_id, true),
                    None => 0,
                }) + (if direction {
                    amount as int
                } else {
                    0
                });
                let nn = on - (match ov {
                    Some(v) => vote_amt(v, motion_id, false),
                    None => 0,
                }) + (if !direction {
                    amount as int
                } else {
                    0
                });
                let flip = is_winning(
                    oy,
                    on,
                    om.is_super,
                    old(self).config.super_num,
                    old(self).config.super_den,
                ) != is_winning(
                    ny,
                    nn,
                    om.is_super,
                    old(self).config.super_num,
                    old(self).config.super_den,
                );
                &&& vote_of(final(self).votes@, user, motion_id) == Some(nv)
                &&& (forall|u2: u64, m2: u64|
                    !(u2 == user && m2 == motion_id) ==> vote_of(final(self).votes@, u2, m2)
                        == vote_of(old(self).votes@, u2, m2))
                &&& vote_sum(final(self).votes@, motion_id, true) == ny
                &&& vote_sum(final(self).votes@, motion_id, false) == nn
                &&& (forall|m2: u64|
                    m2 != motion_id ==> vote_sum(final(self).votes@, m2, true) == vote_sum(
                        old(self).votes@,
                        m2,
                        true,
                    ) && vote_sum(final(self).votes@, m2, false) == vote_sum(
                        old(self).votes@,
                        m2,
                        false,
                    ))
                &&& (net > 0 ==> final(self).ledger.transfers@.drop_last() == old(
                    self,
                ).ledger.transfers@ && ({
                    let t = final(self).ledger.transfers@.last();
                    &&& t.kind == TransferKind::MotionVote
                    &&& t.from_user == Some(user)
                    &&& t.to_user is None
                    &&& t.quantity as int == net
                    &&& t.currency@ == cur
                    &&& t.to_motion == Some(motion_id)
                    &&& t.to_votes == Some(amount)
                    &&& t.message_id == message_id
                }))
                &&& (net < 0 ==> final(self).ledger.transfers@.drop_last() == old(
                    self,
                ).ledger.transfers@ && ({
                    let t = final(self).ledger.transfers@.last();
                    &&& t.kind == TransferKind::MotionVote
                    &&& t.from_user is None
                    &&& t.to_user == Some(user)
                    &&& t.quantity as int == -net
                    &&& t.currency@ == cur
                    &&& t.to_motion == Some(motion_id)
                    &&& t.to_votes == Some(amount)
                    &&& t.message_id == message_id
                }))
                &&& (net == 0 ==> final(self).ledger.transfers@ == old(self).ledger.transfers@)
                &&& balance_in(final(self).ledger.transfers@, user, cur) == bal - net
                &&& motion_of(final(self).motions@, motion_id) == Some(
                    (Motion {
                        last_result_change: if flip {
                            now
                        } else {
                            om.last_result_change
                        },
                        needs_update: om.needs_update || flip,
                        ..om
                    }),
                )
                &&& (forall|id2: u64|
                    id2 != motion_id ==> motion_of(final(self).motions@, id2) == motion_of(
                        old(self).motions@,
                        id2,
                    ))
                &&& final(self).motions@.len() == old(self).motions@.len()
                &&& final(self).next_motion_id == old(self).next_motion_id
                &&& final(self).last_gen == old(self).last_gen
                &&& final(self).config == old(self).config
                &&& final(self).ledger.item_types@ == old(self).ledger.item_types@
                &&& final(self).ledger.aliases@ == old(self).ledger.aliases@
            }),
    {
        let midx = match self.find_motion(motion_id) {
            Some(i) => i,
            None => {
                return Err(Error::MotionNotFound);
            },
        };
        let m_at = self.motions[midx].motioned_at;
        if (now as u128) >= (m_at as u128) + (self.config.voting_window as u128) {
            return Err(Error::MotionClosed);
        }
        let vidx_opt = self.find_vote(user, motion_id);
        let (old_amt, old_dir): (u64, bool) = match vidx_opt {
            Some(vi) => (self.votes[vi].amount, self.votes[vi].direction),
            None => (0, direction),
        };
        let (yes0, no0) = tally_sums(&self.votes, motion_id);
        let lhs: u128 = yes0 as u128 + no0 as u128 + amount as u128;
        let thr: u128 = 0xffff_ffff_ffff_ffffu128 + old_amt as u128;
        if lhs > thr {
            return Err(Error::Validation);
        }
        let currency = self.config.vote_currency.clone();
        if amount > old_amt {
            let net = amount - old_amt;
            match self.ledger.record_transfer(
                TransferKind::MotionVote,
                currency.as_str(),
                Some(user),
                None,
                net,
                now,
                message_id,
                Some(motion_id),
                Some(amount),
                None,
            ) {
                Ok(_) => {},
                Err(e) => {
                    return Err(e);
                },
            }
        } else if amount < old_amt {
            let refund = old_amt - amount;
            match self.ledger.record_transfer(
                TransferKind::MotionVote,
                currency.as_str(),
                None,
                Some(user),
                refund,
                now,
                message_id,
                Some(motion_id),
                Some(amount),
                None,
            ) {
                Ok(_) => {},
                Err(e) => {
                    return Err(e);
                },
            }
        }
        let ghost old_votes = old(self).votes@;
        let nrow = MotionVote { user, motion: motion_id, direction, amount };
        match vidx_opt {
            Some(vi) => {
                self.votes.set(vi, nrow);
                proof {
                    lemma_vote_sum_update(old_votes, vi as int, nrow, motion_id, true);
                    lemma_vote_sum_update(old_votes, vi as int, nrow, motion_id, false);
                    lemma_vote_of_update(old_votes, vi as int, nrow, user, motion_id);
                    assert forall|u2: u64, m2: u64|
                        !(u2 == user && m2 == motion_id) implies vote_of(self.votes@, u2, m2)
                            == vote_of(old_votes, u2, m2) by {
                        lemma_vote_of_update(old_votes, vi as int, nrow, u2, m2);
                    }
                    assert forall|m2: u64|
                        m2 != motion_id implies vote_sum(self.votes@, m2, true) == vote_sum(
                            old_votes,
                            m2,
                            true,
                        ) && vote_sum(self.votes@, m2, false) == vote_sum(
                            old_votes,
                            m2,
                            false,
                        ) by {
                        lemma_vote_sum_update(old_votes, vi as int, nrow, m2, true);
                        lemma_vote_sum_update(old_votes, vi as int, nrow, m2, false);
                    }
                }
            },
            None => {
                self.votes.push(nrow);
                proof {
                    lemma_vote_of_none_absent(old_votes, user, motion_id);
                    assert(self.votes@.drop_last() =~= old_votes);
                    assert(self.votes@.last() == nrow);
                    assert forall|u2: u64, m2: u64|
                        !(u2 == user && m2 == motion_id) implies vote_of(self.votes@, u2, m2)
                            == vote_of(old_votes, u2, m2) by {
                        assert(self.votes@.drop_last() =~= old_votes);
                    }
                }
            },
        }
        proof {
            assert forall|i: int, j: int|
                0 <= i < j < self.votes@.len() implies !(self.votes@[i].user
                    == self.votes@[j].user && self.votes@[i].motion
                    == self.votes@[j].motion) by {
                match vidx_opt {
                    Some(vi) => {
                        assert(self.votes@ == old_votes.update(vi as int, nrow));
                        assert(old_votes[vi as int].user == user && old_votes[vi as int].motion
                            == motion_id);
                        assert(!(old_votes[i].user == old_votes[j].user && old_votes[i].motion
                            == old_votes[j].motion));
                    },
                    None => {
                        lemma_vote_of_none_absent(old_votes, user, motion_id);
                        if j == self.votes@.len() - 1 {
                            assert(self.votes@[i] == old_votes[i]);
                        }
                    },
                }
            }
            assert forall|i: int|
                0 <= i < self.votes@.len() implies motion_of(
                    self.motions@,
                    (#[trigger] self.votes@[i]).motion,
                ) is Some by {
                match vidx_opt {
                    Some(vi) => {
                        if i != vi as int {
                            assert(self.votes@[i] == old_votes[i]);
                        }
                    },
                    None => {
                        if i < old_votes.len() {
                            assert(self.votes@[i] == old_votes[i]);
                        }
                    },
                }
            }
            assert forall|m2: u64|
                (#[trigger] vote_sum(self.votes@, m2, true)) + vote_sum(self.votes@, m2, false)
                    <= u64::MAX by {
                assert(vote_sum(old_votes, m2, true) + vote_sum(old_votes, m2, false)
                    <= u64::MAX);
                if m2 == motion_id {
                    match vidx_opt {
                        Some(vi) => {
                            lemma_vote_sum_update(old_votes, vi as int, nrow, m2, true);
                            lemma_vote_sum_update(old_votes, vi as int, nrow, m2, false);
                            assert(vote_amt(old_votes[vi as int], m2, true) + vote_amt(
                                old_votes[vi as int],
                                m2,
                                false,
                            ) == old_amt);
                        },
                        None => {
                            assert(self.votes@.drop_last() =~= old_votes);
                            assert(self.votes@.last() == nrow);
                        },
                    }
                    assert(vote_amt(nrow, m2, true) + vote_amt(nrow, m2, false) == amount);
                } else {
                    match vidx_opt {
                        Some(vi) => {
                            lemma_vote_sum_update(old_votes, vi as int, nrow, m2, true);
                            lemma_vote_sum_update(old_votes, vi as int, nrow, m2, false);
                        },
                        None => {
                            assert(self.votes@.drop_last() =~= old_votes);
                            assert(self.votes@.last() == nrow);
                        },
                    }
                }
            }
        }
        let (yes1, no1) = tally_sums(&self.votes, motion_id);
        let is_super = self.motions[midx].is_super;
        let w0 = winning_exec(yes0, no0, is_super, self.config.super_num, self.config.super_den);
        let w1 = winning_exec(yes1, no1, is_super, self.config.super_num, self.config.super_den);
        let ghost old_motions = old(self).motions@;
        if w0 != w1 {
            let mr = vstd::std_specs::vec::vec_index_mut(&mut self.motions, midx);
            mr.last_result_change = now;
            mr.needs_update = true;
        }
        proof {
            let ghost om = old_motions[midx as int];
            if w0 != w1 {
                assert(self.motions@ == old_motions.update(
                    midx as int,
                    (Motion { last_result_change: now, needs_update: true, ..om }),
                ));
                assert forall|i: int, j: int|
                    0 <= i < j < self.motions@.len() implies self.motions@[i].id
                        != self.motions@[j].id by {
                    assert(old_motions[i].id != old_motions[j].id);
                }
                assert forall|i: int|
                    0 <= i < self.motions@.len() implies #[trigger] self.motions@[i].id
                        < self.next_motion_id by {
                    assert(old_motions[i].id < self.next_motion_id);
                }
                lemma_motion_of_update(
                    old_motions,
                    midx as int,
                    (Motion { last_result_change: now, needs_update: true, ..om }),
                    motion_id,
                );
                assert forall|id2: u64|
                    id2 != motion_id implies motion_of(self.motions@, id2) == motion_of(
                        old_motions,
                        id2,
                    ) by {
                    lemma_motion_of_update(
                        old_motions,
                        midx as int,
                        (Motion { last_result_change: now, needs_update: true, ..om }),
                        id2,
                    );
                }
                assert forall|i: int|
                    0 <= i < self.votes@.len() implies motion_of(
                        self.motions@,
                        (#[trigger] self.votes@[i]).motion,
                    ) is Some by {
                    if self.votes@[i].motion == motion_id {
                    } else {
                        lemma_motion_of_update(
                            old_motions,
                            midx as int,
                            (Motion { last_result_change: now, needs_update: true, ..om }),
                            self.votes@[i].motion,
                        );
                    }
                }
            }
            assert(balance_in(
                self.ledger.transfers@,
                user,
                old(self).config.vote_currency@,
            ) == balance_in(old(self).ledger.transfers@, user, old(self).config.vote_currency@)
                - (amount - old_amt)) by {
                if amount != old_amt {
                    assert(self.ledger.transfers@.drop_last() == old(self).ledger.transfers@);
                }
            }
        }
        Ok(())
    }
}

impl Engine {
    /// Finalizes a motion: callable effect only once the voting window has
    /// ended and no announcement is recorded yet. The null-to-non-null
    /// transition of `announcement_message_id` happens for exactly one
    /// caller; every other attempt observes a no-op signal
    /// (`AlreadyResolved` after the transition, `StillOpen` before the end
    /// time) and mutates nothing.
    pub fn resolve(&mut self, motion_id: u64, now: u64, announcement_message_id: u64) -> (r:
        Result<Resolution, Error>)
        requires
            old(self).wf(),
        ensures
            final(self).wf(),
            ({
                match motion_of(old(self).motions@, motion_id) {
                    None => r == Err::<Resolution, Error>(Error::MotionNotFound) && *final(self)
                        == *old(self),
                    Some(om) => {
                        if (now as int) < end_time(om, old(self).config) {
                            r == Ok::<Resolution, Error>(Resolution::StillOpen) && *final(self)
                                == *old(self)
                        } else if om.announcement_message_id is Some {
                            &&& r == Ok::<Resolution, Error>(Resolution::AlreadyResolved)
                            &&& *final(self) == *old(self)
                        } else {
                            let w = is_winning(
                                vote_sum(old(self).votes@, motion_id, true),
                                vote_sum(old(self).votes@, motion_id, false),
                                om.is_super,
                                old(self).config.super_num,
                                old(self).config.super_den,
                            );
                            &&& r == Ok::<Resolution, Error>(Resolution::Announced(w))
                            &&& motion_of(final(self).motions@, motion_id) == Some(
                                (Motion {
                                    announcement_message_id: Some(announcement_message_id),
                                    needs_update: false,
                                    ..om
                                }),
                            )
                            &&& (forall|id2: u64|
                                id2 != motion_id ==> motion_of(final(self).motions@, id2)
                                    == motion_of(old(self).motions@, id2))
                            &&& final(self).motions@.len() == old(self).motions@.len()
                            &&& final(self).votes@ == old(self).votes@
                            &&& final(self).ledger == old(self).ledger
                            &&& final(self).next_motion_id == old(self).next_motion_id
                            &&& final(self).last_gen == old(self).last_gen
                            &&& final(self).config == old(self).config
                        }
                    },
                }
            }),
    {
        let midx = match self.find_motion(motion_id) {
            Some(i) => i,
            None => {
                return Err(Error::MotionNotFound);
            },
        };
        let m_at = self.motions[midx].motioned_at;
        if (now as u128) < (m_at as u128) + (self.config.voting_window as u128) {
            return Ok(Resolution::StillOpen);
        }
        if self.motions[midx].announcement_message_id.is_some() {
            return Ok(Resolution::AlreadyResolved);
        }
        let (yes, no) = tally_sums(&self.votes, motion_id);
        let w = winning_exec(
            yes,
            no,
            self.motions[midx].is_super,
            self.config.super_num,
            self.config.super_den,
        );
        let ghost old_motions = self.motions@;
        let ghost om = self.motions@[midx as int];
        let mr = vstd::std_specs::vec::vec_index_mut(&mut self.motions, midx);
        mr.announcement_message_id = Some(announcement_message_id);
        mr.needs_update = false;
        proof {
            let nm = (Motion {
                announcement_message_id: Some(announcement_message_id),
                needs_update: false,
                ..om
            });
            assert(self.motions@ == old_motions.update(midx as int, nm));
            assert forall|i: int, j: int|
                0 <= i < j < self.motions@.len() implies self.motions@[i].id
                    != self.motions@[j].id by {
                assert(old_motions[i].id != old_motions[j].id);
            }
            assert forall|i: int|
                0 <= i < self.motions@.len() implies #[trigger] self.motions@[i].id
                    < self.next_motion_id by {
                assert(old_motions[i].id < self.next_motion_id);
            }
            lemma_motion_of_update(old_motions, midx as int, nm, motion_id);
            assert forall|id2: u64|
                id2 != motion_id implies motion_of(self.motions@, id2) == motion_of(
                    old_motions,
                    id2,
                ) by {
                lemma_motion_of_update(old_motions, midx as int, nm, id2);
            }
            assert forall|i: int|
                0 <= i < self.votes@.len() implies motion_of(
                    self.motions@,
                    (#[trigger] self.votes@[i]).motion,
                ) is Some by {
                lemma_motion_of_update(old_motions, midx as int, nm, self.votes@[i].motion);
            }
        }
        Ok(Resolution::Announced(w))
    }

    /// Runs one generation cycle at time `now` for the given distinct
    /// eligible users: reads the control value `last_gen`, and only when at
    /// least one full configured interval has elapsed mints
    /// `gen_rate * elapsed_intervals` of the configured currency to every
    /// eligible user and moves `last_gen` to `now` in the same atomic step.
    /// Running it again with the same clock reading is a no-op, so redundant
    /// or racing callers never double-mint an interval.
    pub fn run_generation_cycle(&mut self, now: u64, users: &Vec<u64>) -> (r: Result<bool, Error>)
        requires
            old(self).wf(),
            forall|i: int, j: int| 0 <= i < j < users@.len() ==> users@[i] != users@[j],
        ensures
            final(self).wf(),
            !gen_due(*old(self), now) ==> r == Ok::<bool, Error>(false) && *final(self) == *old(
                self,
            ),
            gen_due(*old(self), now) ==> ({
                let cur = old(self).config.vote_currency@;
                let intervals = (now - old(self).last_gen) as int / old(
                    self,
                ).config.gen_interval as int;
                let amount = old(self).config.gen_rate as int * intervals;
                let over_amount = amount > u64::MAX;
                let id_over = amount >= 1 && old(self).ledger.next_id as int + users@.len()
                    > u64::MAX as int;
                let bal_over = amount >= 1 && exists|i: int|
                    0 <= i < users@.len() && balance_in(
                        old(self).ledger.transfers@,
                        users@[i],
                        cur,
                    ) + amount > u64::MAX;
                &&& (r == Err::<bool, Error>(Error::Validation) <==> (over_amount || (
                    !over_amount && (id_over || (!id_over && bal_over)))))
                &&& (r is Err ==> *final(self) == *old(self))
                &&& (r is Ok ==> ({
                    let olen = old(self).ledger.transfers@.len();
                    &&& r == Ok::<bool, Error>(true)
                    &&& final(self).last_gen == now
                    &&& final(self).motions@ == old(self).motions@
                    &&& final(self).votes@ == old(self).votes@
                    &&& final(self).config == old(self).config
                    &&& final(self).next_motion_id == old(self).next_motion_id
                    &&& final(self).ledger.item_types@ == old(self).ledger.item_types@
                    &&& final(self).ledger.aliases@ == old(self).ledger.aliases@
                    &&& (amount < 1 ==> final(self).ledger.transfers@ == old(
                        self,
                    ).ledger.transfers@)
                    &&& (amount >= 1 ==> ({
                        &&& final(self).ledger.transfers@.len() == olen + users@.len()
                        &&& final(self).ledger.transfers@.subrange(0, olen as int) == old(
                            self,
                        ).ledger.transfers@
                        &&& (forall|i: int|
                            0 <= i < users@.len() ==> ({
                                let t = #[trigger] final(self).ledger.transfers@[olen + i];
                                &&& t.kind == TransferKind::Generated
                                &&& t.from_user is None
                                &&& t.to_user == Some(users@[i])
                                &&& t.quantity as int == amount
                                &&& t.currency@ == cur
                                &&& t.to_balance->0 as int == balance_in(
                                    old(self).ledger.transfers@,
                                    users@[i],
                                    cur,
                                ) + amount
                            }))
                    }))
                }))
            }),
    {
        if now < self.last_gen {
            return Ok(false);
        }
        let elapsed = now - self.last_gen;
        if elapsed < self.config.gen_interval {
            return Ok(false);
        }
        let intervals = elapsed / self.config.gen_interval;
        proof {
            assert((self.config.gen_rate as int) * (intervals as int)
                <= 0xffff_ffff_ffff_ffff * 0xffff_ffff_ffff_ffff && (self.config.gen_rate as int)
                * (intervals as int) >= 0) by (nonlinear_arith)
                requires
                    0 <= self.config.gen_rate as int <= 0xffff_ffff_ffff_ffff,
                    0 <= intervals as int <= 0xffff_ffff_ffff_ffff,
            ;
        }
        let amount128: u128 = (self.config.gen_rate as u128) * (intervals as u128);
        if amount128 > 0xffff_ffff_ffff_ffffu128 {
            return Err(Error::Validation);
        }
        let amount: u64 = amount128 as u64;
        if amount == 0 {
            self.last_gen = now;
            return Ok(true);
        }
        if users.len() as u128 > (u64::MAX as u128) - (self.ledger.next_id as u128) {
            return Err(Error::Validation);
        }
        let cur = self.config.vote_currency.clone();
        let ghost old_transfers = self.ledger.transfers@;
        let ghost curv = self.config.vote_currency@;
        let mut i: usize = 0;
        while i < users.len()
            invariant
                self.wf(),
                *self == *old(self),
                0 <= i <= users@.len(),
                cur@ == curv,
                curv == old(self).config.vote_currency@,
                self.ledger.transfers@ == old_transfers,
                gen_due(*old(self), now),
                amount >= 1,
                amount as int == old(self).config.gen_rate as int * ((now - old(
                    self,
                ).last_gen) as int / old(self).config.gen_interval as int),
                forall|j: int|
                    0 <= j < i ==> balance_in(old_transfers, users@[j], curv) + amount
                        <= u64::MAX,
            decreases users@.len() - i,
        {
            let b = self.ledger.balance(users[i], cur.as_str());
            if (b as u128) + (amount as u128) > u64::MAX as u128 {
                proof {
                    assert(balance_in(old(self).ledger.transfers@, users@[i as int], curv)
                        + amount > u64::MAX);
                }
                return Err(Error::Validation);
            }
            i = i + 1;
        }
        let ghost olen = old_transfers.len();
        let ghost old_next = self.ledger.next_id;
        let mut k: usize = 0;
        while k < users.len()
            invariant
                self.wf(),
                0 <= k <= users@.len(),
                amount >= 1,
                cur@ == curv,
                known_currency(self.ledger.item_types@, curv),
                forall|a: int, b: int| 0 <= a < b < users@.len() ==> users@[a] != users@[b],
                forall|j: int|
                    0 <= j < users@.len() ==> balance_in(old_transfers, users@[j], curv) + amount
                        <= u64::MAX,
                self.ledger.transfers@.len() == olen + k,
                self.ledger.transfers@.subrange(0, olen as int) == old_transfers,
                self.ledger.next_id as int == old_next as int + k,
                old_next as int + users@.len() <= u64::MAX as int,
                self.config == old(self).config,
                self.motions@ == old(self).motions@,
                self.votes@ == old(self).votes@,
                self.next_motion_id == old(self).next_motion_id,
                self.last_gen == old(self).last_gen,
                self.ledger.item_types@ == old(self).ledger.item_types@,
                self.ledger.aliases@ == old(self).ledger.aliases@,
                forall|j: int|
                    0 <= j < k ==> ({
                        let t = #[trigger] self.ledger.transfers@[olen + j];
                        &&& t.kind == TransferKind::Generated
                        &&& t.from_user is None
                        &&& t.to_user == Some(users@[j])
                        &&& t.quantity == amount
                        &&& t.currency@ == curv
                        &&& t.to_balance->0 as int == balance_in(old_transfers, users@[j], curv)
                            + amount
                    }),
                forall|j: int|
                    k <= j < users@.len() ==> balance_in(self.ledger.transfers@, users@[j], curv)
                        == balance_in(old_transfers, users@[j], curv),
            decreases users@.len() - k,
        {
            let ghost prev = self.ledger.transfers@;
            let u = users[k];
            let res = self.ledger.record_transfer(
                TransferKind::Generated,
                cur.as_str(),
                None,
                Some(u),
                amount,
                now,
                None,
                None,
                None,
                None,
            );
            proof {
                assert(res is Ok);
                let ns = self.ledger.transfers@;
                assert(ns.drop_last() == prev);
                assert(ns.subrange(0, olen as int) =~= prev.subrange(0, olen as int));
                assert forall|j: int|
                    0 <= j < k + 1 implies ({
                        let t = #[trigger] self.ledger.transfers@[olen + j];
                        &&& t.kind == TransferKind::Generated
                        &&& t.from_user is None
                        &&& t.to_user == Some(users@[j])
                        &&& t.quantity == amount
                        &&& t.currency@ == curv
                        &&& t.to_balance->0 as int == balance_in(old_transfers, users@[j], curv)
                            + amount
                    }) by {
                    if j < k {
                        assert(self.ledger.transfers@[olen + j] == prev[olen + j]);
                    } else {
                        assert(self.ledger.transfers@[olen + j] == ns.last());
                    }
                }
                assert forall|j: int|
                    k + 1 <= j < users@.len() implies balance_in(
                        self.ledger.transfers@,
                        users@[j],
                        curv,
                    ) == balance_in(old_transfers, users@[j], curv) by {
                    assert(crate::ledger::delta_of(ns.last(), users@[j], curv) == 0);
                    assert(balance_in(ns, users@[j], curv) == balance_in(prev, users@[j], curv));
                }
            }
            k = k + 1;
        }
        self.last_gen = now;
        Ok(true)
    }
}

/// There is never more than one vote row for a (user, motion) pair: casting
/// again replaces the pair's single row, it never adds a second one.
pub proof fn lemma_one_vote_row_per_pair(e: Engine, i: int, j: int)
    requires
        e.wf(),
        0 <= i < e.votes@.len(),
        0 <= j < e.votes@.len(),
        e.votes@[i].user == e.votes@[j].user,
        e.votes@[i].motion == e.votes@[j].motion,
    ensures
        i == j,
{
}

/// Right after a generation cycle has run at time `now`, another cycle at
/// the same time is not due: redundant callers cannot double-mint an
/// interval.
pub proof fn lemma_generation_idempotent(e: Engine, now: u64)
    requires
        config_wf(e.config),
        e.last_gen == now,
    ensures
        !gen_due(e, now),
{
}

/// A lookup that finds nothing means no row holds the key.
proof fn lemma_vote_of_none_absent(s: Seq<MotionVote>, u: u64, m: u64)
    requires
        vote_of(s, u, m) is None,
    ensures
        forall|j: int| 0 <= j < s.len() ==> !((#[trigger] s[j]).user == u && s[j].motion == m),
    decreases s.len(),
{
    if s.len() > 0 {
        lemma_vote_of_none_absent(s.drop_last(), u, m);
        assert forall|j: int|
            0 <= j < s.len() implies !((#[trigger] s[j]).user == u && s[j].motion == m) by {
            if j < s.len() - 1 {
                assert(s.drop_last()[j] == s[j]);
            }
        }
    }
}

/// Replacing one motion in place, keeping its id, changes exactly that id's
/// lookup.
proof fn lemma_motion_of_update(s: Seq<Motion>, i: int, m: Motion, id: u64)
    requires
        forall|a: int, b: int|
            #![trigger s[a].id, s[b].id]
            0 <= a < b < s.len() ==> s[a].id != s[b].id,
        0 <= i < s.len(),
        m.id == s[i].id,
    ensures
        motion_of(s.update(i, m), id) == (if s[i].id == id {
            Some(m)
        } else {
            motion_of(s, id)
        }),
    decreases s.len(),
{
    let ns = s.update(i, m);
    if i == s.len() - 1 {
        assert(ns.drop_last() =~= s.drop_last());
        assert(ns.last() == m);
    } else {
        assert(ns.drop_last() =~= s.drop_last().update(i, m));
        assert(ns.last() == s.last());
        lemma_motion_of_update(s.drop_last(), i, m, id);
        if s.last().id == id {
            assert(s[i].id != id);
        }
    }
}

/// A successful motion lookup is witnessed by a position holding that id.
proof fn lemma_motion_of_some_exists(s: Seq<Motion>, id: u64)
    requires
        motion_of(s, id) is Some,
    ensures
        exists|i: int| 0 <= i < s.len() && (#[trigger] s[i].id) == id,
    decreases s.len(),
{
    if s.last().id == id {
        assert(s[s.len() - 1].id == id);
    } else {
        lemma_motion_of_some_exists(s.drop_last(), id);
        let i = choose|i: int| 0 <= i < s.drop_last().len() && (#[trigger] s.drop_last()[i].id)
            == id;
        assert(s[i].id == id);
    }
}

/// Appending a motion with a different id leaves a lookup unchanged.
proof fn lemma_motion_of_push_other(s: Seq<Motion>, m: Motion, id: u64)
    requires
        m.id != id,
    ensures
        motion_of(s.push(m), id) == motion_of(s, id),
{
    assert(s.push(m).drop_last() =~= s);
    assert(s.push(m).last() == m);
}

/// With unique motion ids, any position holding the id is the lookup result.
proof fn lemma_motion_of_found(s: Seq<Motion>, i: int, id: u64)
    requires
        forall|a: int, b: int|
            #![trigger s[a].id, s[b].id]
            0 <= a < b < s.len() ==> s[a].id != s[b].id,
        0 <= i < s.len(),
        s[i].id == id,
    ensures
        motion_of(s, id) == Some(s[i]),
    decreases s.len(),
{
    if s.last().id == id {
        assert(i == s.len() - 1);
    } else {
        let s0 = s.drop_last();
        assert(i < s0.len());
        lemma_motion_of_found(s0, i, id);
    }
}

/// When no position holds the id, lookup finds nothing.
proof fn lemma_motion_of_absent(s: Seq<Motion>, id: u64)
    requires
        forall|j: int| 0 <= j < s.len() ==> (#[trigger] s[j].id) != id,
    ensures
        motion_of(s, id) is None,
    decreases s.len(),
{
    if s.len() > 0 {
        lemma_motion_of_absent(s.drop_last(), id);
    }
}

/// With unique keys, any position holding the key is the lookup result.
proof fn lemma_vote_of_found(s: Seq<MotionVote>, i: int, u: u64, m: u64)
    requires
        forall|a: int, b: int|
            #![trigger s[a], s[b]]
            0 <= a < b < s.len() ==> !(s[a].user == s[b].user && s[a].motion == s[b].motion),
        0 <= i < s.len(),
        s[i].user == u,
        s[i].motion == m,
    ensures
        vote_of(s, u, m) == Some(s[i]),
    decreases s.len(),
{
    if s.last().user == u && s.last().motion == m {
        assert(i == s.len() - 1);
    } else {
        let s0 = s.drop_last();
        assert(i < s0.len());
        lemma_vote_of_found(s0, i, u, m);
    }
}

/// When no position holds the key, lookup finds nothing.
proof fn lemma_vote_of_absent(s: Seq<MotionVote>, u: u64, m: u64)
    requires
        forall|j: int|
            0 <= j < s.len() ==> !((#[trigger] s[j]).user == u && s[j].motion == m),
    ensures
        vote_of(s, u, m) is None,
    decreases s.len(),
{
    if s.len() > 0 {
        lemma_vote_of_absent(s.drop_last(), u, m);
    }
}

/// Tallies are non-negative.
proof fn lemma_vote_sum_nonneg(s: Seq<MotionVote>, m: u64, dir: bool)
    ensures
        vote_sum(s, m, dir) >= 0,
    decreases s.len(),
{
    if s.len() > 0 {
        lemma_vote_sum_nonneg(s.drop_last(), m, dir);
    }
}

/// A prefix tally never exceeds the whole tally.
proof fn lemma_vote_sum_prefix(s: Seq<MotionVote>, m: u64, dir: bool, i: int)
    requires
        0 <= i <= s.len(),
    ensures
        0 <= vote_sum(s.take(i), m, dir) <= vote_sum(s, m, dir),
    decreases s.len(),
{
    lemma_vote_sum_nonneg(s.take(i), m, dir);
    if i == s.len() {
        assert(s.take(i) =~= s);
        lemma_vote_sum_nonneg(s, m, dir);
    } else {
        let s0 = s.drop_last();
        assert(s.take(i) =~= s0.take(i));
        lemma_vote_sum_prefix(s0, m, dir, i);
    }
}

/// Replacing one vote row moves the tally by the difference of the row
/// contributions.
proof fn lemma_vote_sum_update(s: Seq<MotionVote>, i: int, v: MotionVote, m: u64, dir: bool)
    requires
        0 <= i < s.len(),
    ensures
        vote_sum(s.update(i, v), m, dir) == vote_sum(s, m, dir) - vote_amt(s[i], m, dir)
            + vote_amt(v, m, dir),
    decreases s.len(),
{
    let ns = s.update(i, v);
    if i == s.len() - 1 {
        assert(ns.drop_last() =~= s.drop_last());
        assert(ns.last() == v);
    } else {
        assert(ns.drop_last() =~= s.drop_last().update(i, v));
        assert(ns.last() == s.last());
        lemma_vote_sum_update(s.drop_last(), i, v, m, dir);
    }
}

/// Replacing one vote row in place changes exactly that key's lookup.
proof fn lemma_vote_of_update(s: Seq<MotionVote>, i: int, v: MotionVote, u: u64, m: u64)
    requires
        forall|a: int, b: int|
            #![trigger s[a], s[b]]
            0 <= a < b < s.len() ==> !(s[a].user == s[b].user && s[a].motion == s[b].motion),
        0 <= i < s.len(),
        v.user == s[i].user,
        v.motion == s[i].motion,
    ensures
        vote_of(s.update(i, v), u, m) == (if s[i].user == u && s[i].motion == m {
            Some(v)
        } else {
            vote_of(s, u, m)
        }),
    decreases s.len(),
{
    let ns = s.update(i, v);
    if i == s.len() - 1 {
        assert(ns.drop_last() =~= s.drop_last());
        assert(ns.last() == v);
    } else {
        assert(ns.drop_last() =~= s.drop_last().update(i, v));
        assert(ns.last() == s.last());
        lemma_vote_of_update(s.drop_last(), i, v, u, m);
        if s.last().user == u && s.last().motion == m {
            assert(!(s[i].user == u && s[i].motion == m));
        }
    }
}

/// A tally over rows that never mention the motion is zero.
proof fn lemma_vote_sum_absent(s: Seq<MotionVote>, m: u64, dir: bool)
    requires
        forall|j: int| 0 <= j < s.len() ==> (#[trigger] s[j]).motion != m,
    ensures
        vote_sum(s, m, dir) == 0,
    decreases s.len(),
{
    if s.len() > 0 {
        lemma_vote_sum_absent(s.drop_last(), m, dir);
    }
}

/// Exact tally sums for one motion.
fn tally_sums(votes: &Vec<MotionVote>, m: u64) -> (r: (u64, u64))
    requires
        vote_sum(votes@, m, true) + vote_sum(votes@, m, false) <= u64::MAX,
    ensures
        r.0 as int == vote_sum(votes@, m, true),
        r.1 as int == vote_sum(votes@, m, false),
{
    let ghost s = votes@;
    let mut yes: u64 = 0;
    let mut no: u64 = 0;
    let mut i: usize = 0;
    proof {
        lemma_vote_sum_nonneg(s, m, true);
        lemma_vote_sum_nonneg(s, m, false);
    }
    while i < votes.len()
        invariant
            votes@ == s,
            0 <= i <= s.len(),
            vote_sum(s, m, true) + vote_sum(s, m, false) <= u64::MAX,
            vote_sum(s, m, true) >= 0,
            vote_sum(s, m, false) >= 0,
            yes as int == vote_sum(s.take(i as int), m, true),
            no as int == vote_sum(s.take(i as int), m, false),
        decreases s.len() - i,
    {
        proof {
            assert(s.take(i + 1).drop_last() =~= s.take(i as int));
            assert(s.take(i + 1).last() == s[i as int]);
            lemma_vote_sum_prefix(s, m, true, i + 1);
            lemma_vote_sum_prefix(s, m, false, i + 1);
        }
        let v = &votes[i];
        if v.motion == m {
            if v.direction {
                yes = yes + v.amount;
            } else {
                no = no + v.amount;
            }
        }
        i = i + 1;
    }
    proof {
        assert(s.take(s.len() as int) =~= s);
    }
    (yes, no)
}

/// Exact winning test over machine integers.
fn winning_exec(yes: u64, no: u64, is_super: bool, num: u64, den: u64) -> (r: bool)
    ensures
        r == is_winning(yes as int, no as int, is_super, num, den),
{
    if is_super {
        proof {
            assert((yes as int) * (den as int) <= 0xffff_ffff_ffff_ffff * 0xffff_ffff_ffff_ffff
                && (no as int) * (num as int) <= 0xffff_ffff_ffff_ffff * 0xffff_ffff_ffff_ffff
                && (yes as int) * (den as int) >= 0 && (no as int) * (num as int) >= 0)
                by (nonlinear_arith)
                requires
                    0 <= yes as int <= 0xffff_ffff_ffff_ffff,
                    0 <= den as int <= 0xffff_ffff_ffff_ffff,
                    0 <= no as int <= 0xffff_ffff_ffff_ffff,
                    0 <= num as int <= 0xffff_ffff_ffff_ffff,
            ;
        }
        let lhs: u128 = (yes as u128) * (den as u128);
        let rhs: u128 = (no as u128) * (num as u128);
        lhs > rhs
    } else {
        yes > no
    }
}

} // verus!
