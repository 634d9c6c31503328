//! Append-only transfer ledger with derived balances.
//!
//! Every transfer carries a post-transfer balance snapshot for its source and
//! destination, and the ledger's invariant ties each snapshot to the running
//! sum of signed quantities for that (user, currency) pair, in commit order.
//! Balances therefore never go negative, and the snapshot chain is the single
//! source of truth for balance history.

use vstd::prelude::*;
use crate::errors::Error;
use crate::text::str_eq;

verus! {

/// Closed set of business meanings a transfer can have; the ledger enforces
/// which of them may mint (no source) and which move existing currency.
#[derive(Clone, Copy, Debug, PartialEq, Eq, Structural)]
pub enum TransferKind {
    /// A user gives currency to another user.
    Give,
    /// An administrator moves currency between users.
    AdminGive,
    /// An administrator conjures currency from nothing.
    AdminFabricate,
    /// A chat command conjures currency from nothing.
    CommandFabricate,
    /// The stake charged for creating a motion.
    MotionCreate,
    /// The net currency movement of casting or changing a vote.
    MotionVote,
    /// Scheduled passive income.
    Generated,
}

/// Minting kinds create currency and therefore never have a source user.
pub open spec fn is_minting(k: TransferKind) -> bool {
    k == TransferKind::AdminFabricate || k == TransferKind::CommandFabricate
        || k == TransferKind::Generated
}

/// Executable test for a minting kind.
pub fn kind_is_minting(k: TransferKind) -> (r: bool)
    ensures
        r == is_minting(k),
{
    match k {
        TransferKind::AdminFabricate => true,
        TransferKind::CommandFabricate => true,
        TransferKind::Generated => true,
        _ => false,
    }
}

/// A currency: unique name plus display names used only for rendering and
/// input disambiguation.
#[derive(Debug)]
pub struct ItemType {
    pub name: String,
    pub long_name_plural: String,
    pub long_name_ambiguous: String,
}

/// Maps an alternate spelling to a canonical currency name; used only for
/// input parsing.
#[derive(Debug)]
pub struct Alias {
    pub alias: String,
    pub name: String,
}

/// An immutable, monotonically-identified ledger entry.
#[derive(Debug)]
pub struct Transfer {
    pub id: u64,
    pub kind: TransferKind,
    pub currency: String,
    pub from_user: Option<u64>,
    pub to_user: Option<u64>,
    pub quantity: u64,
    pub from_balance: Option<u64>,
    pub to_balance: Option<u64>,
    pub happened_at: u64,
    pub message_id: Option<u64>,
    pub to_motion: Option<u64>,
    pub to_votes: Option<u64>,
    pub comment: Option<String>,
}

/// The append-only transfer log plus the currency registry.
pub struct Ledger {
    pub item_types: Vec<ItemType>,
    pub aliases: Vec<Alias>,
    pub transfers: Vec<Transfer>,
    pub next_id: u64,
}

/// The signed effect of one transfer on the balance of `u` in currency `c`.
pub open spec fn delta_of(t: Transfer, u: u64, c: Seq<char>) -> int {
    (if t.to_user == Some(u) && t.currency@ == c {
        t.quantity as int
    } else {
        0
    }) - (if t.from_user == Some(u) && t.currency@ == c {
        t.quantity as int
    } else {
        0
    })
}

/// The balance of `u` in currency `c` after the whole sequence of transfers:
/// the running sum of signed quantities, starting from zero, in commit order.
pub open spec fn balance_in(s: Seq<Transfer>, u: u64, c: Seq<char>) -> int
    decreases s.len(),
{
    if s.len() == 0 {
        0
    } else {
        balance_in(s.drop_last(), u, c) + delta_of(s.last(), u, c)
    }
}

/// Row invariant: positive quantity, at least one side present, no transfer
/// to oneself, minting kinds have no source, and a snapshot exists exactly
/// for each present side.
pub open spec fn transfer_wf(t: Transfer) -> bool {
    &&& t.quantity >= 1
    &&& (t.from_user is Some || t.to_user is Some)
    &&& !(t.from_user is Some && t.from_user == t.to_user)
    &&& (is_minting(t.kind) ==> t.from_user is None)
    &&& (t.from_balance is Some <==> t.from_user is Some)
    &&& (t.to_balance is Some <==> t.to_user is Some)
}

/// Chain consistency at position `i`: each recorded snapshot equals the
/// running balance through that transfer.
pub open spec fn chain_ok_at(s: Seq<Transfer>, i: int) -> bool
    recommends
        0 <= i < s.len(),
{
    &&& (s[i].from_user is Some ==> s[i].from_balance->0 as int == balance_in(
        s.take(i + 1),
        s[i].from_user->0,
        s[i].currency@,
    ))
    &&& (s[i].to_user is Some ==> s[i].to_balance->0 as int == balance_in(
        s.take(i + 1),
        s[i].to_user->0,
        s[i].currency@,
    ))
}

/// Chain consistency for the whole log.
pub open spec fn chain_ok(s: Seq<Transfer>) -> bool {
    forall|i: int| 0 <= i < s.len() ==> #[trigger] chain_ok_at(s, i)
}

/// A currency name is registered.
pub open spec fn known_currency(items: Seq<ItemType>, c: Seq<char>) -> bool {
    exists|i: int| 0 <= i < items.len() && #[trigger] items[i].name@ == c
}

/// First-match lookup of an alternate currency spelling.
pub open spec fn alias_lookup(aliases: Seq<Alias>, c: Seq<char>) -> Option<Seq<char>>
    decreases aliases.len(),
{
    if aliases.len() == 0 {
        None
    } else if aliases[0].alias@ == c {
        Some(aliases[0].name@)
    } else {
        alias_lookup(aliases.drop_first(), c)
    }
}

impl Ledger {
    /// Ledger invariant: well-formed rows, snapshot chain consistency,
    /// strictly increasing ids below the id counter, and timestamps that
    /// never run backwards along commit order.
    pub open spec fn wf(self) -> bool {
        &&& forall|i: int|
            0 <= i < self.transfers@.len() ==> transfer_wf(#[trigger] self.transfers@[i])
        &&& chain_ok(self.transfers@)
        &&& forall|i: int, j: int|
            #![trigger self.transfers@[i].id, self.transfers@[j].id]
            0 <= i < j < self.transfers@.len() ==> self.transfers@[i].id < self.transfers@[j].id
        &&& forall|i: int|
            0 <= i < self.transfers@.len() ==> #[trigger] self.transfers@[i].id < self.next_id
        &&& forall|i: int, j: int|
            #![trigger self.transfers@[i].happened_at, self.transfers@[j].happened_at]
            0 <= i < j < self.transfers@.len() ==> self.transfers@[i].happened_at
                <= self.transfers@[j].happened_at
    }

    /// A fresh ledger over the given currency registry.
    pub fn new(item_types: Vec<ItemType>, aliases: Vec<Alias>) -> (r: Ledger)
        ensures
            r.wf(),
            r.transfers@.len() == 0,
            r.next_id == 1,
            r.item_types@ == item_types@,
            r.aliases@ == aliases@,
    {
        Ledger { item_types, aliases, transfers: Vec::new(), next_id: 1 }
    }

    /// Whether a currency name is registered.
    pub fn has_item_type(&self, c: &str) -> (r: bool)
        ensures
            r == known_currency(self.item_types@, c@),
    {
        let mut i: usize = 0;
        while i < self.item_types.len()
            invariant
                0 <= i <= self.item_types@.len(),
                forall|j: int| 0 <= j < i ==> !(#[trigger] self.item_types@[j].name@ == c@),
            decreases self.item_types@.len() - i,
        {
            if str_eq(self.item_types[i].name.as_str(), c) {
                return true;
            }
            i = i + 1;
        }
        false
    }

    /// Resolves a user-entered currency name: a registered name stands for
    /// itself; otherwise the first matching alias supplies the canonical
    /// name; anything else is unknown.
    pub fn resolve_currency(&self, c: &str) -> (r: Option<String>)
        ensures
            match r {
                Some(name) => {
                    if known_currency(self.item_types@, c@) {
                        name@ == c@
                    } else {
                        alias_lookup(self.aliases@, c@) == Some(name@)
                    }
                },
                None => {
                    &&& !known_currency(self.item_types@, c@)
                    &&& alias_lookup(self.aliases@, c@) is None
                },
            },
    {
        if self.has_item_type(c) {
            return Some(c.to_owned());
        }
        proof {
            assert(self.aliases@.skip(0) =~= self.aliases@);
        }
        let mut i: usize = 0;
        while i < self.aliases.len()
            invariant
                0 <= i <= self.aliases@.len(),
                !known_currency(self.item_types@, c@),
                alias_lookup(self.aliases@, c@) == alias_lookup(self.aliases@.skip(i as int), c@),
            decreases self.aliases@.len() - i,
        {
            let ghost pre = self.aliases@.skip(i as int);
            if str_eq(self.aliases[i].alias.as_str(), c) {
                let name = self.aliases[i].name.clone();
                proof {
                    assert(pre[0] == self.aliases@[i as int]);
                    assert(alias_lookup(pre, c@) == Some(pre[0].name@));
                    assert(name@ == self.aliases@[i as int].name@);
                }
                return Some(name);
            }
            proof {
                assert(pre[0] == self.aliases@[i as int]);
                assert(pre.drop_first() =~= self.aliases@.skip(i + 1));
            }
            i = i + 1;
        }
        proof {
            assert(self.aliases@.skip(self.aliases@.len() as int) =~= Seq::<Alias>::empty());
        }
        None
    }

    /// Current balance of `user` in `currency`: the running sum over the
    /// whole log (equivalently, the latest snapshot, or zero with no
    /// history).
    pub fn balance(&self, user: u64, currency: &str) -> (r: u64)
        requires
            self.wf(),
        ensures
            r as int == balance_in(self.transfers@, user, currency@),
    {
        proof {
            lemma_balance_bounds(self.transfers@, user, currency@);
        }
        let ghost s = self.transfers@;
        let mut acc: u64 = 0;
        let mut i: usize = 0;
        while i < self.transfers.len()
            invariant
                self.transfers@ == s,
                0 <= i <= s.len(),
                forall|k: int| 0 <= k <= s.len() ==> 0 <= #[trigger] balance_in(s.take(k), user, currency@) <= u64::MAX,
                acc as int == balance_in(s.take(i as int), user, currency@),
            decreases s.len() - i,
        {
            let t = &self.transfers[i];
            proof {
                assert(s.take(i + 1).drop_last() =~= s.take(i as int));
                assert(s.take(i + 1).last() == s[i as int]);
                assert(0 <= balance_in(s.take(i + 1), user, currency@) <= u64::MAX);
            }
            let incoming = match t.to_user {
                Some(u) => u == user && str_eq(t.currency.as_str(), currency),
                None => false,
            };
            let outgoing = match t.from_user {
                Some(u) => u == user && str_eq(t.currency.as_str(), currency),
                None => false,
            };
            if incoming && !outgoing {
                acc = acc + t.quantity;
            } else if outgoing && !incoming {
                acc = acc - t.quantity;
            }
            i = i + 1;
        }
        proof {
            assert(s.take(s.len() as int) =~= s);
        }
        acc
    }

    /// Records one transfer as a single atomic unit: validates the request,
    /// reads both balances, rejects a source-side shortfall, assigns the next
    /// monotonic id, and appends the row with both snapshots.
    ///
    /// Outcomes, in decision order: `Validation` for a malformed request
    /// (zero quantity, unknown currency, no side present, source equals
    /// destination, a minting kind with a source); `InsufficientBalance`
    /// when the source balance cannot cover the quantity;
    /// `Validation` again when the destination balance or the id counter
    /// would exceed machine limits. On success the appended row is pinned
    /// field by field.
    pub fn record_transfer(
        &mut self,
        kind: TransferKind,
        currency: &str,
        from: Option<u64>,
        to: Option<u64>,
        quantity: u64,
        now: u64,
        message_id: Option<u64>,
        to_motion: Option<u64>,
        to_votes: Option<u64>,
        comment: Option<String>,
    ) -> (r: Result<u64, Error>)
        requires
            old(self).wf(),
        ensures
            final(self).wf(),
            final(self).item_types@ == old(self).item_types@,
            final(self).aliases@ == old(self).aliases@,
            ({
                let s = old(self).transfers@;
                let bv = basic_valid(old(self).item_types@, kind, currency@, from, to, quantity);
                let insuff = from is Some && balance_in(s, from->0, currency@) < quantity;
                let over = to is Some && balance_in(s, to->0, currency@) + quantity > u64::MAX;
                let exhausted = old(self).next_id == u64::MAX;
                &&& (r == Err::<u64, Error>(Error::Validation) <==> (!bv || (bv && !insuff && (
                    over || exhausted))))
                &&& (r == Err::<u64, Error>(Error::InsufficientBalance) <==> (bv && insuff))
                &&& (r is Ok <==> (bv && !insuff && !over && !exhausted))
            }),
            r is Err ==> *final(self) == *old(self),
            r is Ok ==> ({
                let s = old(self).transfers@;
                let t = final(self).transfers@.last();
                &&& final(self).transfers@.drop_last() == s
                &&& final(self).transfers@.len() == s.len() + 1
                &&& final(self).next_id == old(self).next_id + 1
                &&& r->Ok_0 == old(self).next_id
                &&& t.id == old(self).next_id
                &&& t.kind == kind
                &&& t.currency@ == currency@
                &&& t.from_user == from
                &&& t.to_user == to
                &&& t.quantity == quantity
                &&& t.message_id == message_id
                &&& t.to_motion == to_motion
                &&& t.to_votes == to_votes
                &&& t.comment == comment
                &&& (from is Some ==> t.from_balance->0 as int == balance_in(s, from->0, currency@)
                    - quantity)
                &&& (to is Some ==> t.to_balance->0 as int == balance_in(s, to->0, currency@)
                    + quantity)
                &&& t.happened_at == (if s.len() > 0 && s.last().happened_at > now {
                    s.last().happened_at
                } else {
                    now
                })
            }),
    {
        if quantity < 1 {
            return Err(Error::Validation);
        }
        if !self.has_item_type(currency) {
            return Err(Error::Validation);
        }
        match (from, to) {
            (None, None) => {
                return Err(Error::Validation);
            },
            (Some(f), Some(t)) => {
                if f == t {
                    return Err(Error::Validation);
                }
            },
            _ => {},
        }
        if kind_is_minting(kind) && from.is_some() {
            return Err(Error::Validation);
        }
        let from_bal: Option<u64> = match from {
            Some(u) => {
                let b = self.balance(u, currency);
                if b < quantity {
                    return Err(Error::InsufficientBalance);
                }
                Some(b)
            },
            None => None,
        };
        let to_bal: Option<u64> = match to {
            Some(u) => {
                let b = self.balance(u, currency);
                if b > u64::MAX - quantity {
                    return Err(Error::Validation);
                }
                Some(b)
            },
            None => None,
        };
        if self.next_id == u64::MAX {
            return Err(Error::Validation);
        }
        let n = self.transfers.len();
        let ts: u64 = if n > 0 {
            let lt = self.transfers[n - 1].happened_at;
            if lt > now {
                lt
            } else {
                now
            }
        } else {
            now
        };
        let id = self.next_id;
        let t = Transfer {
            id,
            kind,
            currency: currency.to_owned(),
            from_user: from,
            to_user: to,
            quantity,
            from_balance: match from_bal {
                Some(b) => Some(b - quantity),
                None => None,
            },
            to_balance: match to_bal {
                Some(b) => Some(b + quantity),
                None => None,
            },
            happened_at: ts,
            message_id,
            to_motion,
            to_votes,
            comment,
        };
        let ghost s = self.transfers@;
        self.transfers.push(t);
        self.next_id = id + 1;
        proof {
            let ns = self.transfers@;
            assert(ns.drop_last() =~= s);
            assert(ns.last() == t);
            assert forall|i: int| 0 <= i < ns.len() implies chain_ok_at(ns, i) by {
                if i < s.len() {
                    assert(chain_ok_at(s, i));
                    assert(ns.take(i + 1) =~= s.take(i + 1));
                    assert(ns[i] == s[i]);
                } else {
                    assert(ns.take(i + 1) =~= ns);
                    assert(balance_in(ns, t.from_user->0, t.currency@) == balance_in(
                        s,
                        t.from_user->0,
                        t.currency@,
                    ) + delta_of(t, t.from_user->0, t.currency@));
                    assert(balance_in(ns, t.to_user->0, t.currency@) == balance_in(
                        s,
                        t.to_user->0,
                        t.currency@,
                    ) + delta_of(t, t.to_user->0, t.currency@));
                }
            }
            assert forall|i: int, j: int|
                0 <= i < j < ns.len() implies ns[i].happened_at <= ns[j].happened_at by {
                if j < s.len() {
                } else {
                    if s.len() > 0 {
                        assert(s[s.len() - 1].happened_at <= ts);
                    }
                }
            }
        }
        Ok(id)
    }
}

/// Under the row and chain invariants, every running balance lies between
/// zero and the largest snapshot value the row type can hold.
pub proof fn lemma_balance_bounds(s: Seq<Transfer>, u: u64, c: Seq<char>)
    requires
        forall|i: int| 0 <= i < s.len() ==> transfer_wf(#[trigger] s[i]),
        chain_ok(s),
    ensures
        forall|i: int| 0 <= i <= s.len() ==> 0 <= #[trigger] balance_in(s.take(i), u, c)
            <= u64::MAX,
    decreases s.len(),
{
    if s.len() == 0 {
        assert forall|i: int| 0 <= i <= s.len() implies 0 <= #[trigger] balance_in(s.take(i), u, c)
            <= u64::MAX by {
            assert(s.take(i) =~= Seq::<Transfer>::empty());
        }
    } else {
        let s0 = s.drop_last();
        assert forall|i: int| 0 <= i < s0.len() implies transfer_wf(#[trigger] s0[i]) by {
            assert(s0[i] == s[i]);
        }
        assert forall|i: int| 0 <= i < s0.len() implies #[trigger] chain_ok_at(s0, i) by {
            assert(chain_ok_at(s, i));
            assert(s0.take(i + 1) =~= s.take(i + 1));
            assert(s0[i] == s[i]);
        }
        lemma_balance_bounds(s0, u, c);
        assert forall|i: int| 0 <= i <= s.len() implies 0 <= #[trigger] balance_in(s.take(i), u, c)
            <= u64::MAX by {
            if i < s.len() {
                assert(s.take(i) =~= s0.take(i));
                assert(0 <= balance_in(s0.take(i), u, c) <= u64::MAX);
            } else {
                assert(s.take(i) =~= s);
                let t = s.last();
                assert(transfer_wf(t));
                assert(chain_ok_at(s, s.len() - 1));
                assert(s.take(s.len() as int) =~= s);
                assert(balance_in(s, u, c) == balance_in(s0, u, c) + delta_of(t, u, c));
                assert(0 <= balance_in(s0.take(s0.len() as int), u, c) <= u64::MAX);
                assert(s0.take(s0.len() as int) =~= s0);
                if delta_of(t, u, c) != 0 {
                    if t.from_user == Some(u) && t.currency@ == c {
                        assert(balance_in(s, u, c) == t.from_balance->0 as int);
                    } else {
                        assert(t.to_user == Some(u) && t.currency@ == c);
                        assert(balance_in(s, u, c) == t.to_balance->0 as int);
                    }
                }
            }
        }
    }
}

/// Validation shape of a transfer request, before balances are consulted.
pub open spec fn basic_valid(
    items: Seq<ItemType>,
    kind: TransferKind,
    currency: Seq<char>,
    from: Option<u64>,
    to: Option<u64>,
    quantity: u64,
) -> bool {
    &&& quantity >= 1
    &&& known_currency(items, currency)
    &&& (from is Some || to is Some)
    &&& !(from is Some && from == to)
    &&& (is_minting(kind) ==> from is None)
}

/// Every recorded snapshot equals the running sum of signed quantities for
/// its (user, currency) pair, starting from zero, in commit order.
pub proof fn lemma_snapshots_follow_running_balance(l: Ledger, i: int)
    requires
        l.wf(),
        0 <= i < l.transfers@.len(),
    ensures
        l.transfers@[i].from_user is Some ==> l.transfers@[i].from_balance->0 as int == balance_in(
            l.transfers@.take(i + 1),
            l.transfers@[i].from_user->0,
            l.transfers@[i].currency@,
        ),
        l.transfers@[i].to_user is Some ==> l.transfers@[i].to_balance->0 as int == balance_in(
            l.transfers@.take(i + 1),
            l.transfers@[i].to_user->0,
            l.transfers@[i].currency@,
        ),
{
    assert(chain_ok_at(l.transfers@, i));
}

/// No accepted transfer ever drives a balance negative: the running balance
/// of every (user, currency) pair is non-negative after every prefix of the
/// log.
pub proof fn lemma_balance_never_negative(l: Ledger, u: u64, c: Seq<char>, i: int)
    requires
        l.wf(),
        0 <= i <= l.transfers@.len(),
    ensures
        balance_in(l.transfers@.take(i), u, c) >= 0,
{
    lemma_balance_bounds(l.transfers@, u, c);
}

} // verus!
