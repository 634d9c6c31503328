//! Balance-history queries: paginated per-user statements, newest first,
//! and the collapsed view that rolls consecutive generation transfers
//! between two ordinary transfers into one synthetic summary line.
//!
//! These are query-time projections over the transfer log; no separate state
//! is stored.

use vstd::prelude::*;
use crate::ledger::{Ledger, Transfer, TransferKind, transfer_wf};

verus! {

/// One statement line for a user: the user's side of a transfer touching
/// them.
#[derive(Debug, PartialEq, Eq)]
pub struct HistoryEntry {
    pub transfer_id: u64,
    /// The user's balance right after this transfer.
    pub balance: u64,
    pub quantity: u64,
    /// True when the user was the source (currency left the user).
    pub outgoing: bool,
    pub happened_at: u64,
    pub currency: String,
    pub comment: Option<String>,
    pub other_party: Option<u64>,
    pub to_motion: Option<u64>,
    pub to_votes: Option<u64>,
    pub message_id: Option<u64>,
    pub kind: TransferKind,
}

/// A line of the collapsed statement: either one ordinary entry, or one
/// rolled-up run of consecutive generation entries (amount is their sum,
/// balance the last snapshot of the run).
#[derive(Debug, PartialEq, Eq)]
pub enum StatementLine {
    Generated { amount: u128, balance: u64 },
    Entry(HistoryEntry),
}

/// Whether a transfer touches a user at all.
pub open spec fn touches(t: Transfer, u: u64) -> bool {
    t.from_user == Some(u) || t.to_user == Some(u)
}

/// The user's view of one transfer.
pub open spec fn entry_of(t: Transfer, u: u64) -> HistoryEntry {
    let outgoing = t.from_user == Some(u);
    HistoryEntry {
        transfer_id: t.id,
        balance: if outgoing {
            t.from_balance->0
        } else {
            t.to_balance->0
        },
        quantity: t.quantity,
        outgoing,
        happened_at: t.happened_at,
        currency: t.currency,
        comment: t.comment,
        other_party: if outgoing {
            t.to_user
        } else {
            t.from_user
        },
        to_motion: t.to_motion,
        to_votes: t.to_votes,
        message_id: t.message_id,
        kind: t.kind,
    }
}

/// Whether a transfer belongs to a statement page: it touches the user,
/// matches the optional currency filter, happened before `before`, strictly
/// after `after`, and agrees with the generated/ordinary selection.
pub open spec fn entry_matches(
    t: Transfer,
    u: u64,
    cf: Option<Seq<char>>,
    before: Option<u64>,
    after: Option<u64>,
    gen: Option<bool>,
) -> bool {
    &&& touches(t, u)
    &&& (match cf {
        Some(c) => t.currency@ == c,
        None => true,
    })
    &&& (match before {
        Some(b) => t.happened_at < b,
        None => true,
    })
    &&& (match after {
        Some(a) => t.happened_at > a,
        None => true,
    })
    &&& (match gen {
        Some(g) => (t.kind == TransferKind::Generated) == g,
        None => true,
    })
}

/// The matching statement entries, newest first.
pub open spec fn entries_newest_first(
    s: Seq<Transfer>,
    u: u64,
    cf: Option<Seq<char>>,
    before: Option<u64>,
    after: Option<u64>,
    gen: Option<bool>,
) -> Seq<HistoryEntry>
    decreases s.len(),
{
    if s.len() == 0 {
        Seq::empty()
    } else {
        (if entry_matches(s.last(), u, cf, before, after, gen) {
            seq![entry_of(s.last(), u)]
        } else {
            Seq::empty()
        }) + entries_newest_first(s.drop_last(), u, cf, before, after, gen)
    }
}

/// The entries of a log split at a position are the entries of the newer
/// part followed by the entries of the older part.
proof fn lemma_entries_split(
    s: Seq<Transfer>,
    i: int,
    u: u64,
    cf: Option<Seq<char>>,
    before: Option<u64>,
    after: Option<u64>,
    gen: Option<bool>,
)
    requires
        0 <= i <= s.len(),
    ensures
        entries_newest_first(s, u, cf, before, after, gen) == entries_newest_first(
            s.subrange(i, s.len() as int),
            u,
            cf,
            before,
            after,
            gen,
        ) + entries_newest_first(s.take(i), u, cf, before, after, gen),
    decreases s.len() - i,
{
    if i == s.len() {
        assert(s.subrange(i, s.len() as int) =~= Seq::<Transfer>::empty());
        assert(s.take(i) =~= s);
        assert(entries_newest_first(s, u, cf, before, after, gen) =~= entries_newest_first(
            Seq::<Transfer>::empty(),
            u,
            cf,
            before,
            after,
            gen,
        ) + entries_newest_first(s, u, cf, before, after, gen));
    } else {
        let s0 = s.drop_last();
        lemma_entries_split(s0, i, u, cf, before, after, gen);
        assert(s0.take(i) =~= s.take(i));
        assert(s0.subrange(i, s0.len() as int) =~= s.subrange(i, s.len() as int).drop_last());
        let hi = s.subrange(i, s.len() as int);
        assert(hi.last() == s.last());
        assert(entries_newest_first(s, u, cf, before, after, gen) =~= entries_newest_first(
            hi,
            u,
            cf,
            before,
            after,
            gen,
        ) + entries_newest_first(s.take(i), u, cf, before, after, gen));
    }
}

/// Sum of quantities over a run of entries.
pub open spec fn gen_amount(g: Seq<HistoryEntry>) -> int
    decreases g.len(),
{
    if g.len() == 0 {
        0
    } else {
        g[0].quantity + gen_amount(g.drop_first())
    }
}

/// How many leading entries of `g` happened strictly before `t`.
pub open spec fn gen_cut(g: Seq<HistoryEntry>, t: u64) -> int
    decreases g.len(),
{
    if g.len() == 0 {
        0
    } else if g[0].happened_at < t {
        1 + gen_cut(g.drop_first(), t)
    } else {
        0
    }
}

/// The collapsed statement, oldest first. Ahead of each ordinary entry, the
/// run of generation entries older than it is rolled into one summary line
/// (amount the sum of the run, balance the run's last snapshot); whatever
/// generation entries remain after the newest ordinary entry become one
/// final summary line.
pub open spec fn collapse_spec(main: Seq<HistoryEntry>, gens: Seq<HistoryEntry>) -> Seq<
    StatementLine,
>
    decreases main.len(),
{
    if main.len() == 0 {
        if gens.len() == 0 {
            Seq::empty()
        } else {
            seq![
                StatementLine::Generated {
                    amount: gen_amount(gens) as u128,
                    balance: gens.last().balance,
                },
            ]
        }
    } else {
        let k = gen_cut(gens, main[0].happened_at);
        (if k > 0 {
            seq![
                StatementLine::Generated {
                    amount: gen_amount(gens.take(k)) as u128,
                    balance: gens[k - 1].balance,
                },
            ]
        } else {
            Seq::empty()
        }) + seq![StatementLine::Entry(main[0])] + collapse_spec(main.drop_first(), gens.skip(k))
    }
}

/// Appending an entry adds its quantity to the run sum.
proof fn lemma_gen_amount_push(g: Seq<HistoryEntry>, x: HistoryEntry)
    ensures
        gen_amount(g.push(x)) == gen_amount(g) + x.quantity,
    decreases g.len(),
{
    if g.len() == 0 {
        assert(g.push(x)[0] == x);
        assert(g.push(x).drop_first() =~= Seq::<HistoryEntry>::empty());
        assert(gen_amount(Seq::<HistoryEntry>::empty()) == 0);
    } else {
        assert(g.push(x)[0] == g[0]);
        assert(g.push(x).drop_first() =~= g.drop_first().push(x));
        lemma_gen_amount_push(g.drop_first(), x);
    }
}

/// The cut point is pinned by a window: everything before it is older than
/// `t`, and the entry at it (if any) is not.
proof fn lemma_gen_cut_window(g: Seq<HistoryEntry>, t: u64, k: int)
    requires
        0 <= k <= g.len(),
        forall|j: int| 0 <= j < k ==> (#[trigger] g[j]).happened_at < t,
        k < g.len() ==> g[k].happened_at >= t,
    ensures
        gen_cut(g, t) == k,
    decreases g.len(),
{
    if k == 0 {
    } else {
        assert(g[0].happened_at < t);
        let g1 = g.drop_first();
        assert forall|j: int| 0 <= j < k - 1 implies (#[trigger] g1[j]).happened_at < t by {
            assert(g1[j] == g[j + 1]);
        }
        if k - 1 < g1.len() {
            assert(g1[k - 1] == g[k]);
        }
        lemma_gen_cut_window(g1, t, k - 1);
    }
}

/// There are never more matching entries than transfers.
proof fn lemma_entries_len_le(
    s: Seq<Transfer>,
    u: u64,
    cf: Option<Seq<char>>,
    before: Option<u64>,
    after: Option<u64>,
    gen: Option<bool>,
)
    ensures
        entries_newest_first(s, u, cf, before, after, gen).len() <= s.len(),
    decreases s.len(),
{
    if s.len() > 0 {
        lemma_entries_len_le(s.drop_last(), u, cf, before, after, gen);
    }
}

/// The view of an optional currency filter.
pub open spec fn filter_view(cf: Option<&str>) -> Option<Seq<char>> {
    match cf {
        Some(c) => Some(c@),
        None => None,
    }
}

impl Ledger {
    /// Matching statement entries, newest first, at most `limit` of them.
    fn history_filtered(
        &self,
        user: u64,
        currency_filter: Option<&str>,
        before_time: Option<u64>,
        after_time: Option<u64>,
        gen: Option<bool>,
        limit: usize,
    ) -> (r: Vec<HistoryEntry>)
        requires
            self.wf(),
        ensures
            ({
                let full = entries_newest_first(
                    self.transfers@,
                    user,
                    filter_view(currency_filter),
                    before_time,
                    after_time,
                    gen,
                );
                r@ == (if full.len() <= limit {
                    full
                } else {
                    full.take(limit as int)
                })
            }),
    {
        let ghost s = self.transfers@;
        let ghost cf = filter_view(currency_filter);
        let mut out: Vec<HistoryEntry> = Vec::new();
        let mut i: usize = self.transfers.len();
        while i > 0
            invariant
                self.wf(),
                self.transfers@ == s,
                cf == filter_view(currency_filter),
                0 <= i <= s.len(),
                out@.len() <= limit,
                out@ == entries_newest_first(
                    s.subrange(i as int, s.len() as int),
                    user,
                    cf,
                    before_time,
                    after_time,
                    gen,
                ),
            ensures
                0 <= i <= s.len(),
                out@ == entries_newest_first(
                    s.subrange(i as int, s.len() as int),
                    user,
                    cf,
                    before_time,
                    after_time,
                    gen,
                ),
                i == 0 || out@.len() == limit,
            decreases i,
        {
            if out.len() == limit {
                break;
            }
            i = i - 1;
            let t = &self.transfers[i];
            let ghost hi = s.subrange(i as int, s.len() as int);
            proof {
                lemma_entries_split(hi, 1, user, cf, before_time, after_time, gen);
                assert(hi.subrange(1, hi.len() as int) =~= s.subrange(i + 1, s.len() as int));
                assert(hi.take(1) =~= seq![s[i as int]]);
                assert(seq![s[i as int]].last() == s[i as int]);
                assert(seq![s[i as int]].drop_last() =~= Seq::<Transfer>::empty());
                assert(entries_newest_first(Seq::<Transfer>::empty(), user, cf, before_time,
                    after_time, gen) == Seq::<HistoryEntry>::empty());
                assert(entries_newest_first(seq![s[i as int]], user, cf, before_time, after_time,
                    gen) =~= (if entry_matches(s[i as int], user, cf, before_time, after_time,
                    gen) {
                    seq![entry_of(s[i as int], user)]
                } else {
                    Seq::<HistoryEntry>::empty()
                }));
            }
            let touches_user = {
                let f = match t.from_user {
                    Some(x) => x == user,
                    None => false,
                };
                let g = match t.to_user {
                    Some(x) => x == user,
                    None => false,
                };
                f || g
            };
            let cf_ok = match currency_filter {
                Some(c) => crate::text::str_eq(t.currency.as_str(), c),
                None => true,
            };
            let before_ok = match before_time {
                Some(b) => t.happened_at < b,
                None => true,
            };
            let after_ok = match after_time {
                Some(a) => t.happened_at > a,
                None => true,
            };
            let gen_ok = match gen {
                Some(g) => {
                    let is_gen = match t.kind {
                        TransferKind::Generated => true,
                        _ => false,
                    };
                    is_gen == g
                },
                None => true,
            };
            if touches_user && cf_ok && before_ok && after_ok && gen_ok {
                let outgoing = match t.from_user {
                    Some(x) => x == user,
                    None => false,
                };
                let e = HistoryEntry {
                    transfer_id: t.id,
                    balance: if outgoing {
                        match t.from_balance {
                            Some(b) => b,
                            None => 0,
                        }
                    } else {
                        match t.to_balance {
                            Some(b) => b,
                            None => 0,
                        }
                    },
                    quantity: t.quantity,
                    outgoing,
                    happened_at: t.happened_at,
                    currency: t.currency.clone(),
                    comment: match &t.comment {
                        Some(c) => Some(c.clone()),
                        None => None,
                    },
                    other_party: if outgoing {
                        t.to_user
                    } else {
                        t.from_user
                    },
                    to_motion: t.to_motion,
                    to_votes: t.to_votes,
                    message_id: t.message_id,
                    kind: t.kind,
                };
                proof {
                    assert(transfer_wf(s[i as int]));
                    assert(e == entry_of(s[i as int], user));
                }
                // newest first: this entry is older than everything gathered
                // so far, so it goes at the back
                out.push(e);
                proof {
                    assert(out@ =~= entries_newest_first(
                        s.subrange(i as int, s.len() as int),
                        user,
                        cf,
                        before_time,
                        after_time,
                        gen,
                    ));
                }
            } else {
                proof {
                    assert(out@ =~= entries_newest_first(
                        s.subrange(i as int, s.len() as int),
                        user,
                        cf,
                        before_time,
                        after_time,
                        gen,
                    ));
                }
            }
        }
        proof {
            let full = entries_newest_first(s, user, cf, before_time, after_time, gen);
            lemma_entries_split(s, i as int, user, cf, before_time, after_time, gen);
            if i == 0 {
                assert(s.subrange(0, s.len() as int) =~= s);
                assert(full.len() <= limit ==> out@ == full);
                assert(out@.len() <= limit);
                if full.len() > limit {
                    assert(out@ == full);
                    assert(false);
                }
            } else {
                assert(out@.len() == limit);
                assert(full == out@ + entries_newest_first(
                    s.take(i as int),
                    user,
                    cf,
                    before_time,
                    after_time,
                    gen,
                ));
                assert(full.take(limit as int) =~= out@);
            }
        }
        out
    }

    /// Statement page for a user: matching transfers as the user's entries,
    /// newest first, at most `limit` of them. A currency filter and an
    /// exclusive upper time bound support pagination.
    pub fn history(
        &self,
        user: u64,
        currency_filter: Option<&str>,
        before_time: Option<u64>,
        limit: usize,
    ) -> (r: Vec<HistoryEntry>)
        requires
            self.wf(),
        ensures
            ({
                let full = entries_newest_first(
                    self.transfers@,
                    user,
                    filter_view(currency_filter),
                    before_time,
                    None,
                    None,
                );
                r@ == (if full.len() <= limit {
                    full
                } else {
                    full.take(limit as int)
                })
            }),
    {
        self.history_filtered(user, currency_filter, before_time, None, None, limit)
    }

    /// The collapsed statement page, newest first, plus whether more pages
    /// remain. The page holds at most `limit` ordinary (non-generation)
    /// entries; the generation entries interleaved with them — back to the
    /// moment just past the page's oldest fetched entry — are rolled up as
    /// `collapse_spec` describes.
    pub fn collapsed_history(
        &self,
        user: u64,
        currency_filter: Option<&str>,
        before_time: Option<u64>,
        limit: usize,
    ) -> (r: (Vec<StatementLine>, bool))
        requires
            self.wf(),
            1 <= limit < usize::MAX,
        ensures
            ({
                let cf = filter_view(currency_filter);
                let full = entries_newest_first(
                    self.transfers@,
                    user,
                    cf,
                    before_time,
                    None,
                    Some(false),
                );
                let hit = full.len() > limit;
                let fetched = if full.len() <= limit + 1 {
                    full
                } else {
                    full.take(limit as int + 1)
                };
                let shown = if hit {
                    full.take(limit as int)
                } else {
                    full
                };
                let gens = if fetched.len() == 0 {
                    Seq::<HistoryEntry>::empty()
                } else {
                    entries_newest_first(
                        self.transfers@,
                        user,
                        cf,
                        before_time,
                        Some(fetched.last().happened_at),
                        Some(true),
                    )
                };
                &&& r.1 == hit
                &&& r.0@ == collapse_spec(shown.reverse(), gens.reverse()).reverse()
            }),
    {
        let ghost cf = filter_view(currency_filter);
        let ghost full = entries_newest_first(
            self.transfers@,
            user,
            cf,
            before_time,
            None,
            Some(false),
        );
        let mut main_nf = self.history_filtered(
            user,
            currency_filter,
            before_time,
            None,
            Some(false),
            limit + 1,
        );
        let hit = main_nf.len() == limit + 1;
        let bound: Option<u64> = if main_nf.len() > 0 {
            Some(main_nf[main_nf.len() - 1].happened_at)
        } else {
            None
        };
        if hit {
            main_nf.pop();
            proof {
                assert(full.take(limit as int + 1).drop_last() =~= full.take(limit as int));
            }
        }
        let tlen = self.transfers.len();
        let mut gens_nf: Vec<HistoryEntry> = match bound {
            Some(b) => {
                proof {
                    lemma_entries_len_le(
                        self.transfers@,
                        user,
                        cf,
                        before_time,
                        Some(b),
                        Some(true),
                    );
                }
                let g = self.history_filtered(
                    user,
                    currency_filter,
                    before_time,
                    Some(b),
                    Some(true),
                    usize::MAX,
                );
                proof {
                    assert(self.transfers@.len() == tlen as int);
                    assert(g@ == entries_newest_first(
                        self.transfers@,
                        user,
                        cf,
                        before_time,
                        Some(b),
                        Some(true),
                    ));
                }
                g
            },
            None => Vec::new(),
        };
        let ghost shown0 = main_nf@;
        let ghost gens0 = gens_nf@;
        let ghost m_all = main_nf@.reverse();
        let ghost g_all = gens_nf@.reverse();
        let ghost whole = collapse_spec(m_all, g_all);
        let mut out: Vec<StatementLine> = Vec::new();
        while main_nf.len() > 0
            invariant
                out@ + collapse_spec(main_nf@.reverse(), gens_nf@.reverse()) == whole,
            decreases main_nf@.len(),
        {
            let ghost pre_main = main_nf@;
            let ghost g0 = gens_nf@;
            let ghost grev = g0.reverse();
            let e = match main_nf.pop() {
                Some(x) => x,
                None => {
                    proof {
                        assert(false);
                    }
                    return (Vec::new(), false);
                },
            };
            let e_time = e.happened_at;
            let glen = gens_nf.len();
            proof {
                assert(g0.len() == glen as int);
            }
            let mut amt: u128 = 0;
            let mut bal: u64 = 0;
            let mut cnt: usize = 0;
            while gens_nf.len() > 0 && gens_nf[gens_nf.len() - 1].happened_at < e_time
                invariant
                    cnt <= g0.len(),
                    g0.len() <= usize::MAX,
                    gens_nf@ == g0.take(g0.len() - cnt),
                    grev == g0.reverse(),
                    amt as int == gen_amount(grev.take(cnt as int)),
                    amt as int <= cnt as int * 0xffff_ffff_ffff_ffff,
                    cnt > 0 ==> bal == grev[cnt - 1].balance,
                    forall|j: int|
                        0 <= j < cnt ==> (#[trigger] grev[j]).happened_at < e_time,
                decreases gens_nf@.len(),
            {
                let ghost pre_g = gens_nf@;
                let g = match gens_nf.pop() {
                    Some(x) => x,
                    None => {
                        proof {
                            assert(false);
                        }
                        return (Vec::new(), false);
                    },
                };
                proof {
                    assert(g == g0[g0.len() - cnt - 1]);
                    assert(grev[cnt as int] == g0[g0.len() - 1 - cnt]);
                    assert(pre_g.drop_last() =~= g0.take(g0.len() - (cnt + 1)));
                    assert(grev.take(cnt + 1) =~= grev.take(cnt as int).push(grev[cnt as int]));
                    lemma_gen_amount_push(grev.take(cnt as int), grev[cnt as int]);
                    assert((cnt as int + 1) * 0xffff_ffff_ffff_ffff == cnt as int
                        * 0xffff_ffff_ffff_ffff + 0xffff_ffff_ffff_ffff);
                    assert(cnt as int * 0xffff_ffff_ffff_ffff
                        <= 0xffff_ffff_ffff_ffff * 0xffff_ffff_ffff_ffff) by (nonlinear_arith)
                        requires
                            0 <= cnt as int <= 0xffff_ffff_ffff_ffff,
                    ;
                }
                amt = amt + (g.quantity as u128);
                bal = g.balance;
                cnt = cnt + 1;
            }
            proof {
                let k = cnt as int;
                if cnt < g0.len() {
                    assert(gens_nf@.last() == g0[g0.len() - cnt - 1]);
                    assert(grev[k] == g0[g0.len() - 1 - k]);
                    assert(grev[k].happened_at >= e_time);
                }
                lemma_gen_cut_window(grev, e_time, k);
                assert(m_all.len() > 0 || pre_main.len() > 0);
                let main0 = pre_main.reverse();
                assert(main0[0] == pre_main.last());
                assert(main0[0] == e);
                assert(main0.drop_first() =~= main_nf@.reverse());
                assert(gens_nf@.reverse() =~= grev.skip(k));
                assert(collapse_spec(main0, grev) == (if k > 0 {
                    seq![
                        StatementLine::Generated {
                            amount: gen_amount(grev.take(k)) as u128,
                            balance: grev[k - 1].balance,
                        },
                    ]
                } else {
                    Seq::<StatementLine>::empty()
                }) + seq![StatementLine::Entry(main0[0])] + collapse_spec(
                    main0.drop_first(),
                    grev.skip(k),
                ));
            }
            let ghost out0 = out@;
            if cnt > 0 {
                out.push(StatementLine::Generated { amount: amt, balance: bal });
            }
            out.push(StatementLine::Entry(e));
            proof {
                let k = cnt as int;
                let emitted = (if k > 0 {
                    seq![
                        StatementLine::Generated {
                            amount: gen_amount(grev.take(k)) as u128,
                            balance: grev[k - 1].balance,
                        },
                    ]
                } else {
                    Seq::<StatementLine>::empty()
                }) + seq![StatementLine::Entry(pre_main.reverse()[0])];
                assert(out@ =~= out0 + emitted);
                assert(out@ + collapse_spec(main_nf@.reverse(), gens_nf@.reverse()) =~= out0
                    + collapse_spec(pre_main.reverse(), grev));
            }
        }
        proof {
            assert(main_nf@.reverse() =~= Seq::<HistoryEntry>::empty());
        }
        if gens_nf.len() > 0 {
            let ghost g0 = gens_nf@;
            let ghost grev = g0.reverse();
            let ghost out0 = out@;
            let mut amt: u128 = 0;
            let mut bal: u64 = 0;
            let mut cnt: usize = 0;
            while gens_nf.len() > 0
                invariant
                    cnt <= g0.len(),
                    g0.len() <= usize::MAX,
                    gens_nf@ == g0.take(g0.len() - cnt),
                    grev == g0.reverse(),
                    amt as int == gen_amount(grev.take(cnt as int)),
                    amt as int <= cnt as int * 0xffff_ffff_ffff_ffff,
                    cnt > 0 ==> bal == grev[cnt - 1].balance,
                decreases gens_nf@.len(),
            {
                let ghost pre_g = gens_nf@;
                let g = match gens_nf.pop() {
                    Some(x) => x,
                    None => {
                        proof {
                            assert(false);
                        }
                        return (Vec::new(), false);
                    },
                };
                proof {
                    assert(g == g0[g0.len() - cnt - 1]);
                    assert(grev[cnt as int] == g0[g0.len() - 1 - cnt]);
                    assert(pre_g.drop_last() =~= g0.take(g0.len() - (cnt + 1)));
                    assert(grev.take(cnt + 1) =~= grev.take(cnt as int).push(grev[cnt as int]));
                    lemma_gen_amount_push(grev.take(cnt as int), grev[cnt as int]);
                    assert((cnt as int + 1) * 0xffff_ffff_ffff_ffff == cnt as int
                        * 0xffff_ffff_ffff_ffff + 0xffff_ffff_ffff_ffff);
                    assert(cnt as int * 0xffff_ffff_ffff_ffff
                        <= 0xffff_ffff_ffff_ffff * 0xffff_ffff_ffff_ffff) by (nonlinear_arith)
                        requires
                            0 <= cnt as int <= 0xffff_ffff_ffff_ffff,
                    ;
                }
                amt = amt + (g.quantity as u128);
                bal = g.balance;
                cnt = cnt + 1;
            }
            out.push(StatementLine::Generated { amount: amt, balance: bal });
            proof {
                assert(cnt == g0.len());
                assert(grev.take(cnt as int) =~= grev);
                assert(grev[cnt - 1] == grev.last());
                assert(collapse_spec(Seq::<HistoryEntry>::empty(), grev) =~= seq![
                    StatementLine::Generated {
                        amount: gen_amount(grev) as u128,
                        balance: grev.last().balance,
                    },
                ]);
                assert(out@ =~= out0 + collapse_spec(Seq::<HistoryEntry>::empty(), grev));
            }
        } else {
            proof {
                assert(gens_nf@.reverse() =~= Seq::<HistoryEntry>::empty());
                assert(collapse_spec(
                    Seq::<HistoryEntry>::empty(),
                    Seq::<HistoryEntry>::empty(),
                ) =~= Seq::<StatementLine>::empty());
                assert(out@ =~= out@ + collapse_spec(
                    Seq::<HistoryEntry>::empty(),
                    Seq::<HistoryEntry>::empty(),
                ));
            }
        }
        proof {
            assert(out@ == whole);
        }
        let mut res: Vec<StatementLine> = Vec::new();
        proof {
            assert(out@ =~= whole.take(out@.len() as int));
            assert(res@ =~= whole.skip(out@.len() as int).reverse());
        }
        while out.len() > 0
            invariant
                out@.len() <= whole.len(),
                out@ == whole.take(out@.len() as int),
                res@ == whole.skip(out@.len() as int).reverse(),
            decreases out@.len(),
        {
            let ghost pre = out@;
            let x = match out.pop() {
                Some(x) => x,
                None => {
                    proof {
                        assert(false);
                    }
                    return (Vec::new(), false);
                },
            };
            res.push(x);
            proof {
                assert(x == pre.last());
                assert(pre == whole.take(pre.len() as int));
                assert(pre.last() == whole.take(pre.len() as int)[pre.len() - 1]);
                assert(whole.take(pre.len() as int)[pre.len() - 1] == whole[pre.len() - 1]);
                assert(out@ == pre.drop_last());
                assert(out@ =~= whole.take(out@.len() as int));
                assert(res@ =~= whole.skip(out@.len() as int).reverse());
            }
        }
        proof {
            assert(res@ =~= whole.reverse());
            let hitg = full.len() > limit;
            let fetched = if full.len() <= limit + 1 {
                full
            } else {
                full.take(limit as int + 1)
            };
            let showns = if hitg {
                full.take(limit as int)
            } else {
                full
            };
            if full.len() == limit + 1 {
                assert(fetched =~= full.take(limit as int + 1));
            }
            assert(hit == hitg);
            assert(shown0 == showns);
            if fetched.len() == 0 {
                assert(gens0 =~= Seq::<HistoryEntry>::empty());
            }
        }
        (res, hit)
    }
}

} // verus!
