//! General laws of the ledger replay, stated over the spec-level model and
//! proved once for all histories.
use vstd::prelude::*;

verus! {

use crate::account::{
    Balances, balances_wf, fits_upto, history_wf, lookup_upto, replay, replay_fits, replay_upto,
    round_balances, tx_fits,
};
use crate::amount::{
    dec_settle4, dec_value, lemma_add_exact, lemma_settle4_props, lemma_sub_exact, pow10,
};
use crate::transaction::{TxKind, TxModel};
use vstd::math::abs;

/// A history of deposits and withdrawals only: no dispute-family records and
/// no unrecognized kinds.
pub open spec fn deposits_withdrawals_only(h: Seq<TxModel>) -> bool {
    forall|i: int|
        0 <= i < h.len() ==> ((#[trigger] h[i]).kind == TxKind::Deposit || h[i].kind
            == TxKind::Withdrawal)
}

/// With no dispute-family records, `available` and `total` receive exactly
/// the same operations: starting equal they stay equal, and `held` and the
/// lock are never touched.
pub proof fn lemma_replay_without_disputes(h: Seq<TxModel>, b: Balances, n: int)
    requires
        deposits_withdrawals_only(h),
        b.available == b.total,
        0 <= n <= h.len(),
    ensures
        replay_upto(h, b, n).available == replay_upto(h, b, n).total,
        replay_upto(h, b, n).held == b.held,
        replay_upto(h, b, n).locked == b.locked,
    decreases n,
{
    if n > 0 {
        lemma_replay_without_disputes(h, b, n - 1);
    }
}

/// For all sequences of deposits and withdrawals starting from a fresh
/// ledger, after the full replay and rounding, `total == available` and
/// `held` is zero.
pub proof fn lemma_no_disputes_no_held(h: Seq<TxModel>, b: Balances)
    requires
        deposits_withdrawals_only(h),
        b.available == b.total,
        b.held.units == 0,
    ensures
        round_balances(replay(h, b)).available == round_balances(replay(h, b)).total,
        dec_value(round_balances(replay(h, b)).held) == 0,
        round_balances(replay(h, b)).locked == b.locked,
{
    lemma_replay_without_disputes(h, b, h.len() as int);
    let s = replay(h, b);
    let r = dec_settle4(s.held);
    assert(dec_value(r) == r.units * pow10((28 - r.scale) as nat));
    assert(r.units * pow10((28 - r.scale) as nat) == 0) by (nonlinear_arith)
        requires r.units == 0;
}

/// The invariant `total == available + held`, at the level of values.
pub open spec fn balanced(b: Balances) -> bool {
    dec_value(b.total) == dec_value(b.available) + dec_value(b.held)
}

/// Every replay step preserves `total == available + held` exactly, along
/// with well-formedness: each record either moves an amount between
/// `available` and `held`, or changes `available` and `total` (or `held` and
/// `total`) by the same amount.
pub proof fn lemma_replay_balanced(h: Seq<TxModel>, b: Balances, n: int)
    requires
        balances_wf(b),
        history_wf(h),
        balanced(b),
        fits_upto(h, b, n),
        0 <= n <= h.len(),
    ensures
        balanced(replay_upto(h, b, n)),
        balances_wf(replay_upto(h, b, n)),
    decreases n,
{
    if n > 0 {
        lemma_replay_balanced(h, b, n - 1);
        let cur = replay_upto(h, b, n - 1);
        let t = h[n - 1];
        assert(tx_fits(h, cur, n - 1));
        match t.kind {
            TxKind::Deposit => {
                lemma_add_exact(cur.available, t.amount);
                lemma_add_exact(cur.total, t.amount);
            },
            TxKind::Withdrawal => {
                lemma_sub_exact(cur.available, t.amount);
                if crate::amount::dec_sub(cur.available, t.amount).units > 0 {
                    lemma_sub_exact(cur.total, t.amount);
                }
            },
            TxKind::Dispute => {
                if let Some(r) = lookup_upto(h, t.id, n - 1) {
                    lemma_sub_exact(cur.available, r.amount);
                    lemma_add_exact(cur.held, r.amount);
                }
            },
            TxKind::Resolve => {
                if let Some(r) = lookup_upto(h, t.id, n - 1) {
                    lemma_add_exact(cur.available, r.amount);
                    lemma_sub_exact(cur.held, r.amount);
                }
            },
            TxKind::Chargeback => {
                if let Some(r) = lookup_upto(h, t.id, n - 1) {
                    lemma_sub_exact(cur.total, r.amount);
                    lemma_sub_exact(cur.held, r.amount);
                }
            },
            TxKind::Unknown => {},
        }
    }
}

/// For all ledgers whose balances start consistent, after the full replay
/// `total == available + held` holds exactly, and after the final rounding
/// to four digits it holds within one unit in the fourth fractional digit.
pub proof fn lemma_settled_consistency(h: Seq<TxModel>, b: Balances)
    requires
        balances_wf(b),
        history_wf(h),
        balanced(b),
        replay_fits(h, b),
    ensures
        balanced(replay(h, b)),
        abs(dec_value(round_balances(replay(h, b)).total) - (dec_value(
            round_balances(replay(h, b)).available,
        ) + dec_value(round_balances(replay(h, b)).held))) <= pow10(24),
{
    lemma_replay_balanced(h, b, h.len() as int);
    let s = replay(h, b);
    let r = round_balances(s);
    lemma_settle4_props(s.available);
    lemma_settle4_props(s.held);
    lemma_settle4_props(s.total);
    let p = pow10(24);
    crate::amount::lemma_pow10_pos(24);
    let dd = dec_value(r.total) - (dec_value(r.available) + dec_value(r.held));
    // The three rounding errors are each at most half a unit, so the defect
    // is at most a unit and a half.
    assert(2 * abs(dd) <= 3 * p);
    // The defect is itself a multiple of one unit ...
    vstd::arithmetic::div_mod::lemma_fundamental_div_mod(dec_value(r.total), p);
    vstd::arithmetic::div_mod::lemma_fundamental_div_mod(dec_value(r.available), p);
    vstd::arithmetic::div_mod::lemma_fundamental_div_mod(dec_value(r.held), p);
    let kt = dec_value(r.total) / p;
    let ka = dec_value(r.available) / p;
    let kh = dec_value(r.held) / p;
    assert(dd == p * (kt - ka - kh)) by (nonlinear_arith)
        requires
            dec_value(r.total) == p * kt,
            dec_value(r.available) == p * ka,
            dec_value(r.held) == p * kh,
            dd == dec_value(r.total) - (dec_value(r.available) + dec_value(r.held)),
    ;
    // ... and a multiple of `p` no larger than `3p/2` in magnitude is at
    // most `p` in magnitude.
    let kk = kt - ka - kh;
    assert(abs(dd) <= p) by (nonlinear_arith)
        requires dd == p * kk, 2 * abs(dd) <= 3 * p, p >= 1;
}

/// No withdrawal records: every other kind's effect is independent of the
/// balance state, which makes the whole replay an additive shift.
pub open spec fn no_withdrawals(h: Seq<TxModel>) -> bool {
    forall|i: int| 0 <= i < h.len() ==> (#[trigger] h[i]).kind != TxKind::Withdrawal
}

/// The per-record shift of the three balance values.
pub ghost struct ReplayDelta {
    pub available: int,
    pub held: int,
    pub total: int,
}

/// What the record at index `k` adds to each balance value, independent of
/// the balance state (meaningful for records that are not withdrawals).
pub open spec fn tx_delta(h: Seq<TxModel>, k: int) -> ReplayDelta {
    let t = h[k];
    match t.kind {
        TxKind::Deposit => ReplayDelta {
            available: dec_value(t.amount),
            held: 0,
            total: dec_value(t.amount),
        },
        TxKind::Dispute => match lookup_upto(h, t.id, k) {
            Some(r) => ReplayDelta {
                available: -dec_value(r.amount),
                held: dec_value(r.amount),
                total: 0,
            },
            None => ReplayDelta { available: 0, held: 0, total: 0 },
        },
        TxKind::Resolve => match lookup_upto(h, t.id, k) {
            Some(r) => ReplayDelta {
                available: dec_value(r.amount),
                held: -dec_value(r.amount),
                total: 0,
            },
            None => ReplayDelta { available: 0, held: 0, total: 0 },
        },
        TxKind::Chargeback => match lookup_upto(h, t.id, k) {
            Some(r) => ReplayDelta {
                available: 0,
                held: -dec_value(r.amount),
                total: -dec_value(r.amount),
            },
            None => ReplayDelta { available: 0, held: 0, total: 0 },
        },
        _ => ReplayDelta { available: 0, held: 0, total: 0 },
    }
}

/// The accumulated shift of the first `n` records.
pub open spec fn delta_upto(h: Seq<TxModel>, n: int) -> ReplayDelta
    decreases n,
{
    if n <= 0 {
        ReplayDelta { available: 0, held: 0, total: 0 }
    } else {
        let d = delta_upto(h, n - 1);
        let e = tx_delta(h, n - 1);
        ReplayDelta {
            available: d.available + e.available,
            held: d.held + e.held,
            total: d.total + e.total,
        }
    }
}

/// Replay of a withdrawal-free history shifts each balance value by a fixed
/// amount that depends on the history alone, not on the starting balances.
pub proof fn lemma_replay_additive(h: Seq<TxModel>, b: Balances, n: int)
    requires
        balances_wf(b),
        history_wf(h),
        no_withdrawals(h),
        fits_upto(h, b, n),
        0 <= n <= h.len(),
    ensures
        dec_value(replay_upto(h, b, n).available) == dec_value(b.available) + delta_upto(
            h,
            n,
        ).available,
        dec_value(replay_upto(h, b, n).held) == dec_value(b.held) + delta_upto(h, n).held,
        dec_value(replay_upto(h, b, n).total) == dec_value(b.total) + delta_upto(h, n).total,
        balances_wf(replay_upto(h, b, n)),
    decreases n,
{
    if n > 0 {
        lemma_replay_additive(h, b, n - 1);
        let cur = replay_upto(h, b, n - 1);
        let t = h[n - 1];
        assert(tx_fits(h, cur, n - 1));
        match t.kind {
            TxKind::Deposit => {
                lemma_add_exact(cur.available, t.amount);
                lemma_add_exact(cur.total, t.amount);
            },
            TxKind::Dispute => {
                if let Some(r) = lookup_upto(h, t.id, n - 1) {
                    lemma_sub_exact(cur.available, r.amount);
                    lemma_add_exact(cur.held, r.amount);
                }
            },
            TxKind::Resolve => {
                if let Some(r) = lookup_upto(h, t.id, n - 1) {
                    lemma_add_exact(cur.available, r.amount);
                    lemma_sub_exact(cur.held, r.amount);
                }
            },
            TxKind::Chargeback => {
                if let Some(r) = lookup_upto(h, t.id, n - 1) {
                    lemma_sub_exact(cur.total, r.amount);
                    lemma_sub_exact(cur.held, r.amount);
                }
            },
            _ => {},
        }
    }
}

/// Replaying the same withdrawal-free history a second time — violating the
/// replay-once contract — doubles every applied effect: the second pass
/// shifts each balance value by exactly what the first pass did. (With
/// withdrawals the claim fails: a withdrawal skipped on the first pass for
/// want of funds can succeed on the second.)
pub proof fn lemma_replay_twice_doubles(h: Seq<TxModel>, b: Balances)
    requires
        balances_wf(b),
        history_wf(h),
        no_withdrawals(h),
        replay_fits(h, b),
        replay_fits(h, replay(h, b)),
    ensures
        dec_value(replay(h, replay(h, b)).available) - dec_value(b.available) == 2 * (dec_value(
            replay(h, b).available,
        ) - dec_value(b.available)),
        dec_value(replay(h, replay(h, b)).held) - dec_value(b.held) == 2 * (dec_value(
            replay(h, b).held,
        ) - dec_value(b.held)),
        dec_value(replay(h, replay(h, b)).total) - dec_value(b.total) == 2 * (dec_value(
            replay(h, b).total,
        ) - dec_value(b.total)),
{
    lemma_replay_additive(h, b, h.len() as int);
    lemma_replay_additive(h, replay(h, b), h.len() as int);
}

/// The lock is one-way: a locked ledger stays locked through any further
/// replay (only a successful chargeback ever writes the flag, and it only
/// sets it).
pub proof fn lemma_locked_is_permanent(h: Seq<TxModel>, b: Balances, n: int)
    requires
        b.locked,
        0 <= n <= h.len(),
    ensures
        replay_upto(h, b, n).locked,
    decreases n,
{
    if n > 0 {
        lemma_locked_is_permanent(h, b, n - 1);
    }
}

} // verus!
