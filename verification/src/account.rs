//! Per-client account ledgers.
//!
//! An [`Account`] owns one client's balance state and the ordered history of
//! the transaction records assigned to that client. Balances are derived by
//! [`Account::process_transactions`], a single replay pass over the history;
//! the spec functions [`apply_tx`] and [`replay`] state exactly what that
//! pass computes, record by record:
//!
//! * a deposit adds its amount to `available` and `total`;
//! * a withdrawal subtracts from both, but only when it would leave a
//!   strictly positive available balance — otherwise it is skipped silently;
//! * a dispute moves the referenced record's amount from `available` to
//!   `held`, a resolve moves it back, and a chargeback removes it from
//!   `held` and `total` and locks the account for good;
//! * dispute-family records whose referenced id is not found, and records of
//!   unrecognized kind, change nothing.
//!
//! A dispute, resolve or chargeback resolves its reference against the
//! records that arrived before it, first match in insertion order. The
//! referenced deposit or withdrawal is necessarily appended before any
//! record referencing it, so the first match is the original record; a
//! reference appearing before its target — a malformed stream — finds
//! nothing and is a silent no-op.
//!
//! The replay mutates balances starting from their current state: it is
//! meant to run exactly once per ledger; a second call applies every effect
//! again on top of the first (see `laws`).
use vstd::prelude::*;

verus! {

use crate::amount::{
    Amount, DecVal, add_fits, dec_add, dec_settle4, dec_sub, dec_value, dec_wf, lemma_add_exact,
    lemma_settle4_props, lemma_sub_exact, lemma_value_sign, raw_add, raw_round4, raw_sub,
};
use crate::transaction::{Transaction, TxKind, TxModel};

/// The mutable balance state of a ledger.
pub ghost struct Balances {
    pub available: DecVal,
    pub held: DecVal,
    pub total: DecVal,
    pub locked: bool,
}

/// All three balances are representable decimals.
pub open spec fn balances_wf(b: Balances) -> bool {
    dec_wf(b.available) && dec_wf(b.held) && dec_wf(b.total)
}

/// Every record's amount is a representable decimal.
pub open spec fn history_wf(h: Seq<TxModel>) -> bool {
    forall|i: int| 0 <= i < h.len() ==> dec_wf(#[trigger] h[i].amount)
}

/// The model of a stored history.
pub open spec fn history_model(v: Seq<Transaction>) -> Seq<TxModel> {
    v.map_values(|t: Transaction| t@)
}

/// First record with a matching id at an index in `[i, end)`, scanning in
/// insertion order.
pub open spec fn lookup_before(h: Seq<TxModel>, id: u32, i: int, end: int) -> Option<TxModel>
    decreases end - i,
{
    if i < 0 || i >= end || i >= h.len() {
        None
    } else if h[i].id == id {
        Some(h[i])
    } else {
        lookup_before(h, id, i + 1, end)
    }
}

/// First record among the first `end` whose id matches: what a dispute,
/// resolve or chargeback standing at index `end` acts upon.
pub open spec fn lookup_upto(h: Seq<TxModel>, id: u32, end: int) -> Option<TxModel> {
    lookup_before(h, id, 0, end)
}

/// First record in the whole history whose id matches, if any.
pub open spec fn lookup(h: Seq<TxModel>, id: u32) -> Option<TxModel> {
    lookup_before(h, id, 0, h.len() as int)
}

/// The effect of the record at index `k` on the balances. References are
/// resolved against the records before index `k` only.
pub open spec fn apply_tx(h: Seq<TxModel>, b: Balances, k: int) -> Balances {
    let t = h[k];
    match t.kind {
        TxKind::Deposit => Balances {
            available: dec_add(b.available, t.amount),
            held: b.held,
            total: dec_add(b.total, t.amount),
            locked: b.locked,
        },
        TxKind::Withdrawal => {
            let d = dec_sub(b.available, t.amount);
            if d.units > 0 {
                Balances {
                    available: d,
                    held: b.held,
                    total: dec_sub(b.total, t.amount),
                    locked: b.locked,
                }
            } else {
                b
            }
        },
        TxKind::Dispute => match lookup_upto(h, t.id, k) {
            Some(r) => Balances {
                available: dec_sub(b.available, r.amount),
                held: dec_add(b.held, r.amount),
                total: b.total,
                locked: b.locked,
            },
            None => b,
        },
        TxKind::Resolve => match lookup_upto(h, t.id, k) {
            Some(r) => Balances {
                available: dec_add(b.available, r.amount),
                held: dec_sub(b.held, r.amount),
                total: b.total,
                locked: b.locked,
            },
            None => b,
        },
        TxKind::Chargeback => match lookup_upto(h, t.id, k) {
            Some(r) => Balances {
                available: b.available,
                held: dec_sub(b.held, r.amount),
                total: dec_sub(b.total, r.amount),
                locked: true,
            },
            None => b,
        },
        TxKind::Unknown => b,
    }
}

/// The decimal operations that applying record `k` to `b` performs stay
/// within the 96-bit mantissa bound, so each is exact.
pub open spec fn tx_fits(h: Seq<TxModel>, b: Balances, k: int) -> bool {
    let t = h[k];
    match t.kind {
        TxKind::Deposit => add_fits(b.available, t.amount) && add_fits(b.total, t.amount),
        TxKind::Withdrawal => add_fits(b.available, t.amount) && (dec_sub(
            b.available,
            t.amount,
        ).units > 0 ==> add_fits(b.total, t.amount)),
        TxKind::Dispute => match lookup_upto(h, t.id, k) {
            Some(r) => add_fits(b.available, r.amount) && add_fits(b.held, r.amount),
            None => true,
        },
        TxKind::Resolve => match lookup_upto(h, t.id, k) {
            Some(r) => add_fits(b.available, r.amount) && add_fits(b.held, r.amount),
            None => true,
        },
        TxKind::Chargeback => match lookup_upto(h, t.id, k) {
            Some(r) => add_fits(b.total, r.amount) && add_fits(b.held, r.amount),
            None => true,
        },
        TxKind::Unknown => true,
    }
}

/// Balances after replaying the first `n` records of `h` from state `b`.
pub open spec fn replay_upto(h: Seq<TxModel>, b: Balances, n: int) -> Balances
    decreases n,
{
    if n <= 0 {
        b
    } else {
        apply_tx(h, replay_upto(h, b, n - 1), n - 1)
    }
}

/// Balances after replaying the whole history from state `b`.
pub open spec fn replay(h: Seq<TxModel>, b: Balances) -> Balances {
    replay_upto(h, b, h.len() as int)
}

/// Every step of replaying the first `n` records stays within the 96-bit
/// bound of its decimal operations.
pub open spec fn fits_upto(h: Seq<TxModel>, b: Balances, n: int) -> bool
    decreases n,
{
    if n <= 0 {
        true
    } else {
        fits_upto(h, b, n - 1) && tx_fits(h, replay_upto(h, b, n - 1), n - 1)
    }
}

/// Every step of replaying the whole history is exact: the machine-limit
/// precondition of [`Account::process_transactions`]. On inputs outside it
/// the underlying decimal arithmetic would overflow or lose precision.
pub open spec fn replay_fits(h: Seq<TxModel>, b: Balances) -> bool {
    fits_upto(h, b, h.len() as int)
}

/// All three balances settled to four fractional digits; the lock is kept.
pub open spec fn round_balances(b: Balances) -> Balances {
    Balances {
        available: dec_settle4(b.available),
        held: dec_settle4(b.held),
        total: dec_settle4(b.total),
        locked: b.locked,
    }
}

pub proof fn lemma_fits_upto_mono(h: Seq<TxModel>, b: Balances, m: int, n: int)
    requires
        0 <= m <= n,
        fits_upto(h, b, n),
    ensures
        fits_upto(h, b, m),
    decreases n,
{
    if m < n {
        lemma_fits_upto_mono(h, b, m, n - 1);
    }
}

/// One client's ledger: balance state plus the ordered record history.
#[derive(Debug)]
pub struct Account {
    /// The client this ledger belongs to.
    pub id: u16,
    /// Balance the client may freely withdraw.
    pub available: Amount,
    /// Balance frozen pending dispute resolution.
    pub held: Amount,
    /// Sum of available and held funds.
    pub total: Amount,
    /// Set permanently by a successful chargeback.
    pub locked: bool,
    /// Records in arrival order; retained to resolve later references.
    pub transactions: Vec<Transaction>,
}

impl Account {
    /// The balance-state model of this ledger.
    pub open spec fn balances(&self) -> Balances {
        Balances {
            available: self.available@,
            held: self.held@,
            total: self.total@,
            locked: self.locked,
        }
    }

    /// The history model of this ledger.
    pub open spec fn history(&self) -> Seq<TxModel> {
        history_model(self.transactions@)
    }

    /// Validity: balances and all stored amounts are representable decimals.
    pub open spec fn inv(&self) -> bool {
        balances_wf(self.balances()) && history_wf(self.history())
    }

    /// A fresh ledger: zero balances at scale four, unlocked, empty history.
    pub fn new(id: u16) -> (r: Account)
        ensures
            r.id == id,
            r.balances() == (Balances {
                available: DecVal { units: 0, scale: 4 },
                held: DecVal { units: 0, scale: 4 },
                total: DecVal { units: 0, scale: 4 },
                locked: false,
            }),
            r.history() == Seq::<TxModel>::empty(),
            r.inv(),
    {
        let r = Account {
            id,
            available: Amount::zero(),
            held: Amount::zero(),
            total: Amount::zero(),
            locked: false,
            transactions: Vec::new(),
        };
        proof {
            assert(r.history() =~= Seq::<TxModel>::empty());
        }
        r
    }

    /// Append a record to the history, in arrival order. Balances are
    /// untouched; this always succeeds.
    pub fn add_transaction(&mut self, transaction: Transaction)
        requires
            old(self).inv(),
            dec_wf(transaction@.amount),
        ensures
            final(self).history() == old(self).history().push(transaction@),
            final(self).balances() == old(self).balances(),
            final(self).id == old(self).id,
            final(self).inv(),
    {
        self.transactions.push(transaction);
        proof {
            assert(self.history() =~= old(self).history().push(transaction@));
        }
    }

    /// The first record in insertion order, over the whole history, whose id
    /// matches.
    pub fn get_transaction_by_id(&self, id: u32) -> (r: Option<&Transaction>)
        ensures
            (match r {
                Some(t) => lookup(self.history(), id) == Some(t@),
                None => lookup(self.history(), id) is None,
            }),
    {
        let n = self.transactions.len();
        let mut i: usize = 0;
        while i < n
            invariant
                n == self.transactions@.len(),
                0 <= i <= n,
                lookup(self.history(), id) == lookup_before(
                    self.history(),
                    id,
                    i as int,
                    n as int,
                ),
            decreases n - i,
        {
            if self.transactions[i].id == id {
                return Some(&self.transactions[i]);
            }
            i = i + 1;
        }
        None
    }

    /// Credit a deposit: `available` and `total` both grow by the amount.
    pub fn deposit(&mut self, transaction: &Transaction)
        requires
            old(self).inv(),
            add_fits(old(self).balances().available, transaction@.amount),
            add_fits(old(self).balances().total, transaction@.amount),
        ensures
            final(self).balances() == (Balances {
                available: dec_add(old(self).balances().available, transaction@.amount),
                held: old(self).balances().held,
                total: dec_add(old(self).balances().total, transaction@.amount),
                locked: old(self).balances().locked,
            }),
            dec_value(final(self).balances().available) == dec_value(old(self).balances().available)
                + dec_value(transaction@.amount),
            dec_value(final(self).balances().total) == dec_value(old(self).balances().total)
                + dec_value(transaction@.amount),
            final(self).transactions == old(self).transactions,
            final(self).id == old(self).id,
            final(self).inv(),
    {
        proof {
            lemma_add_exact(self.balances().available, transaction@.amount);
            lemma_add_exact(self.balances().total, transaction@.amount);
        }
        self.available = raw_add(self.available, transaction.amount);
        self.total = raw_add(self.total, transaction.amount);
    }

    /// Debit a withdrawal, but only when it would leave a strictly positive
    /// available balance; otherwise the record is skipped and the balances
    /// are unchanged. A withdrawal of exactly the available balance is
    /// therefore rejected.
    pub fn withdrawal(&mut self, transaction: &Transaction)
        requires
            old(self).inv(),
            add_fits(old(self).balances().available, transaction@.amount),
            dec_sub(old(self).balances().available, transaction@.amount).units > 0 ==> add_fits(
                old(self).balances().total,
                transaction@.amount,
            ),
        ensures
            final(self).balances() == (if dec_sub(
                old(self).balances().available,
                transaction@.amount,
            ).units > 0 {
                Balances {
                    available: dec_sub(old(self).balances().available, transaction@.amount),
                    held: old(self).balances().held,
                    total: dec_sub(old(self).balances().total, transaction@.amount),
                    locked: old(self).balances().locked,
                }
            } else {
                old(self).balances()
            }),
            // The strict-positivity rule, at the level of values: the debit
            // happens exactly when value(available) - value(amount) > 0.
            dec_value(old(self).balances().available) - dec_value(transaction@.amount) > 0 ==> {
                &&& dec_value(final(self).balances().available) == dec_value(
                    old(self).balances().available,
                ) - dec_value(transaction@.amount)
                &&& dec_value(final(self).balances().total) == dec_value(
                    old(self).balances().total,
                ) - dec_value(transaction@.amount)
            },
            dec_value(old(self).balances().available) - dec_value(transaction@.amount) <= 0
                ==> final(self).balances() == old(self).balances(),
            final(self).transactions == old(self).transactions,
            final(self).id == old(self).id,
            final(self).inv(),
    {
        proof {
            lemma_sub_exact(self.balances().available, transaction@.amount);
            lemma_value_sign(dec_sub(self.balances().available, transaction@.amount));
        }
        let d = raw_sub(self.available, transaction.amount);
        if d.units > 0 {
            proof {
                lemma_sub_exact(self.balances().total, transaction@.amount);
            }
            self.available = d;
            self.total = raw_sub(self.total, transaction.amount);
        }
    }

    /// Hold the referenced record's amount: it moves from `available` to
    /// `held`. The reference is resolved against the first `seen` records —
    /// those that arrived before the acting record — and a reference that
    /// finds nothing is a silent no-op: the balances are unchanged.
    pub fn dispute(&mut self, dispute_transaction: &Transaction, seen: usize)
        requires
            old(self).inv(),
            seen <= old(self).transactions@.len(),
            (match lookup_upto(old(self).history(), dispute_transaction.id, seen as int) {
                Some(r) => add_fits(old(self).balances().available, r.amount) && add_fits(
                    old(self).balances().held,
                    r.amount,
                ),
                None => true,
            }),
        ensures
            final(self).balances() == (match lookup_upto(
                old(self).history(),
                dispute_transaction.id,
                seen as int,
            ) {
                Some(r) => Balances {
                    available: dec_sub(old(self).balances().available, r.amount),
                    held: dec_add(old(self).balances().held, r.amount),
                    total: old(self).balances().total,
                    locked: old(self).balances().locked,
                },
                None => old(self).balances(),
            }),
            final(self).transactions == old(self).transactions,
            final(self).id == old(self).id,
            final(self).inv(),
    {
        let found = find_amount(&self.transactions, dispute_transaction.id, seen);
        match found {
            Some(a) => {
                proof {
                    lemma_sub_exact(self.balances().available, a@);
                    lemma_add_exact(self.balances().held, a@);
                }
                self.available = raw_sub(self.available, a);
                self.held = raw_add(self.held, a);
            },
            None => {},
        }
    }

    /// Release a hold: the referenced record's amount moves back from `held`
    /// to `available`. References resolve as in [`Account::dispute`]; an
    /// unknown reference is a silent no-op.
    pub fn resolve(&mut self, resolve_transaction: &Transaction, seen: usize)
        requires
            old(self).inv(),
            seen <= old(self).transactions@.len(),
            (match lookup_upto(old(self).history(), resolve_transaction.id, seen as int) {
                Some(r) => add_fits(old(self).balances().available, r.amount) && add_fits(
                    old(self).balances().held,
                    r.amount,
                ),
                None => true,
            }),
        ensures
            final(self).balances() == (match lookup_upto(
                old(self).history(),
                resolve_transaction.id,
                seen as int,
            ) {
                Some(r) => Balances {
                    available: dec_add(old(self).balances().available, r.amount),
                    held: dec_sub(old(self).balances().held, r.amount),
                    total: old(self).balances().total,
                    locked: old(self).balances().locked,
                },
                None => old(self).balances(),
            }),
            final(self).transactions == old(self).transactions,
            final(self).id == old(self).id,
            final(self).inv(),
    {
        let found = find_amount(&self.transactions, resolve_transaction.id, seen);
        match found {
            Some(a) => {
                proof {
                    lemma_add_exact(self.balances().available, a@);
                    lemma_sub_exact(self.balances().held, a@);
                }
                self.available = raw_add(self.available, a);
                self.held = raw_sub(self.held, a);
            },
            None => {},
        }
    }

    /// Charge the referenced record's amount back: it leaves `held` and
    /// `total`, and the account is locked for good. References resolve as in
    /// [`Account::dispute`]; an unknown reference is a silent no-op and does
    /// not lock.
    pub fn chargeback(&mut self, chargeback_transaction: &Transaction, seen: usize)
        requires
            old(self).inv(),
            seen <= old(self).transactions@.len(),
            (match lookup_upto(old(self).history(), chargeback_transaction.id, seen as int) {
                Some(r) => add_fits(old(self).balances().total, r.amount) && add_fits(
                    old(self).balances().held,
                    r.amount,
                ),
                None => true,
            }),
        ensures
            final(self).balances() == (match lookup_upto(
                old(self).history(),
                chargeback_transaction.id,
                seen as int,
            ) {
                Some(r) => Balances {
                    available: old(self).balances().available,
                    held: dec_sub(old(self).balances().held, r.amount),
                    total: dec_sub(old(self).balances().total, r.amount),
                    locked: true,
                },
                None => old(self).balances(),
            }),
            final(self).transactions == old(self).transactions,
            final(self).id == old(self).id,
            final(self).inv(),
    {
        let found = find_amount(&self.transactions, chargeback_transaction.id, seen);
        match found {
            Some(a) => {
                proof {
                    lemma_sub_exact(self.balances().total, a@);
                    lemma_sub_exact(self.balances().held, a@);
                }
                self.total = raw_sub(self.total, a);
                self.held = raw_sub(self.held, a);
                self.locked = true;
            },
            None => {},
        }
    }

    /// Settle all three balances to at most four fractional digits: an
    /// exact zero collapses to the canonical `0.0000`, anything else is
    /// rounded half to even.
    pub fn round(&mut self)
        requires
            old(self).inv(),
        ensures
            final(self).balances() == round_balances(old(self).balances()),
            final(self).transactions == old(self).transactions,
            final(self).id == old(self).id,
            final(self).inv(),
    {
        proof {
            lemma_settle4_props(self.balances().available);
            lemma_settle4_props(self.balances().held);
            lemma_settle4_props(self.balances().total);
        }
        self.available = settle4(self.available);
        self.held = settle4(self.held);
        self.total = settle4(self.total);
    }

    /// Replay the stored history once, in insertion order, and settle the
    /// resulting balances to four fractional digits.
    ///
    /// The replay starts from the balances as they currently stand; a fresh
    /// ledger starts from zero. Calling this a second time applies every
    /// effect of the history again on top of the settled balances: it is
    /// designed to be invoked exactly once per ledger.
    pub fn process_transactions(&mut self)
        requires
            old(self).inv(),
            replay_fits(old(self).history(), old(self).balances()),
        ensures
            final(self).balances() == round_balances(
                replay(old(self).history(), old(self).balances()),
            ),
            final(self).transactions == old(self).transactions,
            final(self).id == old(self).id,
            final(self).inv(),
    {
        let ghost h = self.history();
        let ghost b0 = self.balances();
        let n = self.transactions.len();
        let mut i: usize = 0;
        while i < n
            invariant
                n == self.transactions@.len(),
                0 <= i <= n,
                self.transactions == old(self).transactions,
                self.id == old(self).id,
                h == old(self).history(),
                b0 == old(self).balances(),
                replay_fits(h, b0),
                self.balances() == replay_upto(h, b0, i as int),
                self.inv(),
            decreases n - i,
        {
            proof {
                lemma_fits_upto_mono(h, b0, i as int + 1, n as int);
                assert(tx_fits(h, replay_upto(h, b0, i as int), i as int));
            }
            let t = self.transactions[i].clone();
            proof {
                assert(t@ == h[i as int]);
            }
            let k = t.kind();
            match k {
                TxKind::Deposit => self.deposit(&t),
                TxKind::Withdrawal => self.withdrawal(&t),
                TxKind::Dispute => self.dispute(&t, i),
                TxKind::Resolve => self.resolve(&t, i),
                TxKind::Chargeback => self.chargeback(&t, i),
                TxKind::Unknown => {},
            }
            proof {
                assert(self.balances() == replay_upto(h, b0, i as int + 1));
            }
            i = i + 1;
        }
        self.round();
    }
}

/// Settle one amount: zero collapses to the canonical four-digit scale,
/// anything else is rounded to four digits half to even.
fn settle4(a: Amount) -> (r: Amount)
    requires
        dec_wf(a@),
    ensures
        r@ == dec_settle4(a@),
{
    if a.units == 0 {
        Amount::zero()
    } else {
        raw_round4(a)
    }
}

/// The amount of the first record among the first `end` matching `id`, if
/// any: what a dispute, resolve or chargeback acts upon.
fn find_amount(list: &Vec<Transaction>, id: u32, end: usize) -> (r: Option<Amount>)
    requires
        end <= list@.len(),
    ensures
        (match r {
            Some(a) => lookup_upto(history_model(list@), id, end as int) matches Some(t) && a@
                == t.amount,
            None => lookup_upto(history_model(list@), id, end as int) is None,
        }),
{
    let mut i: usize = 0;
    while i < end
        invariant
            end <= list@.len(),
            0 <= i <= end,
            lookup_upto(history_model(list@), id, end as int) == lookup_before(
                history_model(list@),
                id,
                i as int,
                end as int,
            ),
        decreases end - i,
    {
        if list[i].id == id {
            return Some(list[i].amount);
        }
        i = i + 1;
    }
    None
}

} // verus!
