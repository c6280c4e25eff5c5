//! The ledger registry: one [`Account`] per client id.
//!
//! The registry is the thin boundary between ingestion, the replay step and
//! serialization: records are routed to the ledger keyed by their client id
//! (created on first sight), every ledger is then replayed once, and each
//! ledger's settled state is exposed as a flat summary row. Ledgers are kept
//! sorted by client id, so summaries come out in ascending client order.
//!
//! Every ledger owns its balances and history exclusively: replaying one
//! ledger neither reads nor writes any other, which is why
//! [`LedgerRegistry::process_all`] can promise each client's settled
//! balances as a function of that client's own history alone.
use vstd::prelude::*;

verus! {

use crate::account::{
    Account, Balances, history_model, replay, replay_fits, round_balances,
};
use crate::amount::{DecVal, dec_wf, decimal_string_of};
use crate::transaction::{Transaction, TxModel};

/// A registry holds pairwise distinct client ids in ascending order, and
/// every ledger in it is valid and keyed consistently.
pub open spec fn registry_wf(s: Seq<Account>) -> bool {
    &&& forall|i: int, j: int| 0 <= i < j < s.len() ==> s[i].id < s[j].id
    &&& forall|i: int| 0 <= i < s.len() ==> (#[trigger] s[i]).inv()
}

/// Some ledger in `s` is keyed by client `c`.
pub open spec fn has_client(s: Seq<Account>, c: u16) -> bool {
    exists|i: int| 0 <= i < s.len() && s[i].id == c
}

/// The ledger keyed by client `c` (meaningful when `has_client(s, c)`; under
/// `registry_wf` there is exactly one).
pub open spec fn client_account(s: Seq<Account>, c: u16) -> Account {
    s[choose|i: int| 0 <= i < s.len() && s[i].id == c]
}

/// Under `registry_wf`, an index holding client `c` is unique, so
/// `client_account` denotes the ledger at any such index.
pub proof fn lemma_client_index_unique(s: Seq<Account>, c: u16, i: int)
    requires
        registry_wf(s),
        0 <= i < s.len(),
        s[i].id == c,
    ensures
        has_client(s, c),
        client_account(s, c) == s[i],
{
    let j = choose|j: int| 0 <= j < s.len() && s[j].id == c;
    if j < i {
        assert(s[j].id < s[i].id);
    } else if i < j {
        assert(s[i].id < s[j].id);
    }
}

/// The balance state every fresh ledger starts in.
pub open spec fn fresh_balances() -> Balances {
    Balances {
        available: DecVal { units: 0, scale: 4 },
        held: DecVal { units: 0, scale: 4 },
        total: DecVal { units: 0, scale: 4 },
        locked: false,
    }
}

/// The records that belong to client `c` within a full input stream, in
/// arrival order: the partition the registry routes to that client's ledger.
pub open spec fn client_records(ts: Seq<TxModel>, c: u16) -> Seq<TxModel> {
    ts.filter(|t: TxModel| t.client_id == c)
}

/// Appending one record to the stream appends it to exactly its own
/// client's partition and to no other.
pub proof fn lemma_client_records_push(ts: Seq<TxModel>, t: TxModel, c: u16)
    ensures
        t.client_id == c ==> client_records(ts.push(t), c) == client_records(ts, c).push(t),
        t.client_id != c ==> client_records(ts.push(t), c) == client_records(ts, c),
{
    reveal(Seq::filter);
    assert(ts.push(t).drop_last() =~= ts);
}

/// One flat output record: a ledger's settled state with the balances
/// rendered as decimal text.
pub struct SummaryRow {
    /// The client id.
    pub client: u16,
    /// Rendered `available` balance.
    pub available: String,
    /// Rendered `held` balance.
    pub held: String,
    /// Rendered `total` balance.
    pub total: String,
    /// Whether the ledger is locked.
    pub locked: bool,
}

/// Mapping from client id to that client's ledger, in ascending id order.
#[derive(Debug)]
pub struct LedgerRegistry {
    /// The ledgers, sorted by client id, one per client.
    pub accounts: Vec<Account>,
}

impl LedgerRegistry {
    /// Validity of the whole registry.
    pub open spec fn wf(&self) -> bool {
        registry_wf(self.accounts@)
    }

    /// An empty registry.
    pub fn new() -> (r: LedgerRegistry)
        ensures
            r.wf(),
            r.accounts@.len() == 0,
    {
        LedgerRegistry { accounts: Vec::new() }
    }

    /// Route one record to the ledger keyed by its client id, creating that
    /// ledger (fresh balances, empty history) on first sight. The record is
    /// appended to that ledger's history; every other ledger is untouched.
    pub fn add_record(&mut self, transaction: Transaction)
        requires
            old(self).wf(),
            dec_wf(transaction@.amount),
        ensures
            final(self).wf(),
            has_client(final(self).accounts@, transaction.client_id),
            // The touched client's ledger: its history grows by this record;
            // its balances stay what they were (zero for a fresh ledger).
            ({
                let a = client_account(final(self).accounts@, transaction.client_id);
                &&& a.id == transaction.client_id
                &&& a.history() == (if has_client(old(self).accounts@, transaction.client_id) {
                    client_account(old(self).accounts@, transaction.client_id).history()
                } else {
                    Seq::<TxModel>::empty()
                }).push(transaction@)
                &&& a.balances() == (if has_client(old(self).accounts@, transaction.client_id) {
                    client_account(old(self).accounts@, transaction.client_id).balances()
                } else {
                    fresh_balances()
                })
            }),
            // Every other client's ledger is exactly as it was.
            forall|d: u16|
                d != transaction.client_id ==> (has_client(final(self).accounts@, d) <==> has_client(
                    old(self).accounts@,
                    d,
                )),
            forall|d: u16|
                d != transaction.client_id && has_client(old(self).accounts@, d) ==> client_account(
                    final(self).accounts@,
                    d,
                ) == client_account(old(self).accounts@, d),
    {
        let ghost s0 = self.accounts@;
        let c = transaction.client_id;
        let n = self.accounts.len();
        let mut i: usize = 0;
        while i < n && self.accounts[i].id < c
            invariant
                n == self.accounts@.len(),
                0 <= i <= n,
                self.accounts@ == s0,
                forall|j: int| 0 <= j < i ==> s0[j].id < c,
            decreases n - i,
        {
            i = i + 1;
        }
        if i < n && self.accounts[i].id == c {
            proof {
                lemma_client_index_unique(s0, c, i as int);
            }
            self.accounts[i].add_transaction(transaction);
            proof {
                let s1 = self.accounts@;
                assert(s1 == s0.update(i as int, s1[i as int]));
                lemma_client_index_unique(s1, c, i as int);
                assert forall|d: u16| d != c implies (has_client(s1, d) <==> has_client(s0, d))
                    && (has_client(s0, d) ==> client_account(s1, d) == client_account(s0, d)) by {
                    if has_client(s0, d) {
                        let k = choose|k: int| 0 <= k < s0.len() && s0[k].id == d;
                        assert(s1[k].id == d);
                        lemma_client_index_unique(s1, d, k);
                    }
                    if has_client(s1, d) {
                        let k = choose|k: int| 0 <= k < s1.len() && s1[k].id == d;
                        assert(s0[k].id == d);
                    }
                }
            }
        } else {
            let mut fresh = Account::new(c);
            fresh.add_transaction(transaction);
            self.accounts.insert(i, fresh);
            proof {
                let s1 = self.accounts@;
                assert(fresh.history() =~= Seq::<TxModel>::empty().push(transaction@));
                assert(forall|j: int| i <= j < s0.len() ==> c < (#[trigger] s0[j]).id);
                assert forall|p: int, q: int| 0 <= p < q < s1.len() implies s1[p].id < s1[q].id by {
                    if p < i && q > i {
                        assert(s1[p] == s0[p] && s1[q] == s0[q - 1]);
                    }
                }
                assert(!has_client(s0, c));
                lemma_client_index_unique(s1, c, i as int);
                assert forall|d: u16| d != c implies (has_client(s1, d) <==> has_client(s0, d))
                    && (has_client(s0, d) ==> client_account(s1, d) == client_account(s0, d)) by {
                    if has_client(s0, d) {
                        let k = choose|k: int| 0 <= k < s0.len() && s0[k].id == d;
                        let k1 = if k < i { k } else { k + 1 };
                        assert(s1[k1].id == d);
                        lemma_client_index_unique(s1, d, k1);
                    }
                    if has_client(s1, d) {
                        let k = choose|k: int| 0 <= k < s1.len() && s1[k].id == d;
                        if k < i {
                            assert(s0[k].id == d);
                        } else if k > i {
                            assert(s0[k - 1].id == d);
                        }
                    }
                }
            }
        }
    }

    /// Route a whole stream of records, in arrival order. Afterwards a
    /// client has a ledger exactly when it had one before or the stream
    /// holds a record of its; that ledger's history has grown by exactly the
    /// client's own partition of the stream, in stream order; and its
    /// balances are untouched (zero for a ledger the stream created). Every
    /// client's partition is thus replayed independently of all others.
    pub fn add_records(&mut self, transactions: Vec<Transaction>)
        requires
            old(self).wf(),
            crate::account::history_wf(history_model(transactions@)),
        ensures
            final(self).wf(),
            forall|c: u16|
                has_client(final(self).accounts@, c) <==> (has_client(old(self).accounts@, c)
                    || client_records(history_model(transactions@), c).len() > 0),
            forall|c: u16|
                has_client(final(self).accounts@, c) ==> {
                    let a = client_account(final(self).accounts@, c);
                    &&& a.id == c
                    &&& a.history() == (if has_client(old(self).accounts@, c) {
                        client_account(old(self).accounts@, c).history()
                    } else {
                        Seq::<TxModel>::empty()
                    }) + client_records(history_model(transactions@), c)
                    &&& a.balances() == (if has_client(old(self).accounts@, c) {
                        client_account(old(self).accounts@, c).balances()
                    } else {
                        fresh_balances()
                    })
                },
    {
        let ghost s0 = self.accounts@;
        let ghost ts = history_model(transactions@);
        let n = transactions.len();
        let mut i: usize = 0;
        proof {
            assert forall|c: u16| client_records(ts.take(0), c).len() == 0 by {
                assert(ts.take(0) =~= Seq::<TxModel>::empty());
                reveal(Seq::filter);
            }
        }
        while i < n
            invariant
                n == transactions@.len(),
                0 <= i <= n,
                ts == history_model(transactions@),
                s0 == old(self).accounts@,
                registry_wf(s0),
                crate::account::history_wf(ts),
                self.wf(),
                forall|c: u16|
                    has_client(self.accounts@, c) <==> (has_client(s0, c) || client_records(
                        ts.take(i as int),
                        c,
                    ).len() > 0),
                forall|c: u16|
                    has_client(self.accounts@, c) ==> {
                        let a = client_account(self.accounts@, c);
                        &&& a.id == c
                        &&& a.history() == (if has_client(s0, c) {
                            client_account(s0, c).history()
                        } else {
                            Seq::<TxModel>::empty()
                        }) + client_records(ts.take(i as int), c)
                        &&& a.balances() == (if has_client(s0, c) {
                            client_account(s0, c).balances()
                        } else {
                            fresh_balances()
                        })
                    },
            decreases n - i,
        {
            let ghost cur = self.accounts@;
            let t = transactions[i].clone();
            proof {
                assert(t@ == ts[i as int]);
                assert(dec_wf(ts[i as int].amount));
                if has_client(cur, t.client_id) {
                    // The base history below the routed ledger is empty.
                    assert(client_account(cur, t.client_id).id == t.client_id);
                }
            }
            let ghost c0 = t.client_id;
            self.add_record(t);
            proof {
                let s1 = self.accounts@;
                assert(ts.take(i as int + 1) =~= ts.take(i as int).push(ts[i as int]));
                assert forall|c: u16|
                    (has_client(s1, c) <==> (has_client(s0, c) || client_records(
                        ts.take(i as int + 1),
                        c,
                    ).len() > 0)) && (has_client(s1, c) ==> {
                        let a = client_account(s1, c);
                        &&& a.id == c
                        &&& a.history() == (if has_client(s0, c) {
                            client_account(s0, c).history()
                        } else {
                            Seq::<TxModel>::empty()
                        }) + client_records(ts.take(i as int + 1), c)
                        &&& a.balances() == (if has_client(s0, c) {
                            client_account(s0, c).balances()
                        } else {
                            fresh_balances()
                        })
                    }) by {
                    lemma_client_records_push(ts.take(i as int), ts[i as int], c);
                    let base = if has_client(s0, c) {
                        client_account(s0, c).history()
                    } else {
                        Seq::<TxModel>::empty()
                    };
                    if c == c0 {
                        if has_client(cur, c) {
                            assert(client_account(s1, c).history() =~= base + client_records(
                                ts.take(i as int + 1),
                                c,
                            ));
                        } else {
                            assert(client_records(ts.take(i as int), c).len() == 0);
                            assert(client_records(ts.take(i as int), c) =~= Seq::<
                                TxModel,
                            >::empty());
                            assert(client_account(s1, c).history() =~= base + client_records(
                                ts.take(i as int + 1),
                                c,
                            ));
                        }
                    }
                }
            }
            i = i + 1;
        }
        proof {
            assert(ts.take(n as int) =~= ts);
        }
    }

    /// Replay every ledger once, in ascending client order. Each ledger's
    /// settled balances are a function of that ledger's own starting state
    /// and history alone — ledgers are disjoint, so the order in which they
    /// are replayed cannot affect any per-client result.
    pub fn process_all(&mut self)
        requires
            old(self).wf(),
            forall|i: int|
                0 <= i < old(self).accounts@.len() ==> replay_fits(
                    (#[trigger] old(self).accounts@[i]).history(),
                    old(self).accounts@[i].balances(),
                ),
        ensures
            final(self).wf(),
            final(self).accounts@.len() == old(self).accounts@.len(),
            forall|i: int|
                0 <= i < old(self).accounts@.len() ==> {
                    let a0 = old(self).accounts@[i];
                    let a1 = (#[trigger] final(self).accounts@[i]);
                    &&& a1.id == a0.id
                    &&& a1.history() == a0.history()
                    &&& a1.balances() == round_balances(replay(a0.history(), a0.balances()))
                },
    {
        let ghost s0 = self.accounts@;
        let n = self.accounts.len();
        let mut i: usize = 0;
        while i < n
            invariant
                n == self.accounts@.len(),
                n == s0.len(),
                0 <= i <= n,
                forall|j: int|
                    0 <= j < n ==> replay_fits(
                        (#[trigger] s0[j]).history(),
                        s0[j].balances(),
                    ),
                registry_wf(s0),
                forall|j: int| i <= j < n ==> self.accounts@[j] == s0[j],
                forall|j: int|
                    0 <= j < i ==> {
                        let a0 = s0[j];
                        let a1 = (#[trigger] self.accounts@[j]);
                        &&& a1.id == a0.id
                        &&& a1.history() == a0.history()
                        &&& a1.balances() == round_balances(replay(a0.history(), a0.balances()))
                        &&& a1.inv()
                    },
            decreases n - i,
        {
            proof {
                assert(self.accounts@[i as int] == s0[i as int]);
                assert(s0[i as int].inv());
            }
            self.accounts[i].process_transactions();
            i = i + 1;
        }
    }

    /// Expose each ledger's settled state as a flat output record, in
    /// ascending client order: id, the three balances rendered as decimal
    /// text, and the lock flag. Histories are not exposed.
    pub fn summary_rows(&self) -> (rows: Vec<SummaryRow>)
        requires
            self.wf(),
        ensures
            rows@.len() == self.accounts@.len(),
            forall|i: int|
                0 <= i < rows@.len() ==> {
                    let a = self.accounts@[i];
                    let r = (#[trigger] rows@[i]);
                    &&& r.client == a.id
                    &&& r.locked == a.locked
                    &&& r.available@ == decimal_string_of(a.available@.units, a.available@.scale)
                    &&& r.held@ == decimal_string_of(a.held@.units, a.held@.scale)
                    &&& r.total@ == decimal_string_of(a.total@.units, a.total@.scale)
                },
    {
        let n = self.accounts.len();
        let mut rows: Vec<SummaryRow> = Vec::new();
        let mut i: usize = 0;
        while i < n
            invariant
                n == self.accounts@.len(),
                0 <= i <= n,
                self.wf(),
                rows@.len() == i,
                forall|j: int|
                    0 <= j < i ==> {
                        let a = self.accounts@[j];
                        let r = (#[trigger] rows@[j]);
                        &&& r.client == a.id
                        &&& r.locked == a.locked
                        &&& r.available@ == decimal_string_of(a.available@.units, a.available@.scale)
                        &&& r.held@ == decimal_string_of(a.held@.units, a.held@.scale)
                        &&& r.total@ == decimal_string_of(a.total@.units, a.total@.scale)
                    },
            decreases n - i,
        {
            let a = &self.accounts[i];
            let row = SummaryRow {
                client: a.id,
                available: a.available.to_decimal_string(),
                held: a.held.to_decimal_string(),
                total: a.total.to_decimal_string(),
                locked: a.locked,
            };
            rows.push(row);
            i = i + 1;
        }
        rows
    }
}

} // verus!
