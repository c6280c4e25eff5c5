//! Transaction records.
//!
//! A [`Transaction`] is an immutable-after-construction value holding one
//! input row: a kind (an open string in the input format), the client it
//! belongs to, its transaction id, and a decimal amount. The kind string is
//! classified into the closed [`TxKind`] variants when a record is applied;
//! an unrecognized string is an explicit [`TxKind::Unknown`], never an error.
use vstd::prelude::*;

verus! {

use crate::amount::{Amount, DecVal};
use vstd::string::StringExecFns;

/// The closed set of transaction kinds, plus the unrecognized case.
#[derive(Clone, Copy, Debug, PartialEq, Eq, Structural)]
pub enum TxKind {
    Deposit,
    Withdrawal,
    Dispute,
    Resolve,
    Chargeback,
    Unknown,
}

/// The kind a type string denotes; anything but the five known spellings is
/// `Unknown`.
pub open spec fn kind_of(s: Seq<char>) -> TxKind {
    if s == "deposit"@ {
        TxKind::Deposit
    } else if s == "withdrawal"@ {
        TxKind::Withdrawal
    } else if s == "dispute"@ {
        TxKind::Dispute
    } else if s == "resolve"@ {
        TxKind::Resolve
    } else if s == "chargeback"@ {
        TxKind::Chargeback
    } else {
        TxKind::Unknown
    }
}

/// Mathematical model of a transaction record: its classified kind, the ids,
/// and the amount's decimal model.
pub ghost struct TxModel {
    pub kind: TxKind,
    pub client_id: u16,
    pub id: u32,
    pub amount: DecVal,
}

/// One input row: kind string, owning client, transaction id, amount.
///
/// For `Dispute`, `Resolve` and `Chargeback` rows the `id` field carries the
/// id of the referenced deposit or withdrawal, not a fresh identifier, and
/// the `amount` field is semantically ignored.
#[derive(Debug)]
pub struct Transaction {
    /// The kind, as spelled in the input (`"deposit"`, `"withdrawal"`, ...).
    pub type_: String,
    /// The client whose ledger this record belongs to.
    pub client_id: u16,
    /// Transaction id, or the referenced id for dispute-family records.
    pub id: u32,
    /// Fixed-point decimal amount; zero when the input had none.
    pub amount: Amount,
}

impl View for Transaction {
    type V = TxModel;

    open spec fn view(&self) -> TxModel {
        TxModel {
            kind: kind_of(self.type_@),
            client_id: self.client_id,
            id: self.id,
            amount: self.amount@,
        }
    }
}

impl Clone for Transaction {
    fn clone(&self) -> (res: Self)
        ensures
            res == *self,
    {
        Transaction {
            type_: self.type_.clone(),
            client_id: self.client_id,
            id: self.id,
            amount: self.amount,
        }
    }
}

impl Transaction {
    /// A record with the given id and every other field defaulted: an empty
    /// kind string, client zero, and a zero amount at scale four.
    pub fn new(id: u32) -> (r: Transaction)
        ensures
            r@ == (TxModel {
                kind: TxKind::Unknown,
                client_id: 0,
                id: id,
                amount: DecVal { units: 0, scale: 4 },
            }),
            r.type_@ == Seq::<char>::empty(),
    {
        let r = Transaction { type_: String::new(), client_id: 0, id: id, amount: Amount::zero() };
        proof {
            reveal_strlit("deposit");
            reveal_strlit("withdrawal");
            reveal_strlit("dispute");
            reveal_strlit("resolve");
            reveal_strlit("chargeback");
            assert(r.type_@.len() == 0 && "deposit"@.len() == 7 && "withdrawal"@.len() == 10
                && "dispute"@.len() == 7 && "resolve"@.len() == 7 && "chargeback"@.len() == 10);
            assert(kind_of(r.type_@) == TxKind::Unknown);
        }
        r
    }

    /// Classify this record's kind string.
    pub fn kind(&self) -> (k: TxKind)
        ensures
            k == kind_of(self.type_@),
    {
        if self.type_ == String::from_str("deposit") {
            TxKind::Deposit
        } else if self.type_ == String::from_str("withdrawal") {
            TxKind::Withdrawal
        } else if self.type_ == String::from_str("dispute") {
            TxKind::Dispute
        } else if self.type_ == String::from_str("resolve") {
            TxKind::Resolve
        } else if self.type_ == String::from_str("chargeback") {
            TxKind::Chargeback
        } else {
            TxKind::Unknown
        }
    }
}

} // verus!
