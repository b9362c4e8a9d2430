use vstd::prelude::*;
use crate::fee::Fee;
use crate::ledger::{LedgerError, TxReceipt};
use crate::text::hex_digit;

verus! {

pub type TransactionId = u128;

#[derive(Debug)]
pub struct KeyValuePair {
    pub k: String,
    pub v: String,
}

/// A call to make on a receiver after a transfer.
#[derive(Debug)]
pub struct CallData {
    pub method: String,
    pub args: Vec<u8>,
}

/// The outcome of a transfer as callers see it: the transaction id (its block
/// height), and the errors of any follow-up calls; or the error's name.
#[derive(Debug)]
pub enum TransferResult {
    Succeeded(TransactionId, Option<Vec<String>>),
    Failed(String),
}

#[derive(Debug)]
pub enum BurnResult {
    Succeeded,
    Failed(String),
}

#[derive(Debug)]
pub enum ApproveResult {
    Succeeded(Option<String>),
    Failed(String),
}

/// The decimal digits of `n`, most significant first.
pub open spec fn decimal_text(n: nat) -> Seq<char>
    decreases n,
{
    if n < 10 {
        seq![hex_digit(n as int)]
    } else {
        decimal_text(n / 10).push(hex_digit((n % 10) as int))
    }
}

/// Relies on `u128::to_string`: the decimal digits, no sign or padding.
#[verifier::external_body]
fn decimal_string(n: u128) -> (r: String)
    ensures
        r@ == decimal_text(n as nat),
{
    n.to_string()
}

impl Fee {
    /// The fee setting as text: the amount of a fixed fee, or
    /// `{lowest:L,rate:R}`.
    pub fn to_text(&self) -> (r: String)
        ensures
            r@ == match *self {
                Fee::Fixed(f) => decimal_text(f as nat),
                Fee::RateWithLowestLimit(l, rate) => seq!['{', 'l', 'o', 'w', 'e', 's', 't', ':']
                    + decimal_text(l as nat) + seq![',', 'r', 'a', 't', 'e', ':'] + decimal_text(rate as nat)
                    + seq!['}'],
            },
    {
        match *self {
            Fee::Fixed(f) => decimal_string(f),
            Fee::RateWithLowestLimit(l, rate) => {
                proof {
                    reveal_strlit("{lowest:");
                    reveal_strlit(",rate:");
                    reveal_strlit("}");
                }
                let mut text = String::from_str("{lowest:");
                text.append(decimal_string(l).as_str());
                text.append(",rate:");
                text.append(decimal_string(rate as u128).as_str());
                text.append("}");
                assert(text@ =~= seq!['{', 'l', 'o', 'w', 'e', 's', 't', ':'] + decimal_text(l as nat)
                    + seq![',', 'r', 'a', 't', 'e', ':'] + decimal_text(rate as nat) + seq!['}']);
                text
            },
        }
    }
}

/// The name of an error, as callers see it.
pub open spec fn error_name(e: LedgerError) -> Seq<char> {
    match e {
        LedgerError::NotInitialized => "NotInitialized"@,
        LedgerError::AlreadyInitialized => "AlreadyInitialized"@,
        LedgerError::Unauthorized => "Unauthorized"@,
        LedgerError::InvalidAmount => "InvalidAmount"@,
        LedgerError::InsufficientBalance => "InsufficientBalance"@,
        LedgerError::InsufficientAllowance => "InsufficientAllowance"@,
        LedgerError::DuplicateTransaction => "DuplicateTransaction"@,
        LedgerError::NotFound => "NotFound"@,
    }
}

impl LedgerError {
    pub fn name(&self) -> (r: String)
        ensures
            r@ == error_name(*self),
    {
        let s = match self {
            LedgerError::NotInitialized => "NotInitialized",
            LedgerError::AlreadyInitialized => "AlreadyInitialized",
            LedgerError::Unauthorized => "Unauthorized",
            LedgerError::InvalidAmount => "InvalidAmount",
            LedgerError::InsufficientBalance => "InsufficientBalance",
            LedgerError::InsufficientAllowance => "InsufficientAllowance",
            LedgerError::DuplicateTransaction => "DuplicateTransaction",
            LedgerError::NotFound => "NotFound",
        };
        String::from_str(s)
    }
}

impl TransferResult {
    /// The caller's view of a transfer's outcome, with the errors of any
    /// follow-up housekeeping.
    pub fn from_outcome(r: &Result<TxReceipt, LedgerError>, follow_up: Option<Vec<String>>) -> (t: TransferResult)
        ensures
            match r {
                Ok(receipt) => t matches TransferResult::Succeeded(id, f) && id == receipt.height && f == follow_up,
                Err(e) => t matches TransferResult::Failed(m) && m@ == error_name(*e),
            },
    {
        match r {
            Ok(receipt) => TransferResult::Succeeded(receipt.height as u128, follow_up),
            Err(e) => TransferResult::Failed(e.name()),
        }
    }
}

impl BurnResult {
    pub fn from_outcome(r: &Result<TxReceipt, LedgerError>) -> (t: BurnResult)
        ensures
            match r {
                Ok(_) => t is Succeeded,
                Err(e) => t matches BurnResult::Failed(m) && m@ == error_name(*e),
            },
    {
        match r {
            Ok(_) => BurnResult::Succeeded,
            Err(e) => BurnResult::Failed(e.name()),
        }
    }
}

impl ApproveResult {
    pub fn from_outcome(r: &Result<TxReceipt, LedgerError>, follow_up: Option<String>) -> (t: ApproveResult)
        ensures
            match r {
                Ok(_) => t matches ApproveResult::Succeeded(f) && f == follow_up,
                Err(e) => t matches ApproveResult::Failed(m) && m@ == error_name(*e),
            },
    {
        match r {
            Ok(_) => ApproveResult::Succeeded(follow_up),
            Err(e) => ApproveResult::Failed(e.name()),
        }
    }
}

} // verus!
