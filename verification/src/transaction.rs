//! Transaction values: identities, kinds and the immutable record.

use vstd::prelude::*;

use crate::account::ClientId;
use crate::codec::{all_digits, digits_value, parse_digits_capped};
use crate::currency::Currency;
use crate::errors::ParseError;

verus! {

/// Opaque unsigned identity of a transaction, unique within a client's
/// history; later disputes, resolves and chargebacks reference it.
#[derive(Debug, Clone, Copy, PartialEq, Eq, Hash, Structural)]
pub struct TransactionId {
    id: u32,
}

impl View for TransactionId {
    type V = u32;

    /// The underlying integer identity.
    closed spec fn view(&self) -> u32 {
        self.id
    }
}

impl TransactionId {
    /// The underlying integer identity.
    pub fn value(&self) -> (v: u32)
        ensures
            v == self@,
    {
        self.id
    }
}

impl TransactionId {
    /// The identity wrapping the given integer.
    pub fn from(value: u32) -> (r: TransactionId)
        ensures
            r@ == value,
    {
        TransactionId { id: value }
    }

    /// Parse a transaction id from its decimal digits; fails with
    /// `InvalidTransactionId` on anything but an in-range unsigned integer.
    pub fn parse(s: &[u8]) -> (r: Result<TransactionId, ParseError>)
        ensures
            match r {
                Ok(t) => {
                    &&& s@.len() > 0
                    &&& all_digits(s@)
                    &&& digits_value(s@) <= u32::MAX as int
                    &&& t@ == digits_value(s@)
                },
                Err(e) => {
                    &&& e == ParseError::InvalidTransactionId
                    &&& !{
                        &&& s@.len() > 0
                        &&& all_digits(s@)
                        &&& digits_value(s@) <= u32::MAX as int
                    }
                },
            },
    {
        proof {
            assert(s@.subrange(0, s@.len() as int) =~= s@);
        }
        match parse_digits_capped(s, 0, s.len(), 4294967295) {
            Some(v) => Ok(TransactionId { id: v as u32 }),
            None => Err(ParseError::InvalidTransactionId),
        }
    }
}

/// The ASCII lower-case folding of one byte.
pub open spec fn to_lower(b: u8) -> u8 {
    if 65 <= b <= 90 {
        (b + 32) as u8
    } else {
        b
    }
}

/// Case-insensitive equality of a byte sequence with a lower-case token.
pub open spec fn matches_token(s: Seq<u8>, token: Seq<u8>) -> bool {
    s.len() == token.len() && forall|i: int|
        0 <= i < s.len() ==> to_lower(#[trigger] s[i]) == token[i]
}

/// The five requested ledger operations.
///
/// Deposits and withdrawals carry a meaningful amount; disputes, resolves and
/// chargebacks reference a prior transaction by id and carry no new amount.
#[derive(Debug, Clone, Copy, PartialEq, Eq, Hash, Structural)]
pub enum TransactionType {
    /// Credit the available balance.
    Deposit,
    /// Debit the available balance.
    Withdrawal,
    /// Move a referenced amount from available to held.
    Dispute,
    /// Release a disputed amount back to available.
    Resolve,
    /// Withdraw a disputed amount and lock the account.
    Chargeback,
}

impl TransactionType {
    /// The lower-case ASCII token naming this transaction type.
    pub open spec fn spec_token(self) -> Seq<u8> {
        match self {
            TransactionType::Deposit => seq![100u8, 101u8, 112u8, 111u8, 115u8, 105u8, 116u8],
            TransactionType::Withdrawal => seq![
                119u8,
                105u8,
                116u8,
                104u8,
                100u8,
                114u8,
                97u8,
                119u8,
                97u8,
                108u8,
            ],
            TransactionType::Dispute => seq![100u8, 105u8, 115u8, 112u8, 117u8, 116u8, 101u8],
            TransactionType::Resolve => seq![114u8, 101u8, 115u8, 111u8, 108u8, 118u8, 101u8],
            TransactionType::Chargeback => seq![
                99u8,
                104u8,
                97u8,
                114u8,
                103u8,
                101u8,
                98u8,
                97u8,
                99u8,
                107u8,
            ],
        }
    }

    /// Parse a transaction-type token, case-insensitively; fails with
    /// `InvalidTransactionType` on any unknown token.
    pub fn parse(s: &[u8]) -> (r: Result<TransactionType, ParseError>)
        ensures
            match r {
                Ok(t) => matches_token(s@, t.spec_token()),
                Err(e) => {
                    &&& e == ParseError::InvalidTransactionType
                    &&& (forall|t: TransactionType| !matches_token(s@, #[trigger] t.spec_token()))
                },
            },
    {
        if s.len() == 7 {
            let b0 = lower_byte(s[0]);
            let b1 = lower_byte(s[1]);
            let b2 = lower_byte(s[2]);
            let b3 = lower_byte(s[3]);
            let b4 = lower_byte(s[4]);
            let b5 = lower_byte(s[5]);
            let b6 = lower_byte(s[6]);
            if b0 == 100 && b1 == 101 && b2 == 112 && b3 == 111 && b4 == 115 && b5 == 105 && b6
                == 116 {
                return Ok(TransactionType::Deposit);
            }
            if b0 == 100 && b1 == 105 && b2 == 115 && b3 == 112 && b4 == 117 && b5 == 116 && b6
                == 101 {
                return Ok(TransactionType::Dispute);
            }
            if b0 == 114 && b1 == 101 && b2 == 115 && b3 == 111 && b4 == 108 && b5 == 118 && b6
                == 101 {
                return Ok(TransactionType::Resolve);
            }
            return Err(ParseError::InvalidTransactionType);
        }
        if s.len() == 10 {
            let b0 = lower_byte(s[0]);
            let b1 = lower_byte(s[1]);
            let b2 = lower_byte(s[2]);
            let b3 = lower_byte(s[3]);
            let b4 = lower_byte(s[4]);
            let b5 = lower_byte(s[5]);
            let b6 = lower_byte(s[6]);
            let b7 = lower_byte(s[7]);
            let b8 = lower_byte(s[8]);
            let b9 = lower_byte(s[9]);
            if b0 == 119 && b1 == 105 && b2 == 116 && b3 == 104 && b4 == 100 && b5 == 114 && b6
                == 97 && b7 == 119 && b8 == 97 && b9 == 108 {
                return Ok(TransactionType::Withdrawal);
            }
            if b0 == 99 && b1 == 104 && b2 == 97 && b3 == 114 && b4 == 103 && b5 == 101 && b6 == 98
                && b7 == 97 && b8 == 99 && b9 == 107 {
                return Ok(TransactionType::Chargeback);
            }
            return Err(ParseError::InvalidTransactionType);
        }
        Err(ParseError::InvalidTransactionType)
    }
}

/// The ASCII lower-case folding of one byte.
fn lower_byte(b: u8) -> (r: u8)
    ensures
        r == to_lower(b),
{
    if b >= 65 && b <= 90 {
        b + 32
    } else {
        b
    }
}

/// One immutable requested ledger operation.
#[derive(Debug, Clone, Copy, PartialEq, Eq, Structural)]
pub struct Transaction {
    /// Which of the five operations is requested.
    pub transaction_type: TransactionType,
    /// The account the operation targets.
    pub client_id: ClientId,
    /// This operation's own id for deposits and withdrawals; the referenced
    /// id for disputes, resolves and chargebacks.
    pub transaction_id: TransactionId,
    /// The amount moved; zero and ignored for dispute, resolve, chargeback.
    pub amount: Currency,
}

impl Transaction {
    /// A transaction record with the given fields.
    pub fn new(
        transaction_type: TransactionType,
        client_id: ClientId,
        transaction_id: TransactionId,
        amount: Currency,
    ) -> (t: Transaction)
        ensures
            t == (Transaction { transaction_type, client_id, transaction_id, amount }),
    {
        Transaction { transaction_type, client_id, transaction_id, amount }
    }
}

} // verus!
