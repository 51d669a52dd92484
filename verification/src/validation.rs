//! Contextual validation of a transaction sequence.
//!
//! Checks, before the ledger runs, that ordinals are sequential from one,
//! dates never decrease, no input amount is zero, crypto balances never go
//! negative, and each transaction type's asset shapes are sensible.  On
//! success it returns the final balance of every crypto asset.

use vstd::prelude::*;
use crate::amount::{spec_add, spec_sub, Amount};
use crate::types::{AssetType, Date, Transaction, TransactionType};

verus! {

/// Why a transaction sequence was rejected.
#[derive(Clone, Copy, Debug, PartialEq, Eq, Structural)]
pub enum ValidationError {
    /// The ordinal is not the successor of the previous one.
    OrdinalMismatch { expected: u32, found: u32 },
    /// The date is earlier than the previous transaction's date.
    DateOutOfOrder { ordinal: u32 },
    /// The input amount is zero.
    ZeroInput { ordinal: u32 },
    /// A crypto input would drive its balance negative.
    InsufficientBalance { ordinal: u32 },
    /// A crypto input's asset has no balance at all.
    UnknownAsset { ordinal: u32 },
    /// An exact balance is not representable.
    Overflow { ordinal: u32 },
    /// The transaction's asset shapes do not fit its type.
    InvalidForType { ordinal: u32 },
}

/// The asset shapes each transaction type requires.
///
/// Interest, invoices and buys take fiat in and a non-zero amount of
/// crypto out; swaps exchange non-zero amounts of two different non-fiat
/// assets; sales take crypto in and fiat out (zero proceeds are allowed,
/// e.g. for fees).  Other types carry no extra shape requirements.
pub open spec fn spec_type_ok(tx: Transaction) -> bool {
    match tx.tx_type {
        TransactionType::Interest | TransactionType::Invoice | TransactionType::Buying => {
            &&& tx.input_type.spec_is_fiat()
            &&& !tx.output_type.spec_is_fiat()
            &&& tx.output_amount.num != 0
        },
        TransactionType::Swap => {
            &&& !tx.input_type.spec_is_fiat()
            &&& !tx.output_type.spec_is_fiat()
            &&& tx.output_amount.num != 0
            &&& tx.input_type@ != tx.output_type@
        },
        TransactionType::Selling => {
            &&& !tx.input_type.spec_is_fiat()
            &&& tx.output_type.spec_is_fiat()
        },
        _ => true,
    }
}

/// Check the asset shapes for the transaction's type.
fn type_ok(tx: &Transaction) -> (r: bool)
    ensures
        r == spec_type_ok(*tx),
{
    match tx.tx_type {
        TransactionType::Interest | TransactionType::Invoice | TransactionType::Buying => {
            tx.input_type.is_fiat() && !tx.output_type.is_fiat() && !tx.output_amount.is_zero()
        },
        TransactionType::Swap => {
            !tx.input_type.is_fiat() && !tx.output_type.is_fiat() && !tx.output_amount.is_zero()
                && !(tx.input_type == tx.output_type)
        },
        TransactionType::Selling => !tx.input_type.is_fiat() && tx.output_type.is_fiat(),
        _ => true,
    }
}

/// First index holding `asset` in the balance table; `len` if none.
pub open spec fn spec_find_balance(bals: Seq<(AssetType, Amount)>, asset: Seq<char>, i: int) -> int
    decreases bals.len() - i,
    when 0 <= i <= bals.len()
{
    if i >= bals.len() {
        i
    } else if bals[i].0@ == asset {
        i
    } else {
        spec_find_balance(bals, asset, i + 1)
    }
}

fn find_balance(bals: &Vec<(AssetType, Amount)>, asset: &AssetType) -> (r: usize)
    ensures
        r == spec_find_balance(bals@, asset@, 0),
        r <= bals@.len(),
{
    let n = bals.len();
    let mut i: usize = 0;
    while i < n
        invariant
            n == bals@.len(),
            0 <= i <= n,
            spec_find_balance(bals@, asset@, 0) == spec_find_balance(bals@, asset@, i as int),
        decreases n - i,
    {
        if bals[i].0 == *asset {
            return i;
        }
        i += 1;
    }
    i
}

/// State of the validation fold.
pub struct ValState {
    /// The last ordinal seen; the next transaction must carry its successor.
    pub prev_ordinal: u32,
    /// The last date seen, if any.
    pub prev_date: Option<Date>,
    /// Current balance of each crypto asset, in first-appearance order.
    pub bals: Seq<(AssetType, Amount)>,
    /// The first failure, if any.
    pub error: Option<ValidationError>,
}

/// Validate one transaction against the state.
pub open spec fn spec_validate_step(st: ValState, tx: Transaction) -> ValState {
    if st.error is Some {
        st
    } else if st.prev_ordinal == u32::MAX || tx.ordinal != st.prev_ordinal + 1 {
        ValState {
            error: Some(ValidationError::OrdinalMismatch {
                expected: if st.prev_ordinal == u32::MAX {
                    u32::MAX
                } else {
                    (st.prev_ordinal + 1) as u32
                },
                found: tx.ordinal,
            }),
            ..st
        }
    } else if st.prev_date matches Some(d) && !d.spec_le(tx.date) {
        ValState { error: Some(ValidationError::DateOutOfOrder { ordinal: tx.ordinal }), ..st }
    } else if tx.input_amount.num == 0 {
        ValState { error: Some(ValidationError::ZeroInput { ordinal: tx.ordinal }), ..st }
    } else {
        let st1 = ValState {
            prev_ordinal: tx.ordinal,
            prev_date: Some(tx.date),
            bals: st.bals,
            error: None,
        };
        let st2 = if tx.input_type.spec_is_crypto() {
            let i = spec_find_balance(st1.bals, tx.input_type@, 0);
            if i >= st1.bals.len() {
                ValState {
                    error: Some(ValidationError::UnknownAsset { ordinal: tx.ordinal }),
                    ..st1
                }
            } else {
                match spec_sub(st1.bals[i].1, tx.input_amount) {
                    None => ValState {
                        error: Some(ValidationError::Overflow { ordinal: tx.ordinal }),
                        ..st1
                    },
                    Some(nb) => {
                        if nb.num < 0 {
                            ValState {
                                error: Some(
                                    ValidationError::InsufficientBalance { ordinal: tx.ordinal },
                                ),
                                ..st1
                            }
                        } else {
                            ValState { bals: st1.bals.update(i, (st1.bals[i].0, nb)), ..st1 }
                        }
                    },
                }
            }
        } else {
            st1
        };
        if st2.error is Some {
            st2
        } else {
            let st3 = if tx.output_type.spec_is_crypto() {
                let i = spec_find_balance(st2.bals, tx.output_type@, 0);
                if i >= st2.bals.len() {
                    ValState { bals: st2.bals.push((tx.output_type, tx.output_amount)), ..st2 }
                } else {
                    match spec_add(st2.bals[i].1, tx.output_amount) {
                        None => ValState {
                            error: Some(ValidationError::Overflow { ordinal: tx.ordinal }),
                            ..st2
                        },
                        Some(nb) => ValState {
                            bals: st2.bals.update(i, (st2.bals[i].0, nb)),
                            ..st2
                        },
                    }
                }
            } else {
                st2
            };
            if st3.error is Some {
                st3
            } else if !spec_type_ok(tx) {
                ValState {
                    error: Some(ValidationError::InvalidForType { ordinal: tx.ordinal }),
                    ..st3
                }
            } else {
                st3
            }
        }
    }
}

/// The validation model: a left fold of `spec_validate_step`.
pub open spec fn spec_validate(txs: Seq<Transaction>) -> ValState
    decreases txs.len(),
{
    if txs.len() == 0 {
        ValState { prev_ordinal: 0, prev_date: None, bals: Seq::empty(), error: None }
    } else {
        spec_validate_step(spec_validate(txs.drop_last()), txs.last())
    }
}

/// Once a prefix of the fold fails, the whole fold fails with that error.
pub proof fn lemma_validate_error_persists(txs: Seq<Transaction>, k: int)
    requires
        0 <= k <= txs.len(),
        spec_validate(txs.take(k)).error is Some,
    ensures
        spec_validate(txs).error == spec_validate(txs.take(k)).error,
    decreases txs.len() - k,
{
    if k == txs.len() {
        assert(txs.take(k) =~= txs);
    } else {
        assert(txs.take(k + 1).drop_last() =~= txs.take(k));
        assert(txs.take(k + 1).last() == txs[k]);
        lemma_validate_error_persists(txs, k + 1);
    }
}

/// All balances are well-formed amounts.
pub open spec fn bals_wf(bals: Seq<(AssetType, Amount)>) -> bool {
    forall|i: int| 0 <= i < bals.len() ==> (#[trigger] bals[i]).1.wf()
}

/// Validate the transactions and return the final crypto balances.
///
/// The checks, in order per transaction: ordinals are sequential starting
/// at one; dates never decrease; the input amount is non-zero; a crypto
/// input's balance exists and stays non-negative; a crypto output's balance
/// is increased (or created); and the asset shapes fit the transaction
/// type.  Returns exactly the `spec_validate` model's result.
pub fn context_validation(transactions: &Vec<Transaction>) -> (r: Result<
    Vec<(AssetType, Amount)>,
    ValidationError,
>)
    requires
        forall|i: int| 0 <= i < transactions@.len() ==> (#[trigger] transactions@[i]).wf(),
    ensures
        ({
            let m = spec_validate(transactions@);
            match r {
                Ok(bals) => m.error is None && m.bals == bals@,
                Err(e) => m.error == Some(e),
            }
        }),
{
    let mut prev_ordinal: u32 = 0;
    let mut prev_date: Option<Date> = None;
    let mut bals: Vec<(AssetType, Amount)> = Vec::new();
    proof {
        assert(transactions@.take(0) =~= Seq::<Transaction>::empty());
    }
    let n = transactions.len();
    for idx in 0..n
        invariant
            n == transactions@.len(),
            forall|i: int| 0 <= i < transactions@.len() ==> (#[trigger] transactions@[i]).wf(),
            bals_wf(bals@),
            spec_validate(transactions@.take(idx as int)) == (ValState {
                prev_ordinal,
                prev_date,
                bals: bals@,
                error: None,
            }),
    {
        let ghost pre = ValState { prev_ordinal, prev_date, bals: bals@, error: None };
        let tx = &transactions[idx];
        proof {
            assert(transactions@.take(idx as int + 1).drop_last() =~= transactions@.take(
                idx as int,
            ));
            assert(transactions@.take(idx as int + 1).last() == transactions@[idx as int]);
        }
        if prev_ordinal == u32::MAX || tx.ordinal != prev_ordinal + 1 {
            let expected: u32 = if prev_ordinal == u32::MAX {
                u32::MAX
            } else {
                prev_ordinal + 1
            };
            let e = ValidationError::OrdinalMismatch { expected, found: tx.ordinal };
            proof {
                lemma_validate_error_persists(transactions@, idx as int + 1);
            }
            return Err(e);
        }
        if let Some(d) = prev_date {
            if !d.le(&tx.date) {
                let e = ValidationError::DateOutOfOrder { ordinal: tx.ordinal };
                proof {
                    lemma_validate_error_persists(transactions@, idx as int + 1);
                }
                return Err(e);
            }
        }
        if tx.input_amount.is_zero() {
            let e = ValidationError::ZeroInput { ordinal: tx.ordinal };
            proof {
                lemma_validate_error_persists(transactions@, idx as int + 1);
            }
            return Err(e);
        }
        prev_ordinal = tx.ordinal;
        prev_date = Some(tx.date);
        if tx.input_type.is_crypto() {
            let i = find_balance(&bals, &tx.input_type);
            if i >= bals.len() {
                let e = ValidationError::UnknownAsset { ordinal: tx.ordinal };
                proof {
                    lemma_validate_error_persists(transactions@, idx as int + 1);
                }
                return Err(e);
            }
            match bals[i].1.checked_sub(&tx.input_amount) {
                None => {
                    let e = ValidationError::Overflow { ordinal: tx.ordinal };
                    proof {
                        lemma_validate_error_persists(transactions@, idx as int + 1);
                    }
                    return Err(e);
                },
                Some(nb) => {
                    if nb.num < 0 {
                        let e = ValidationError::InsufficientBalance { ordinal: tx.ordinal };
                        proof {
                            lemma_validate_error_persists(transactions@, idx as int + 1);
                        }
                        return Err(e);
                    }
                    let ghost pre_bals = bals@;
                    let a = bals[i].0.clone();
                    bals[i] = (a, nb);
                    proof {
                        assert(bals@ =~= pre_bals.update(i as int, (pre_bals[i as int].0, nb)));
                    }
                },
            }
        }
        if tx.output_type.is_crypto() {
            let i = find_balance(&bals, &tx.output_type);
            if i >= bals.len() {
                bals.push((tx.output_type.clone(), tx.output_amount));
            } else {
                match bals[i].1.checked_add(&tx.output_amount) {
                    None => {
                        let e = ValidationError::Overflow { ordinal: tx.ordinal };
                        proof {
                            lemma_validate_error_persists(transactions@, idx as int + 1);
                        }
                        return Err(e);
                    },
                    Some(nb) => {
                        let ghost pre_bals = bals@;
                        let a = bals[i].0.clone();
                        bals[i] = (a, nb);
                        proof {
                            assert(bals@ =~= pre_bals.update(
                                i as int,
                                (pre_bals[i as int].0, nb),
                            ));
                        }
                    },
                }
            }
        }
        if !type_ok(tx) {
            let e = ValidationError::InvalidForType { ordinal: tx.ordinal };
            proof {
                lemma_validate_error_persists(transactions@, idx as int + 1);
            }
            return Err(e);
        }
        proof {
            assert(spec_validate_step(pre, transactions@[idx as int]) == (ValState {
                prev_ordinal,
                prev_date,
                bals: bals@,
                error: None,
            }));
        }
    }
    proof {
        assert(transactions@.take(n as int) =~= transactions@);
    }
    Ok(bals)
}

} // verus!
