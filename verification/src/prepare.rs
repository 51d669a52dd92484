//! Preparation of the raw transaction list.
//!
//! Parsed transactions may arrive from several files and sheets; before the
//! ledger runs they are sorted by date (stably, so same-date rows keep
//! their arrival order) and renumbered with sequential ordinals starting
//! at one — exactly the input shape the engine and the validator expect.

use vstd::prelude::*;
use vstd::seq_lib::{to_multiset_build, to_multiset_insert};
use crate::types::Transaction;

verus! {

/// A transaction with its ordinal erased; what sorting and renumbering
/// must preserve.
pub open spec fn spec_payload(t: Transaction) -> Transaction {
    Transaction { ordinal: 0, ..t }
}

/// The payloads of a transaction sequence.
pub open spec fn spec_payloads(s: Seq<Transaction>) -> Seq<Transaction> {
    s.map(|i: int, t: Transaction| spec_payload(t))
}

/// Dates never decrease along the sequence.
pub open spec fn spec_sorted_by_date(s: Seq<Transaction>) -> bool {
    forall|a: int, b: int|
        0 <= a <= b < s.len() ==> (#[trigger] s[a]).date.spec_le(#[trigger] s[b].date)
}

/// Provider of the transactions for the FIFO calculation: collects what
/// the parsers produced and prepares it for validation and processing.
#[derive(Debug)]
pub struct TransactionsProvider {
    /// Parsed transactions, in arrival order.
    pub transactions: Vec<Transaction>,
}

impl TransactionsProvider {
    /// Wrap the collected transactions.
    pub fn new(transactions: Vec<Transaction>) -> (r: Self)
        ensures
            r.transactions == transactions,
    {
        TransactionsProvider { transactions }
    }

    /// Consume the provider and return the transactions sorted by date and
    /// renumbered with ordinals `1, 2, ...` in the new order.  Apart from
    /// the ordinals, the result holds exactly the collected transactions.
    pub fn get(self) -> (r: Vec<Transaction>)
        requires
            self.transactions@.len() <= u32::MAX,
        ensures
            r@.len() == self.transactions@.len(),
            forall|k: int| 0 <= k < r@.len() ==> (#[trigger] r@[k]).ordinal == k + 1,
            spec_sorted_by_date(r@),
            spec_payloads(r@).to_multiset() == spec_payloads(self.transactions@).to_multiset(),
    {
        let txs = self.transactions;
        let mut sorted: Vec<Transaction> = Vec::new();
        proof {
            assert(spec_payloads(txs@.take(0)) =~= Seq::<Transaction>::empty());
            assert(spec_payloads(sorted@) =~= Seq::<Transaction>::empty());
        }
        let n = txs.len();
        for i in 0..n
            invariant
                n == txs@.len(),
                spec_sorted_by_date(sorted@),
                sorted@.len() == i,
                spec_payloads(sorted@).to_multiset() == spec_payloads(
                    txs@.take(i as int),
                ).to_multiset(),
        {
            let ghost pre = sorted@;
            let tx = txs[i].clone();
            proof {
                assert(tx == txs@[i as int]);
            }
            // Stable insertion: the new row goes after every row whose date
            // is on or before its own.
            let mut pos: usize = 0;
            while pos < sorted.len() && sorted[pos].date.le(&tx.date)
                invariant
                    pos <= sorted@.len(),
                    sorted@ == pre,
                    forall|j: int| 0 <= j < pos ==> (#[trigger] sorted@[j]).date.spec_le(tx.date),
                decreases sorted@.len() - pos,
            {
                pos += 1;
            }
            let ghost gtx = tx;
            sorted.insert(pos, tx);
            proof {
                assert(sorted@ == pre.insert(pos as int, gtx));
                assert forall|a: int, b: int|
                    0 <= a <= b < sorted@.len() implies (#[trigger] sorted@[a]).date.spec_le(
                    #[trigger] sorted@[b].date,
                ) by {
                    let p = pos as int;
                    if a < p && b < p {
                        assert(sorted@[a] == pre[a] && sorted@[b] == pre[b]);
                    } else if a < p && b == p {
                        assert(sorted@[a] == pre[a] && sorted@[b] == gtx);
                    } else if a < p && b > p {
                        assert(sorted@[a] == pre[a] && sorted@[b] == pre[b - 1]);
                    } else if a == p && b == p {
                    } else if a == p && b > p {
                        // The scan stopped at `p` because `pre[p]`'s date is
                        // after the new row's; dates at or past `p` only grow.
                        assert(sorted@[b] == pre[b - 1]);
                        assert(!pre[p].date.spec_le(gtx.date));
                        assert(pre[p].date.spec_le(pre[b - 1].date));
                    } else {
                        assert(sorted@[a] == pre[a - 1] && sorted@[b] == pre[b - 1]);
                    }
                }
                // The multiset of payloads grows by exactly the new payload.
                assert(spec_payloads(sorted@) =~= spec_payloads(pre).insert(
                    pos as int,
                    spec_payload(gtx),
                ));
                to_multiset_insert(spec_payloads(pre), pos as int, spec_payload(gtx));
                assert(spec_payloads(txs@.take(i as int + 1)) =~= spec_payloads(
                    txs@.take(i as int),
                ).push(spec_payload(txs@[i as int])));
                to_multiset_build(spec_payloads(txs@.take(i as int)), spec_payload(gtx));
            }
        }
        proof {
            assert(txs@.take(n as int) =~= txs@);
        }
        // Renumber: ordinals follow the new order, starting at one.
        let mut out: Vec<Transaction> = Vec::new();
        let m = sorted.len();
        for k in 0..m
            invariant
                m == sorted@.len(),
                m <= u32::MAX,
                out@.len() == k,
                forall|j: int| 0 <= j < k ==> (#[trigger] out@[j]).ordinal == j + 1,
                forall|j: int|
                    0 <= j < k ==> spec_payload(#[trigger] out@[j]) == spec_payload(sorted@[j]),
        {
            let t = &sorted[k];
            out.push(Transaction {
                ordinal: (k + 1) as u32,
                date: t.date,
                tx_type: t.tx_type,
                input_type: t.input_type.clone(),
                input_amount: t.input_amount,
                output_type: t.output_type.clone(),
                output_amount: t.output_amount,
                note: t.note.clone(),
            });
        }
        proof {
            assert(spec_payloads(out@) =~= spec_payloads(sorted@));
            assert forall|a: int, b: int|
                0 <= a <= b < out@.len() implies (#[trigger] out@[a]).date.spec_le(
                #[trigger] out@[b].date,
            ) by {
                assert(out@[a].date == sorted@[a].date);
                assert(out@[b].date == sorted@[b].date);
            }
        }
        out
    }
}

} // verus!
