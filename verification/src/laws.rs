//! Laws of the ledger engine.
//!
//! Public proof functions stating the engine's global guarantees: FIFO
//! consumption order, conservation of consumed mass, cost-basis chaining
//! through swaps, zero-cost income recognition, and determinism of reads.

use vstd::prelude::*;
use crate::amount::{
    lemma_rat_add_assoc, lemma_rat_add_congruence, lemma_rat_add_sub, lemma_rat_add_zero,
    lemma_rat_eq_trans, lemma_rat_mul_congruence, lemma_sub_sign,
    lemma_sub_value, rat_add, rat_eq, rat_mul, rat_sum, rat_wf, spec_div, spec_lt,
    spec_mul, spec_sub, val, Amount, Rat,
};
use crate::ledger::{spec_consume, spec_consume_take, zero_amt, InventoryItem};
use crate::price::PriceProvider;
use crate::report::YearSummary;
use crate::types::{AssetType, Transaction};

verus! {

/// The lot holds the asset a disposal of `tx` consumes.
pub open spec fn lot_matches(it: InventoryItem, tx: Transaction) -> bool {
    it.output_type@ == tx.input_type@
}

/// All remaining amounts are well-formed and non-negative.
pub open spec fn remaining_ok(items: Seq<InventoryItem>) -> bool {
    forall|i: int|
        0 <= i < items.len() ==> (#[trigger] items[i]).remaining_amount.wf()
            && items[i].remaining_amount.num >= 0
}

/// The consumption step touches lots only by decreasing their remaining
/// amount, only at or after the scan index, and only on matching lots; and
/// it consumes in FIFO order: a lot is touched only after every earlier
/// matching lot has been fully exhausted.
pub proof fn lemma_consume_fifo(
    items: Seq<InventoryItem>,
    k: int,
    tx: Transaction,
    need: Amount,
    rem_out: Amount,
    frags: Seq<InventoryItem>,
)
    requires
        0 <= k <= items.len(),
        need.wf(),
        remaining_ok(items),
    ensures
        ({
            let c = spec_consume(items, k, tx, need, rem_out, frags);
            c.error is None ==> {
                &&& c.items.len() == items.len()
                &&& remaining_ok(c.items)
                &&& forall|i: int|
                    0 <= i < items.len() ==> (#[trigger] c.items[i]) == items[i] || (k <= i
                        && lot_matches(items[i], tx) && c.items[i] == (InventoryItem {
                        remaining_amount: c.items[i].remaining_amount,
                        ..items[i]
                    }))
                &&& forall|i: int, j: int|
                    #![trigger c.items[i], c.items[j]]
                    k <= i < j < items.len() && lot_matches(items[i], tx) && c.items[j]
                        != items[j] ==> c.items[i].remaining_amount.num == 0
            }
        }),
    decreases items.len() - k, 1int,
{
    let c = spec_consume(items, k, tx, need, rem_out, frags);
    if k >= items.len() || need.num <= 0 {
        // Base case: nothing is touched.
    } else {
        let it = items[k];
        if lot_matches(it, tx) && it.remaining_amount.num > 0 {
            let cb_opt = if tx.output_type.spec_is_fiat() {
                Some(it.cost_basis)
            } else {
                match tx.spec_cost_basis() {
                    None => None,
                    Some(rate) => spec_mul(rate, it.cost_basis),
                }
            };
            if cb_opt is Some {
                let cb = cb_opt->Some_0;
                if spec_lt(need, it.remaining_amount) {
                    if spec_sub(it.remaining_amount, need) is Some {
                        let new_rem = spec_sub(it.remaining_amount, need)->Some_0;
                        lemma_sub_sign(it.remaining_amount, need);
                        lemma_sub_value(it.remaining_amount, need);
                        lemma_take_fifo(
                            items,
                            k,
                            tx,
                            need,
                            rem_out,
                            frags,
                            need,
                            new_rem,
                            zero_amt(),
                            cb,
                        );
                    }
                } else {
                    if spec_sub(need, it.remaining_amount) is Some {
                        let new_need = spec_sub(need, it.remaining_amount)->Some_0;
                        lemma_sub_sign(need, it.remaining_amount);
                        lemma_sub_value(need, it.remaining_amount);
                        lemma_take_fifo(
                            items,
                            k,
                            tx,
                            need,
                            rem_out,
                            frags,
                            it.remaining_amount,
                            zero_amt(),
                            new_need,
                            cb,
                        );
                    }
                }
            }
        } else {
            lemma_consume_fifo(items, k + 1, tx, need, rem_out, frags);
            if c.error is None {
                if lot_matches(it, tx) {
                    assert(c.items[k] == items[k]);
                    assert(items[k].remaining_amount.num == 0);
                }
                assert forall|i: int, j: int|
                    #![trigger c.items[i], c.items[j]]
                    k <= i < j < items.len() && lot_matches(items[i], tx) && c.items[j]
                        != items[j] implies c.items[i].remaining_amount.num == 0 by {
                    if i == k {
                        assert(c.items[k] == items[k]);
                    }
                }
            }
        }
    }
}

/// The successful-take arm of `lemma_consume_fifo`.
proof fn lemma_take_fifo(
    items: Seq<InventoryItem>,
    k: int,
    tx: Transaction,
    need: Amount,
    rem_out: Amount,
    frags: Seq<InventoryItem>,
    consumed: Amount,
    new_rem: Amount,
    new_need: Amount,
    cb: Amount,
)
    requires
        0 <= k < items.len(),
        remaining_ok(items),
        lot_matches(items[k], tx),
        new_rem.wf(),
        new_rem.num >= 0,
        new_need.wf(),
        new_need.num >= 0,
        new_need.num > 0 ==> new_rem.num == 0,
    ensures
        ({
            let c = spec_consume_take(
                items,
                k,
                tx,
                need,
                rem_out,
                frags,
                consumed,
                new_rem,
                new_need,
                cb,
            );
            c.error is None ==> {
                &&& c.items.len() == items.len()
                &&& remaining_ok(c.items)
                &&& forall|i: int|
                    0 <= i < items.len() ==> (#[trigger] c.items[i]) == items[i] || (k <= i
                        && lot_matches(items[i], tx) && c.items[i] == (InventoryItem {
                        remaining_amount: c.items[i].remaining_amount,
                        ..items[i]
                    }))
                &&& forall|i: int, j: int|
                    #![trigger c.items[i], c.items[j]]
                    k <= i < j < items.len() && lot_matches(items[i], tx) && c.items[j]
                        != items[j] ==> c.items[i].remaining_amount.num == 0
            }
        }),
    decreases items.len() - k, 0int,
{
    let c = spec_consume_take(items, k, tx, need, rem_out, frags, consumed, new_rem, new_need, cb);
    let it = items[k];
    let updated = InventoryItem { remaining_amount: new_rem, ..it };
    let items2 = items.update(k, updated);
    assert(remaining_ok(items2));
    let alloc_ok = if new_need.num == 0 {
        true
    } else {
        spec_mul(tx.output_amount, consumed) is Some && spec_div(
            spec_mul(tx.output_amount, consumed)->Some_0,
            tx.input_amount,
        ) is Some && spec_sub(
            rem_out,
            spec_div(spec_mul(tx.output_amount, consumed)->Some_0, tx.input_amount)->Some_0,
        ) is Some
    };
    if alloc_ok {
        let new_amount = if new_need.num == 0 {
            rem_out
        } else {
            spec_div(spec_mul(tx.output_amount, consumed)->Some_0, tx.input_amount)->Some_0
        };
        let new_rem_out = if new_need.num == 0 {
            rem_out
        } else {
            spec_sub(rem_out, new_amount)->Some_0
        };
        let frag = InventoryItem {
            ordinal: tx.ordinal,
            date: tx.date,
            acquisition_date: it.acquisition_date,
            input_type: tx.input_type,
            input_amount: consumed,
            output_type: tx.output_type,
            output_amount: new_amount,
            remaining_amount: new_amount,
            cost_basis: cb,
            sale_price: tx.spec_sale_price(),
            parent_tx: Some(tx.ordinal),
            is_zero_cost: it.is_zero_cost,
        };
        let c2 = spec_consume(items2, k + 1, tx, new_need, new_rem_out, frags.push(frag));
        assert(c == c2);
        lemma_consume_fifo(items2, k + 1, tx, new_need, new_rem_out, frags.push(frag));
        if c.error is None {
            assert forall|i: int| 0 <= i < items.len() implies (#[trigger] c.items[i]) == items[i]
                || (k <= i && lot_matches(items[i], tx) && c.items[i] == (InventoryItem {
                remaining_amount: c.items[i].remaining_amount,
                ..items[i]
            })) by {
                if i == k {
                    assert(c.items[k] == items2[k] || (k + 1 <= k));
                    assert(c.items[k] == updated);
                } else {
                    assert(items2[i] == items[i]);
                }
            }
            assert forall|i: int, j: int|
                #![trigger c.items[i], c.items[j]]
                k <= i < j < items.len() && lot_matches(items[i], tx) && c.items[j] != items[j]
                implies c.items[i].remaining_amount.num == 0 by {
                if i == k {
                    // Something after `k` was touched, so the recursion ran
                    // with a positive need, which forces `new_rem == 0`.
                    assert(c.items[j] != items2[j] || items2[j] != items[j]);
                    assert(j != k);
                    assert(items2[j] == items[j]);
                    if new_need.num == 0 {
                        assert(c.items[j] == items2[j]);
                        assert(false);
                    }
                    assert(c.items[k].remaining_amount == new_rem);
                } else {
                    assert(items2[i] == items[i]);
                    assert(items2[j] == items[j]);
                }
            }
        }
    }
}

/// The rational values of the fragments' input amounts.
pub open spec fn frag_input_vals(frags: Seq<InventoryItem>) -> Seq<Rat> {
    frags.map(|m: int, f: InventoryItem| val(f.input_amount))
}

proof fn lemma_frag_input_vals_push(frags: Seq<InventoryItem>, f: InventoryItem)
    ensures
        frag_input_vals(frags.push(f)) == frag_input_vals(frags).push(val(f.input_amount)),
{
    assert(frag_input_vals(frags.push(f)) =~= frag_input_vals(frags).push(val(f.input_amount)));
}

proof fn lemma_rat_sum_push(s: Seq<Rat>, x: Rat)
    ensures
        rat_sum(s.push(x)) == rat_add(rat_sum(s), x),
{
    assert(s.push(x).drop_last() =~= s);
    assert(s.push(x).last() == x);
}

/// The fragments' input values are all well-formed.
pub open spec fn frag_inputs_wf(frags: Seq<InventoryItem>) -> bool {
    forall|m: int| 0 <= m < frags.len() ==> (#[trigger] frags[m]).input_amount.wf()
}

proof fn lemma_frag_sum_wf(frags: Seq<InventoryItem>)
    requires
        frag_inputs_wf(frags),
    ensures
        rat_wf(rat_sum(frag_input_vals(frags))),
{
    assert forall|m: int| 0 <= m < frag_input_vals(frags).len() implies rat_wf(
        #[trigger] frag_input_vals(frags)[m],
    ) by {
        assert(frags[m].input_amount.wf());
    }
    crate::amount::lemma_rat_sum_wf(frag_input_vals(frags));
}

/// Mass conservation of the input side of a disposal: the sum of the input
/// amounts recorded on the produced fragments, plus the input amount still
/// to satisfy, equals the sum carried in plus the requested amount.  With an
/// empty accumulator: consumed mass + shortfall == requested mass.
pub proof fn lemma_consume_input_conservation(
    items: Seq<InventoryItem>,
    k: int,
    tx: Transaction,
    need: Amount,
    rem_out: Amount,
    frags: Seq<InventoryItem>,
)
    requires
        0 <= k <= items.len(),
        need.wf(),
        remaining_ok(items),
        frag_inputs_wf(frags),
    ensures
        ({
            let c = spec_consume(items, k, tx, need, rem_out, frags);
            c.error is None ==> {
                &&& c.need.wf()
                &&& frag_inputs_wf(c.frags)
                &&& rat_eq(
                    rat_add(rat_sum(frag_input_vals(c.frags)), val(c.need)),
                    rat_add(rat_sum(frag_input_vals(frags)), val(need)),
                )
            }
        }),
    decreases items.len() - k, 1int,
{
    let c = spec_consume(items, k, tx, need, rem_out, frags);
    if k >= items.len() || need.num <= 0 {
        // Base case: fragments and need are unchanged.
    } else {
        let it = items[k];
        if lot_matches(it, tx) && it.remaining_amount.num > 0 {
            let cb_opt = if tx.output_type.spec_is_fiat() {
                Some(it.cost_basis)
            } else {
                match tx.spec_cost_basis() {
                    None => None,
                    Some(rate) => spec_mul(rate, it.cost_basis),
                }
            };
            if cb_opt is Some {
                let cb = cb_opt->Some_0;
                if spec_lt(need, it.remaining_amount) {
                    if spec_sub(it.remaining_amount, need) is Some {
                        let new_rem = spec_sub(it.remaining_amount, need)->Some_0;
                        lemma_sub_value(it.remaining_amount, need);
                        lemma_sub_sign(it.remaining_amount, need);
                        lemma_rat_add_zero(val(need));
                        lemma_take_input(
                            items,
                            k,
                            tx,
                            need,
                            rem_out,
                            frags,
                            need,
                            new_rem,
                            zero_amt(),
                            cb,
                        );
                    }
                } else {
                    if spec_sub(need, it.remaining_amount) is Some {
                        let new_need = spec_sub(need, it.remaining_amount)->Some_0;
                        lemma_sub_value(need, it.remaining_amount);
                        let vr = val(it.remaining_amount);
                        let vn = val(need);
                        // consumed + (need - consumed) == need
                        crate::amount::lemma_sub_val(need, it.remaining_amount);
                        lemma_rat_add_sub(vr, vn);
                        crate::amount::lemma_rat_ops_wf(vn, vr);
                        crate::amount::lemma_rat_ops_wf(vr, val(new_need));
                        crate::amount::lemma_rat_ops_wf(vr, crate::amount::rat_sub(vn, vr));
                        lemma_rat_add_congruence(vr, val(new_need), vr, crate::amount::rat_sub(vn, vr));
                        lemma_rat_eq_trans(
                            rat_add(vr, val(new_need)),
                            rat_add(vr, crate::amount::rat_sub(vn, vr)),
                            vn,
                        );
                        lemma_take_input(
                            items,
                            k,
                            tx,
                            need,
                            rem_out,
                            frags,
                            it.remaining_amount,
                            zero_amt(),
                            new_need,
                            cb,
                        );
                    }
                }
            }
        } else {
            lemma_consume_input_conservation(items, k + 1, tx, need, rem_out, frags);
        }
    }
}

/// The successful-take arm of `lemma_consume_input_conservation`.
proof fn lemma_take_input(
    items: Seq<InventoryItem>,
    k: int,
    tx: Transaction,
    need: Amount,
    rem_out: Amount,
    frags: Seq<InventoryItem>,
    consumed: Amount,
    new_rem: Amount,
    new_need: Amount,
    cb: Amount,
)
    requires
        0 <= k < items.len(),
        remaining_ok(items),
        frag_inputs_wf(frags),
        consumed.wf(),
        need.wf(),
        new_rem.wf(),
        new_rem.num >= 0,
        new_need.wf(),
        rat_eq(rat_add(val(consumed), val(new_need)), val(need)),
    ensures
        ({
            let c = spec_consume_take(
                items,
                k,
                tx,
                need,
                rem_out,
                frags,
                consumed,
                new_rem,
                new_need,
                cb,
            );
            c.error is None ==> {
                &&& c.need.wf()
                &&& frag_inputs_wf(c.frags)
                &&& rat_eq(
                    rat_add(rat_sum(frag_input_vals(c.frags)), val(c.need)),
                    rat_add(rat_sum(frag_input_vals(frags)), val(need)),
                )
            }
        }),
    decreases items.len() - k, 0int,
{
    let c = spec_consume_take(items, k, tx, need, rem_out, frags, consumed, new_rem, new_need, cb);
    let it = items[k];
    let updated = InventoryItem { remaining_amount: new_rem, ..it };
    let items2 = items.update(k, updated);
    assert(remaining_ok(items2));
    let alloc_ok = if new_need.num == 0 {
        true
    } else {
        spec_mul(tx.output_amount, consumed) is Some && spec_div(
            spec_mul(tx.output_amount, consumed)->Some_0,
            tx.input_amount,
        ) is Some && spec_sub(
            rem_out,
            spec_div(spec_mul(tx.output_amount, consumed)->Some_0, tx.input_amount)->Some_0,
        ) is Some
    };
    if alloc_ok {
        let new_amount = if new_need.num == 0 {
            rem_out
        } else {
            spec_div(spec_mul(tx.output_amount, consumed)->Some_0, tx.input_amount)->Some_0
        };
        let new_rem_out = if new_need.num == 0 {
            rem_out
        } else {
            spec_sub(rem_out, new_amount)->Some_0
        };
        let frag = InventoryItem {
            ordinal: tx.ordinal,
            date: tx.date,
            acquisition_date: it.acquisition_date,
            input_type: tx.input_type,
            input_amount: consumed,
            output_type: tx.output_type,
            output_amount: new_amount,
            remaining_amount: new_amount,
            cost_basis: cb,
            sale_price: tx.spec_sale_price(),
            parent_tx: Some(tx.ordinal),
            is_zero_cost: it.is_zero_cost,
        };
        let frags2 = frags.push(frag);
        let c2 = spec_consume(items2, k + 1, tx, new_need, new_rem_out, frags2);
        assert(c == c2);
        lemma_consume_input_conservation(items2, k + 1, tx, new_need, new_rem_out, frags2);
        if c.error is None {
            let s0 = rat_sum(frag_input_vals(frags));
            let s2 = rat_sum(frag_input_vals(frags2));
            lemma_frag_input_vals_push(frags, frag);
            lemma_rat_sum_push(frag_input_vals(frags), val(consumed));
            assert(s2 == rat_add(s0, val(consumed)));
            // (s0 + consumed) + new_need == s0 + (consumed + new_need) == s0 + need
            lemma_frag_sum_wf(frags);
            crate::amount::lemma_rat_ops_wf(val(consumed), val(new_need));
            crate::amount::lemma_rat_ops_wf(s0, val(consumed));
            crate::amount::lemma_rat_ops_wf(s2, val(new_need));
            crate::amount::lemma_rat_ops_wf(s0, rat_add(val(consumed), val(new_need)));
            crate::amount::lemma_rat_ops_wf(s0, val(need));
            lemma_rat_add_assoc(s0, val(consumed), val(new_need));
            lemma_rat_add_congruence(
                s0,
                rat_add(val(consumed), val(new_need)),
                s0,
                val(need),
            );
            lemma_rat_eq_trans(
                rat_add(s2, val(new_need)),
                rat_add(s0, rat_add(val(consumed), val(new_need))),
                rat_add(s0, val(need)),
            );
            let sc = rat_sum(frag_input_vals(c.frags));
            lemma_frag_sum_wf(c.frags);
            crate::amount::lemma_rat_ops_wf(sc, val(c.need));
            lemma_rat_eq_trans(
                rat_add(sc, val(c.need)),
                rat_add(s2, val(new_need)),
                rat_add(s0, val(need)),
            );
        }
    }
}

/// What a disposal fragment records of the lot it consumed and the
/// transaction that created it.
///
/// In particular, the fragment's `input_amount` is exactly the decrease of
/// the lot's remaining amount (per-lot mass conservation), the acquisition
/// date and zero-cost flag are inherited from the lot, and the cost basis
/// follows the chaining rule: the lot's own basis for a disposal into fiat,
/// the lot's basis times the transaction's exchange rate otherwise.
pub open spec fn frag_facts(
    f: InventoryItem,
    lot_before: InventoryItem,
    lot_after: InventoryItem,
    tx: Transaction,
) -> bool {
    &&& f.ordinal == tx.ordinal
    &&& f.parent_tx == Some(tx.ordinal)
    &&& f.date == tx.date
    &&& f.input_type == tx.input_type
    &&& f.output_type == tx.output_type
    &&& f.acquisition_date == lot_before.acquisition_date
    &&& f.is_zero_cost == lot_before.is_zero_cost
    &&& f.sale_price == tx.spec_sale_price()
    &&& f.remaining_amount == f.output_amount
    &&& rat_eq(
        val(f.input_amount),
        crate::amount::rat_sub(val(lot_before.remaining_amount), val(lot_after.remaining_amount)),
    )
    &&& (tx.output_type.spec_is_fiat() ==> f.cost_basis == lot_before.cost_basis)
    &&& (!tx.output_type.spec_is_fiat() ==> tx.spec_cost_basis() is Some && rat_eq(
        val(f.cost_basis),
        rat_mul(val(tx.spec_cost_basis()->Some_0), val(lot_before.cost_basis)),
    ))
}

/// Every fragment produced by a disposal consumed some matching lot at or
/// after the scan index, and records it faithfully (see `frag_facts`);
/// fragments carried in are kept unchanged, in order.
pub proof fn lemma_consume_fragments(
    items: Seq<InventoryItem>,
    k: int,
    tx: Transaction,
    need: Amount,
    rem_out: Amount,
    frags: Seq<InventoryItem>,
)
    requires
        0 <= k <= items.len(),
        need.wf(),
        tx.wf(),
        crate::ledger::items_wf(items),
        remaining_ok(items),
    ensures
        ({
            let c = spec_consume(items, k, tx, need, rem_out, frags);
            c.error is None ==> {
                &&& c.frags.len() >= frags.len()
                &&& forall|m: int| 0 <= m < frags.len() ==> (#[trigger] c.frags[m]) == frags[m]
                &&& forall|m: int|
                    frags.len() <= m < c.frags.len() ==> exists|i: int|
                        k <= i < items.len() && lot_matches(items[i], tx) && frag_facts(
                            #[trigger] c.frags[m],
                            items[i],
                            c.items[i],
                            tx,
                        )
            }
        }),
    decreases items.len() - k, 1int,
{
    let c = spec_consume(items, k, tx, need, rem_out, frags);
    if k >= items.len() || need.num <= 0 {
        // Base case: no new fragments.
    } else {
        let it = items[k];
        if lot_matches(it, tx) && it.remaining_amount.num > 0 {
            let cb_opt = if tx.output_type.spec_is_fiat() {
                Some(it.cost_basis)
            } else {
                match tx.spec_cost_basis() {
                    None => None,
                    Some(rate) => spec_mul(rate, it.cost_basis),
                }
            };
            if cb_opt is Some {
                let cb = cb_opt->Some_0;
                if !tx.output_type.spec_is_fiat() {
                    let rate = tx.spec_cost_basis()->Some_0;
                    crate::amount::lemma_div_value(tx.input_amount, tx.output_amount);
                    crate::amount::lemma_mul_val(rate, it.cost_basis);
                }
                if spec_lt(need, it.remaining_amount) {
                    if spec_sub(it.remaining_amount, need) is Some {
                        let new_rem = spec_sub(it.remaining_amount, need)->Some_0;
                        lemma_sub_sign(it.remaining_amount, need);
                        lemma_sub_value(it.remaining_amount, need);
                        let vr = val(it.remaining_amount);
                        let vn = val(need);
                        // need == rem - (rem - need)
                        crate::amount::lemma_sub_val(it.remaining_amount, need);
                        crate::amount::lemma_rat_ops_wf(vr, vn);
                        crate::amount::lemma_rat_ops_wf(vr, crate::amount::rat_sub(vr, vn));
                        crate::amount::lemma_rat_sub_congruence(
                            vr,
                            val(new_rem),
                            vr,
                            crate::amount::rat_sub(vr, vn),
                        );
                        crate::amount::lemma_rat_sub_sub(vr, vn);
                        lemma_rat_eq_trans(
                            crate::amount::rat_sub(vr, val(new_rem)),
                            crate::amount::rat_sub(vr, crate::amount::rat_sub(vr, vn)),
                            vn,
                        );
                        lemma_take_fragments(
                            items,
                            k,
                            tx,
                            need,
                            rem_out,
                            frags,
                            need,
                            new_rem,
                            zero_amt(),
                            cb,
                        );
                    }
                } else {
                    if spec_sub(need, it.remaining_amount) is Some {
                        let new_need = spec_sub(need, it.remaining_amount)->Some_0;
                        lemma_sub_sign(need, it.remaining_amount);
                        lemma_sub_value(need, it.remaining_amount);
                        let vr = val(it.remaining_amount);
                        let z = val(zero_amt());
                        assert(rat_eq(vr, crate::amount::rat_sub(vr, z))) by (nonlinear_arith)
                            requires
                                z.n == 0,
                                z.d == 1,
                                rat_wf(vr),
                        {}
                        lemma_take_fragments(
                            items,
                            k,
                            tx,
                            need,
                            rem_out,
                            frags,
                            it.remaining_amount,
                            zero_amt(),
                            new_need,
                            cb,
                        );
                    }
                }
            }
        } else {
            lemma_consume_fragments(items, k + 1, tx, need, rem_out, frags);
            if c.error is None {
                assert forall|m: int| frags.len() <= m < c.frags.len() implies exists|i: int|
                    k <= i < items.len() && lot_matches(items[i], tx) && frag_facts(
                        #[trigger] c.frags[m],
                        items[i],
                        c.items[i],
                        tx,
                    ) by {
                    let i0 = choose|i: int|
                        k + 1 <= i < items.len() && lot_matches(items[i], tx) && frag_facts(
                            c.frags[m],
                            items[i],
                            c.items[i],
                            tx,
                        );
                    assert(k <= i0 < items.len() && lot_matches(items[i0], tx) && frag_facts(
                        c.frags[m],
                        items[i0],
                        c.items[i0],
                        tx,
                    ));
                }
            }
        }
    }
}

/// The successful-take arm of `lemma_consume_fragments`.
proof fn lemma_take_fragments(
    items: Seq<InventoryItem>,
    k: int,
    tx: Transaction,
    need: Amount,
    rem_out: Amount,
    frags: Seq<InventoryItem>,
    consumed: Amount,
    new_rem: Amount,
    new_need: Amount,
    cb: Amount,
)
    requires
        0 <= k < items.len(),
        tx.wf(),
        crate::ledger::items_wf(items),
        remaining_ok(items),
        lot_matches(items[k], tx),
        new_rem.wf(),
        new_rem.num >= 0,
        new_need.wf(),
        rat_eq(
            val(consumed),
            crate::amount::rat_sub(val(items[k].remaining_amount), val(new_rem)),
        ),
        tx.output_type.spec_is_fiat() ==> cb == items[k].cost_basis,
        !tx.output_type.spec_is_fiat() ==> tx.spec_cost_basis() is Some && rat_eq(
            val(cb),
            rat_mul(val(tx.spec_cost_basis()->Some_0), val(items[k].cost_basis)),
        ),
    ensures
        ({
            let c = spec_consume_take(
                items,
                k,
                tx,
                need,
                rem_out,
                frags,
                consumed,
                new_rem,
                new_need,
                cb,
            );
            c.error is None ==> {
                &&& c.frags.len() >= frags.len()
                &&& forall|m: int| 0 <= m < frags.len() ==> (#[trigger] c.frags[m]) == frags[m]
                &&& forall|m: int|
                    frags.len() <= m < c.frags.len() ==> exists|i: int|
                        k <= i < items.len() && lot_matches(items[i], tx) && frag_facts(
                            #[trigger] c.frags[m],
                            items[i],
                            c.items[i],
                            tx,
                        )
            }
        }),
    decreases items.len() - k, 0int,
{
    let c = spec_consume_take(items, k, tx, need, rem_out, frags, consumed, new_rem, new_need, cb);
    let it = items[k];
    let updated = InventoryItem { remaining_amount: new_rem, ..it };
    let items2 = items.update(k, updated);
    assert(remaining_ok(items2));
    assert(crate::ledger::items_wf(items2));
    let alloc_ok = if new_need.num == 0 {
        true
    } else {
        spec_mul(tx.output_amount, consumed) is Some && spec_div(
            spec_mul(tx.output_amount, consumed)->Some_0,
            tx.input_amount,
        ) is Some && spec_sub(
            rem_out,
            spec_div(spec_mul(tx.output_amount, consumed)->Some_0, tx.input_amount)->Some_0,
        ) is Some
    };
    if alloc_ok {
        let new_amount = if new_need.num == 0 {
            rem_out
        } else {
            spec_div(spec_mul(tx.output_amount, consumed)->Some_0, tx.input_amount)->Some_0
        };
        let new_rem_out = if new_need.num == 0 {
            rem_out
        } else {
            spec_sub(rem_out, new_amount)->Some_0
        };
        let frag = InventoryItem {
            ordinal: tx.ordinal,
            date: tx.date,
            acquisition_date: it.acquisition_date,
            input_type: tx.input_type,
            input_amount: consumed,
            output_type: tx.output_type,
            output_amount: new_amount,
            remaining_amount: new_amount,
            cost_basis: cb,
            sale_price: tx.spec_sale_price(),
            parent_tx: Some(tx.ordinal),
            is_zero_cost: it.is_zero_cost,
        };
        let frags2 = frags.push(frag);
        let c2 = spec_consume(items2, k + 1, tx, new_need, new_rem_out, frags2);
        assert(c == c2);
        lemma_consume_fragments(items2, k + 1, tx, new_need, new_rem_out, frags2);
        // The scan does not touch index `k` again.
        lemma_consume_fifo(items2, k + 1, tx, new_need, new_rem_out, frags2);
        if c.error is None {
            assert(c.items[k] == updated);
            assert(frag_facts(frag, items[k], c.items[k], tx));
            assert forall|m: int| frags.len() <= m < c.frags.len() implies exists|i: int|
                k <= i < items.len() && lot_matches(items[i], tx) && frag_facts(
                    #[trigger] c.frags[m],
                    items[i],
                    c.items[i],
                    tx,
                ) by {
                if m == frags.len() {
                    assert(c.frags[m] == frags2[m]);
                    assert(c.frags[m] == frag);
                    assert(lot_matches(items[k], tx) && frag_facts(
                        c.frags[m],
                        items[k],
                        c.items[k],
                        tx,
                    ));
                } else {
                    let i0 = choose|i: int|
                        k + 1 <= i < items2.len() && lot_matches(items2[i], tx) && frag_facts(
                            c.frags[m],
                            items2[i],
                            c.items[i],
                            tx,
                        );
                    assert(items2[i0] == items[i0]);
                    assert(k <= i0 < items.len() && lot_matches(items[i0], tx) && frag_facts(
                        c.frags[m],
                        items[i0],
                        c.items[i0],
                        tx,
                    ));
                }
            }
        }
    }
}

/// The rational values of the fragments' output amounts.
pub open spec fn frag_output_vals(frags: Seq<InventoryItem>) -> Seq<Rat> {
    frags.map(|m: int, f: InventoryItem| val(f.output_amount))
}

/// The fragments' output values are all well-formed.
pub open spec fn frag_outputs_wf(frags: Seq<InventoryItem>) -> bool {
    forall|m: int| 0 <= m < frags.len() ==> (#[trigger] frags[m]).output_amount.wf()
}

proof fn lemma_frag_output_vals_push(frags: Seq<InventoryItem>, f: InventoryItem)
    ensures
        frag_output_vals(frags.push(f)) == frag_output_vals(frags).push(val(f.output_amount)),
{
    assert(frag_output_vals(frags.push(f)) =~= frag_output_vals(frags).push(val(f.output_amount)));
}

proof fn lemma_frag_out_sum_wf(frags: Seq<InventoryItem>)
    requires
        frag_outputs_wf(frags),
    ensures
        rat_wf(rat_sum(frag_output_vals(frags))),
{
    assert forall|m: int| 0 <= m < frag_output_vals(frags).len() implies rat_wf(
        #[trigger] frag_output_vals(frags)[m],
    ) by {
        assert(frags[m].output_amount.wf());
    }
    crate::amount::lemma_rat_sum_wf(frag_output_vals(frags));
}

/// Mass conservation of the output side of a disposal.  While the request
/// is not yet satisfied, fragment outputs plus the unallocated remainder
/// stay constant; the moment it is satisfied, the last fragment absorbs the
/// whole remainder, so the fragment outputs sum to everything that was to
/// be allocated.  From the empty accumulator: a fully satisfied disposal's
/// fragments carry exactly the transaction's output amount.
pub proof fn lemma_consume_output_conservation(
    items: Seq<InventoryItem>,
    k: int,
    tx: Transaction,
    need: Amount,
    rem_out: Amount,
    frags: Seq<InventoryItem>,
)
    requires
        0 <= k <= items.len(),
        tx.wf(),
        need.wf(),
        rem_out.wf(),
        remaining_ok(items),
        frag_outputs_wf(frags),
    ensures
        ({
            let c = spec_consume(items, k, tx, need, rem_out, frags);
            c.error is None ==> {
                &&& c.rem_out.wf()
                &&& frag_outputs_wf(c.frags)
                &&& need.num <= 0 ==> c.frags == frags && c.rem_out == rem_out
                &&& (need.num > 0 && c.need.num > 0) ==> rat_eq(
                    rat_add(rat_sum(frag_output_vals(c.frags)), val(c.rem_out)),
                    rat_add(rat_sum(frag_output_vals(frags)), val(rem_out)),
                )
                &&& (need.num > 0 && c.need.num <= 0) ==> rat_eq(
                    rat_sum(frag_output_vals(c.frags)),
                    rat_add(rat_sum(frag_output_vals(frags)), val(rem_out)),
                )
            }
        }),
    decreases items.len() - k, 1int,
{
    let c = spec_consume(items, k, tx, need, rem_out, frags);
    if k >= items.len() || need.num <= 0 {
        if c.error is None && need.num > 0 && c.need.num > 0 {
            // Nothing was consumed: the sums are syntactically unchanged.
        }
    } else {
        let it = items[k];
        if lot_matches(it, tx) && it.remaining_amount.num > 0 {
            let cb_opt = if tx.output_type.spec_is_fiat() {
                Some(it.cost_basis)
            } else {
                match tx.spec_cost_basis() {
                    None => None,
                    Some(rate) => spec_mul(rate, it.cost_basis),
                }
            };
            if cb_opt is Some {
                let cb = cb_opt->Some_0;
                if spec_lt(need, it.remaining_amount) {
                    if spec_sub(it.remaining_amount, need) is Some {
                        let new_rem = spec_sub(it.remaining_amount, need)->Some_0;
                        lemma_sub_sign(it.remaining_amount, need);
                        lemma_sub_value(it.remaining_amount, need);
                        lemma_take_output(
                            items,
                            k,
                            tx,
                            need,
                            rem_out,
                            frags,
                            need,
                            new_rem,
                            zero_amt(),
                            cb,
                        );
                    }
                } else {
                    if spec_sub(need, it.remaining_amount) is Some {
                        let new_need = spec_sub(need, it.remaining_amount)->Some_0;
                        lemma_sub_sign(need, it.remaining_amount);
                        lemma_sub_value(need, it.remaining_amount);
                        lemma_take_output(
                            items,
                            k,
                            tx,
                            need,
                            rem_out,
                            frags,
                            it.remaining_amount,
                            zero_amt(),
                            new_need,
                            cb,
                        );
                    }
                }
            }
        } else {
            lemma_consume_output_conservation(items, k + 1, tx, need, rem_out, frags);
        }
    }
}

/// The successful-take arm of `lemma_consume_output_conservation`.
proof fn lemma_take_output(
    items: Seq<InventoryItem>,
    k: int,
    tx: Transaction,
    need: Amount,
    rem_out: Amount,
    frags: Seq<InventoryItem>,
    consumed: Amount,
    new_rem: Amount,
    new_need: Amount,
    cb: Amount,
)
    requires
        0 <= k < items.len(),
        remaining_ok(items),
        frag_outputs_wf(frags),
        tx.wf(),
        consumed.wf(),
        need.wf(),
        need.num > 0,
        rem_out.wf(),
        new_rem.wf(),
        new_rem.num >= 0,
        new_need.wf(),
        new_need.num >= 0,
    ensures
        ({
            let c = spec_consume_take(
                items,
                k,
                tx,
                need,
                rem_out,
                frags,
                consumed,
                new_rem,
                new_need,
                cb,
            );
            c.error is None ==> {
                &&& c.rem_out.wf()
                &&& frag_outputs_wf(c.frags)
                &&& c.need.num > 0 ==> rat_eq(
                    rat_add(rat_sum(frag_output_vals(c.frags)), val(c.rem_out)),
                    rat_add(rat_sum(frag_output_vals(frags)), val(rem_out)),
                )
                &&& c.need.num <= 0 ==> rat_eq(
                    rat_sum(frag_output_vals(c.frags)),
                    rat_add(rat_sum(frag_output_vals(frags)), val(rem_out)),
                )
            }
        }),
    decreases items.len() - k, 0int,
{
    let c = spec_consume_take(items, k, tx, need, rem_out, frags, consumed, new_rem, new_need, cb);
    let it = items[k];
    let updated = InventoryItem { remaining_amount: new_rem, ..it };
    let items2 = items.update(k, updated);
    assert(remaining_ok(items2));
    let alloc_ok = if new_need.num == 0 {
        true
    } else {
        spec_mul(tx.output_amount, consumed) is Some && spec_div(
            spec_mul(tx.output_amount, consumed)->Some_0,
            tx.input_amount,
        ) is Some && spec_sub(
            rem_out,
            spec_div(spec_mul(tx.output_amount, consumed)->Some_0, tx.input_amount)->Some_0,
        ) is Some
    };
    if alloc_ok {
        let new_amount = if new_need.num == 0 {
            rem_out
        } else {
            spec_div(spec_mul(tx.output_amount, consumed)->Some_0, tx.input_amount)->Some_0
        };
        let new_rem_out = if new_need.num == 0 {
            rem_out
        } else {
            spec_sub(rem_out, new_amount)->Some_0
        };
        let frag = InventoryItem {
            ordinal: tx.ordinal,
            date: tx.date,
            acquisition_date: it.acquisition_date,
            input_type: tx.input_type,
            input_amount: consumed,
            output_type: tx.output_type,
            output_amount: new_amount,
            remaining_amount: new_amount,
            cost_basis: cb,
            sale_price: tx.spec_sale_price(),
            parent_tx: Some(tx.ordinal),
            is_zero_cost: it.is_zero_cost,
        };
        let frags2 = frags.push(frag);
        let c2 = spec_consume(items2, k + 1, tx, new_need, new_rem_out, frags2);
        assert(c == c2);
        let s0 = rat_sum(frag_output_vals(frags));
        lemma_frag_output_vals_push(frags, frag);
        lemma_rat_sum_push(frag_output_vals(frags), val(frag.output_amount));
        let s2 = rat_sum(frag_output_vals(frags2));
        assert(s2 == rat_add(s0, val(new_amount)));
        lemma_frag_out_sum_wf(frags);
        if new_need.num == 0 {
            // The recursion returns immediately: the final fragment took the
            // whole remainder, and the sum grew by exactly `rem_out`.
            assert(c.frags == frags2);
            assert(rat_eq(s2, rat_add(s0, val(rem_out))));
        } else {
            // The fragment took `new_amount` and the remainder shrank by the
            // same: the running total is unchanged.
            crate::amount::lemma_mul_value(tx.output_amount, consumed);
            crate::amount::lemma_div_value(
                spec_mul(tx.output_amount, consumed)->Some_0,
                tx.input_amount,
            );
            lemma_sub_value(rem_out, new_amount);
            lemma_consume_output_conservation(items2, k + 1, tx, new_need, new_rem_out, frags2);
            if c.error is None {
                crate::amount::lemma_sub_val(rem_out, new_amount);
                lemma_rat_add_sub(val(new_amount), val(rem_out));
                crate::amount::lemma_rat_ops_wf(val(rem_out), val(new_amount));
                crate::amount::lemma_rat_ops_wf(val(new_amount), val(new_rem_out));
                crate::amount::lemma_rat_ops_wf(
                    val(new_amount),
                    crate::amount::rat_sub(val(rem_out), val(new_amount)),
                );
                lemma_rat_add_congruence(
                    val(new_amount),
                    val(new_rem_out),
                    val(new_amount),
                    crate::amount::rat_sub(val(rem_out), val(new_amount)),
                );
                lemma_rat_eq_trans(
                    rat_add(val(new_amount), val(new_rem_out)),
                    rat_add(
                        val(new_amount),
                        crate::amount::rat_sub(val(rem_out), val(new_amount)),
                    ),
                    val(rem_out),
                );
                // (s0 + na) + ro' == s0 + (na + ro') == s0 + rem_out
                crate::amount::lemma_rat_ops_wf(s0, val(new_amount));
                crate::amount::lemma_rat_ops_wf(s2, val(new_rem_out));
                crate::amount::lemma_rat_ops_wf(
                    s0,
                    rat_add(val(new_amount), val(new_rem_out)),
                );
                crate::amount::lemma_rat_ops_wf(s0, val(rem_out));
                lemma_rat_add_assoc(s0, val(new_amount), val(new_rem_out));
                lemma_rat_add_congruence(
                    s0,
                    rat_add(val(new_amount), val(new_rem_out)),
                    s0,
                    val(rem_out),
                );
                lemma_rat_eq_trans(
                    rat_add(s2, val(new_rem_out)),
                    rat_add(s0, rat_add(val(new_amount), val(new_rem_out))),
                    rat_add(s0, val(rem_out)),
                );
                let sc = rat_sum(frag_output_vals(c.frags));
                lemma_frag_out_sum_wf(c.frags);
                if c.need.num > 0 {
                    crate::amount::lemma_rat_ops_wf(sc, val(c.rem_out));
                    lemma_rat_eq_trans(
                        rat_add(sc, val(c.rem_out)),
                        rat_add(s2, val(new_rem_out)),
                        rat_add(s0, val(rem_out)),
                    );
                } else {
                    lemma_rat_eq_trans(
                        sc,
                        rat_add(s2, val(new_rem_out)),
                        rat_add(s0, val(rem_out)),
                    );
                }
            }
        }
    }
}

/// Cost-basis chaining through a two-hop swap A -> B -> C.
///
/// If B's lot was acquired from A at exchange rate `r1` (so its basis is
/// `r1 * cb_a`, as `frag_facts` guarantees for a non-fiat disposal), and C's
/// fragment was acquired from that lot at rate `r2` (basis `r2 * cb_b`),
/// then C's basis compounds the whole chain: `cb_a * r1 * r2`.
pub proof fn lemma_cost_basis_chain(cb_a: Rat, r1: Rat, cb_b: Rat, r2: Rat, cb_c: Rat)
    requires
        rat_wf(cb_a),
        rat_wf(r1),
        rat_wf(cb_b),
        rat_wf(r2),
        rat_wf(cb_c),
        rat_eq(cb_b, rat_mul(r1, cb_a)),
        rat_eq(cb_c, rat_mul(r2, cb_b)),
    ensures
        rat_eq(cb_c, rat_mul(rat_mul(cb_a, r1), r2)),
{
    crate::amount::lemma_rat_ops_wf(r1, cb_a);
    crate::amount::lemma_rat_ops_wf(r2, cb_b);
    crate::amount::lemma_rat_ops_wf(r2, rat_mul(r1, cb_a));
    crate::amount::lemma_rat_ops_wf(cb_a, r1);
    crate::amount::lemma_rat_ops_wf(rat_mul(cb_a, r1), r2);
    // cb_c == r2 * cb_b == r2 * (r1 * cb_a)
    lemma_rat_mul_congruence(r2, cb_b, r2, rat_mul(r1, cb_a));
    lemma_rat_eq_trans(cb_c, rat_mul(r2, cb_b), rat_mul(r2, rat_mul(r1, cb_a)));
    // r2 * (r1 * cb_a) == (r1 * cb_a) * r2 == ((cb_a * r1)) * r2
    crate::amount::lemma_rat_mul_comm(r2, rat_mul(r1, cb_a));
    crate::amount::lemma_rat_mul_comm(r1, cb_a);
    lemma_rat_mul_congruence(rat_mul(r1, cb_a), r2, rat_mul(cb_a, r1), r2);
    lemma_rat_eq_trans(
        rat_mul(r2, rat_mul(r1, cb_a)),
        rat_mul(rat_mul(r1, cb_a), r2),
        rat_mul(rat_mul(cb_a, r1), r2),
    );
    lemma_rat_eq_trans(
        cb_c,
        rat_mul(r2, rat_mul(r1, cb_a)),
        rat_mul(rat_mul(cb_a, r1), r2),
    );
}

/// Zero-cost income recognition: a first-generation interest/airdrop lot
/// adds exactly `output_amount * cost_basis` to its year's income (and
/// nothing to its expense), and the bucket's profit is income minus expense.
pub proof fn lemma_zero_cost_income(bs: Seq<YearSummary>, it: InventoryItem)
    requires
        crate::report::buckets_wf(bs),
        it.wf(),
        it.is_zero_cost,
        it.parent_tx is None,
        it.sale_price is None,
        crate::report::spec_report_step(bs, it) is Some,
    ensures
        ({
            let bs2 = crate::report::spec_report_step(bs, it)->Some_0;
            let y = it.date.year;
            let slot = crate::report::spec_find_slot(bs, y as int, 0);
            let before = if slot < bs.len() && bs[slot].year == y {
                bs[slot]
            } else {
                crate::report::spec_empty_year(y)
            };
            &&& 0 <= slot < bs2.len()
            &&& bs2[slot].year == before.year
            &&& spec_mul(it.output_amount, it.cost_basis) is Some
            &&& rat_eq(
                val(bs2[slot].income),
                rat_add(
                    val(before.income),
                    rat_mul(val(it.output_amount), val(it.cost_basis)),
                ),
            )
            &&& bs2[slot].expense == before.expense
            &&& rat_eq(
                val(bs2[slot].profit),
                crate::amount::rat_sub(val(bs2[slot].income), val(bs2[slot].expense)),
            )
        }),
{
    let y = it.date.year;
    let slot = crate::report::spec_find_slot(bs, y as int, 0);
    crate::report::lemma_find_slot_in_range(bs, y as int, 0);
    let before = if slot < bs.len() && bs[slot].year == y {
        bs[slot]
    } else {
        crate::report::spec_empty_year(y)
    };
    let zc = spec_mul(it.output_amount, it.cost_basis)->Some_0;
    crate::amount::lemma_mul_val(it.output_amount, it.cost_basis);
    crate::amount::lemma_mul_value(it.output_amount, it.cost_basis);
    let ni = crate::amount::spec_add(before.income, zc)->Some_0;
    crate::amount::lemma_add_val(before.income, zc);
    crate::amount::lemma_add_value(before.income, zc);
    crate::amount::lemma_rat_ops_wf(val(before.income), val(zc));
    crate::amount::lemma_rat_ops_wf(val(it.output_amount), val(it.cost_basis));
    crate::amount::lemma_rat_ops_wf(
        val(before.income),
        rat_mul(val(it.output_amount), val(it.cost_basis)),
    );
    lemma_rat_add_congruence(
        val(before.income),
        val(zc),
        val(before.income),
        rat_mul(val(it.output_amount), val(it.cost_basis)),
    );
    lemma_rat_eq_trans(
        val(ni),
        rat_add(val(before.income), val(zc)),
        rat_add(val(before.income), rat_mul(val(it.output_amount), val(it.cost_basis))),
    );
    crate::amount::lemma_sub_val(ni, before.expense);
}

/// The consumption step never renumbers the inventory, and every fragment
/// it appends carries the disposing transaction's ordinal.
pub proof fn lemma_consume_ordinals(
    items: Seq<InventoryItem>,
    k: int,
    tx: Transaction,
    need: Amount,
    rem_out: Amount,
    frags: Seq<InventoryItem>,
)
    requires
        0 <= k <= items.len(),
    ensures
        ({
            let c = spec_consume(items, k, tx, need, rem_out, frags);
            c.error is None ==> {
                &&& c.items.len() == items.len()
                &&& forall|i: int|
                    0 <= i < items.len() ==> (#[trigger] c.items[i]).ordinal == items[i].ordinal
                &&& c.frags.len() >= frags.len()
                &&& forall|m: int| 0 <= m < frags.len() ==> (#[trigger] c.frags[m]) == frags[m]
                &&& forall|m: int|
                    frags.len() <= m < c.frags.len() ==> (#[trigger] c.frags[m]).ordinal
                        == tx.ordinal
            }
        }),
    decreases items.len() - k, 1int,
{
    let c = spec_consume(items, k, tx, need, rem_out, frags);
    if k >= items.len() || need.num <= 0 {
        // Base case: nothing changes.
    } else {
        let it = items[k];
        if lot_matches(it, tx) && it.remaining_amount.num > 0 {
            let cb_opt = if tx.output_type.spec_is_fiat() {
                Some(it.cost_basis)
            } else {
                match tx.spec_cost_basis() {
                    None => None,
                    Some(rate) => spec_mul(rate, it.cost_basis),
                }
            };
            if cb_opt is Some {
                let cb = cb_opt->Some_0;
                if spec_lt(need, it.remaining_amount) {
                    if spec_sub(it.remaining_amount, need) is Some {
                        let new_rem = spec_sub(it.remaining_amount, need)->Some_0;
                        lemma_take_ordinals(
                            items,
                            k,
                            tx,
                            need,
                            rem_out,
                            frags,
                            need,
                            new_rem,
                            zero_amt(),
                            cb,
                        );
                    }
                } else {
                    if spec_sub(need, it.remaining_amount) is Some {
                        let new_need = spec_sub(need, it.remaining_amount)->Some_0;
                        lemma_take_ordinals(
                            items,
                            k,
                            tx,
                            need,
                            rem_out,
                            frags,
                            it.remaining_amount,
                            zero_amt(),
                            new_need,
                            cb,
                        );
                    }
                }
            }
        } else {
            lemma_consume_ordinals(items, k + 1, tx, need, rem_out, frags);
        }
    }
}

/// The successful-take arm of `lemma_consume_ordinals`.
proof fn lemma_take_ordinals(
    items: Seq<InventoryItem>,
    k: int,
    tx: Transaction,
    need: Amount,
    rem_out: Amount,
    frags: Seq<InventoryItem>,
    consumed: Amount,
    new_rem: Amount,
    new_need: Amount,
    cb: Amount,
)
    requires
        0 <= k < items.len(),
    ensures
        ({
            let c = spec_consume_take(
                items,
                k,
                tx,
                need,
                rem_out,
                frags,
                consumed,
                new_rem,
                new_need,
                cb,
            );
            c.error is None ==> {
                &&& c.items.len() == items.len()
                &&& forall|i: int|
                    0 <= i < items.len() ==> (#[trigger] c.items[i]).ordinal == items[i].ordinal
                &&& c.frags.len() >= frags.len()
                &&& forall|m: int| 0 <= m < frags.len() ==> (#[trigger] c.frags[m]) == frags[m]
                &&& forall|m: int|
                    frags.len() <= m < c.frags.len() ==> (#[trigger] c.frags[m]).ordinal
                        == tx.ordinal
            }
        }),
    decreases items.len() - k, 0int,
{
    let c = spec_consume_take(items, k, tx, need, rem_out, frags, consumed, new_rem, new_need, cb);
    let it = items[k];
    let updated = InventoryItem { remaining_amount: new_rem, ..it };
    let items2 = items.update(k, updated);
    let alloc_ok = if new_need.num == 0 {
        true
    } else {
        spec_mul(tx.output_amount, consumed) is Some && spec_div(
            spec_mul(tx.output_amount, consumed)->Some_0,
            tx.input_amount,
        ) is Some && spec_sub(
            rem_out,
            spec_div(spec_mul(tx.output_amount, consumed)->Some_0, tx.input_amount)->Some_0,
        ) is Some
    };
    if alloc_ok {
        let new_amount = if new_need.num == 0 {
            rem_out
        } else {
            spec_div(spec_mul(tx.output_amount, consumed)->Some_0, tx.input_amount)->Some_0
        };
        let new_rem_out = if new_need.num == 0 {
            rem_out
        } else {
            spec_sub(rem_out, new_amount)->Some_0
        };
        let frag = InventoryItem {
            ordinal: tx.ordinal,
            date: tx.date,
            acquisition_date: it.acquisition_date,
            input_type: tx.input_type,
            input_amount: consumed,
            output_type: tx.output_type,
            output_amount: new_amount,
            remaining_amount: new_amount,
            cost_basis: cb,
            sale_price: tx.spec_sale_price(),
            parent_tx: Some(tx.ordinal),
            is_zero_cost: it.is_zero_cost,
        };
        let frags2 = frags.push(frag);
        assert(c == spec_consume(items2, k + 1, tx, new_need, new_rem_out, frags2));
        lemma_consume_ordinals(items2, k + 1, tx, new_need, new_rem_out, frags2);
    }
}

/// Every item of the model built from an ordinal-sequential prefix carries
/// the ordinal of one of the prefix's transactions.
pub proof fn lemma_build_ordinals<P: PriceProvider + ?Sized>(
    p: &P,
    txs: Seq<Transaction>,
    fiat: AssetType,
    m: int,
)
    requires
        0 <= m <= txs.len(),
        forall|i: int| 0 <= i < txs.len() ==> (#[trigger] txs[i]).ordinal == i + 1,
    ensures
        ({
            let b = crate::ledger::spec_build(p, txs.take(m), fiat);
            b.error is None ==> forall|k: int|
                0 <= k < b.items.len() ==> 1 <= (#[trigger] b.items[k]).ordinal <= m
        }),
    decreases m,
{
    if m == 0 {
        assert(txs.take(0) =~= Seq::<Transaction>::empty());
    } else {
        lemma_build_ordinals(p, txs, fiat, m - 1);
        assert(txs.take(m).drop_last() =~= txs.take(m - 1));
        assert(txs.take(m).last() == txs[m - 1]);
        let prev = crate::ledger::spec_build(p, txs.take(m - 1), fiat);
        let b = crate::ledger::spec_build(p, txs.take(m), fiat);
        let tx = txs[m - 1];
        if prev.error is None && b.error is None {
            match tx.tx_type {
                crate::types::TransactionType::Buying | crate::types::TransactionType::Invoice
                    | crate::types::TransactionType::Interest
                    | crate::types::TransactionType::Airdrop => {
                    // One new lot with the transaction's own ordinal.
                },
                _ => {
                    // A disposal, possibly synthesized for a same-asset
                    // transfer; either way it keeps the ordinal.
                    let dtx = if (tx.tx_type is Transfer || tx.tx_type is Bridge)
                        && tx.input_type@ == tx.output_type@ {
                        crate::ledger::spec_synth_transfer(
                            tx,
                            spec_sub(tx.input_amount, tx.output_amount)->Some_0,
                            fiat,
                        )
                    } else {
                        tx
                    };
                    lemma_consume_ordinals(
                        prev.items,
                        0,
                        dtx,
                        dtx.input_amount,
                        dtx.output_amount,
                        Seq::empty(),
                    );
                    let c = spec_consume(
                        prev.items,
                        0,
                        dtx,
                        dtx.input_amount,
                        dtx.output_amount,
                        Seq::empty(),
                    );
                    if c.error is None {
                        assert forall|k: int| 0 <= k < b.items.len() implies 1 <= (
                        #[trigger] b.items[k]).ordinal <= m by {
                            if k < c.items.len() {
                                assert(b.items[k] == c.items[k]);
                                assert(c.items[k].ordinal == prev.items[k].ordinal);
                            } else {
                                assert(b.items[k] == c.frags[k - c.items.len()]);
                            }
                        }
                    }
                },
            }
        }
    }
}

/// A ledger whose transactions are ordinal-sequential from one can always
/// join its items back to their originating transactions: the line
/// projection's precondition holds for every ledger `Ledger::new` builds
/// from validated input.
pub proof fn lemma_ledger_lines_joinable<P: PriceProvider + ?Sized>(p: &P, l: crate::ledger::Ledger)
    requires
        forall|i: int|
            0 <= i < l.transactions@.len() ==> (#[trigger] l.transactions@[i]).ordinal == i + 1,
        crate::ledger::spec_build(p, l.transactions@, l.fiat).error is None,
        crate::ledger::spec_build(p, l.transactions@, l.fiat).items == l.items@,
    ensures
        l.spec_lines_joinable(),
{
    let n = l.transactions@.len() as int;
    lemma_build_ordinals(p, l.transactions@, l.fiat, n);
    assert(l.transactions@.take(n) =~= l.transactions@);
}

/// Reads are idempotent: the yearly report is a pure function of the built
/// ledger's items, so any two reads of the same ledger agree (the same holds
/// for `in_order` and `csv_line_iter`, whose contracts pin their results to
/// the ledger state directly).
pub proof fn lemma_report_read_idempotent(
    items: Seq<InventoryItem>,
    r1: Seq<YearSummary>,
    r2: Seq<YearSummary>,
)
    requires
        crate::report::spec_yearly_report(items) == Some(r1),
        crate::report::spec_yearly_report(items) == Some(r2),
    ensures
        r1 == r2,
{
}

} // verus!
