//! The FIFO ledger engine.
//!
//! The ledger consumes transactions one at a time, in order.  Acquisitions
//! append a lot to the inventory; disposals consume inventory oldest-first,
//! fragmenting lots as needed and appending the produced fragments as new
//! lots of the output asset.  The whole construction is specified by the
//! `spec_build` model: `Ledger::new` returns exactly the model's result.

use vstd::prelude::*;
use crate::amount::{spec_div, spec_lt, spec_mul, spec_sub, Amount};
use crate::price::PriceProvider;
use crate::types::{AssetType, Date, Transaction, TransactionType};

verus! {

/// An inventory lot, or a fragment of one.
///
/// Created once by the ledger; afterwards only `remaining_amount` decreases,
/// and only while later disposals consume the lot.
#[derive(Debug)]
pub struct InventoryItem {
    /// Ordinal of the transaction that created this item.
    pub ordinal: u32,
    /// Date of the owning transaction.
    pub date: Date,
    /// Date the underlying value was originally acquired; consumption
    /// fragments inherit it from the consumed lot.
    pub acquisition_date: Date,
    /// Asset consumed by the owning transaction, attributed to this item.
    pub input_type: AssetType,
    /// Amount of the input asset attributed to this item.
    pub input_amount: Amount,
    /// Asset produced by the owning transaction.
    pub output_type: AssetType,
    /// Amount of the output asset attributed to this item.
    pub output_amount: Amount,
    /// Portion of `output_amount` not yet consumed by a later disposal.
    pub remaining_amount: Amount,
    /// Per-unit acquisition cost of the output asset.
    pub cost_basis: Amount,
    /// Unit sale price when this item disposed into fiat, else `None`.
    pub sale_price: Option<Amount>,
    /// Ordinal of the consuming transaction that created this fragment;
    /// `None` for a direct acquisition.
    pub parent_tx: Option<u32>,
    /// Whether the value traces back to an interest/airdrop acquisition.
    pub is_zero_cost: bool,
}

impl Clone for InventoryItem {
    fn clone(&self) -> (r: Self)
        ensures
            r == *self,
    {
        InventoryItem {
            ordinal: self.ordinal,
            date: self.date,
            acquisition_date: self.acquisition_date,
            input_type: self.input_type.clone(),
            input_amount: self.input_amount,
            output_type: self.output_type.clone(),
            output_amount: self.output_amount,
            remaining_amount: self.remaining_amount,
            cost_basis: self.cost_basis,
            sale_price: self.sale_price,
            parent_tx: self.parent_tx,
            is_zero_cost: self.is_zero_cost,
        }
    }
}

impl InventoryItem {
    /// All amounts carried by the item are well-formed rationals.
    pub open spec fn wf(self) -> bool {
        &&& self.input_amount.wf()
        &&& self.output_amount.wf()
        &&& self.remaining_amount.wf()
        &&& self.cost_basis.wf()
        &&& (self.sale_price matches Some(p) ==> p.wf())
    }

    /// Cost basis of the asset.
    pub fn cost_basis(&self) -> (r: Amount)
        ensures
            r == self.cost_basis,
    {
        self.cost_basis
    }

    /// Income of the item: fiat received for the consumed input,
    /// `sale_price * input_amount`; `None` when the item did not dispose
    /// into fiat (or the exact product is not representable).
    pub open spec fn spec_income(self) -> Option<Amount> {
        match self.sale_price {
            None => None,
            Some(sp) => spec_mul(sp, self.input_amount),
        }
    }

    /// Income of the item (see `spec_income`).
    pub fn income(&self) -> (r: Option<Amount>)
        requires
            self.wf(),
        ensures
            r == self.spec_income(),
            r matches Some(a) ==> a.wf(),
    {
        match self.sale_price {
            None => None,
            Some(sp) => sp.checked_mul(&self.input_amount),
        }
    }

    /// Expense of the item: the acquisition value of the consumed input,
    /// `input_amount * cost_basis`, defined exactly when the item carries a
    /// sale price; `None` otherwise (or when not representable).
    pub open spec fn spec_expense(self) -> Option<Amount> {
        match self.sale_price {
            None => None,
            Some(_) => spec_mul(self.input_amount, self.cost_basis),
        }
    }

    /// Expense of the item (see `spec_expense`).
    pub fn expense(&self) -> (r: Option<Amount>)
        requires
            self.wf(),
        ensures
            r == self.spec_expense(),
            r matches Some(a) ==> a.wf(),
    {
        match self.sale_price {
            None => None,
            Some(_) => self.input_amount.checked_mul(&self.cost_basis),
        }
    }

    /// Profit of the item: `income - expense`; `None` when the item was not
    /// sold into fiat (or when not representable).
    pub open spec fn spec_profit(self) -> Option<Amount> {
        match (self.spec_income(), self.spec_expense()) {
            (Some(i), Some(e)) => spec_sub(i, e),
            _ => None,
        }
    }

    /// Profit of the item (see `spec_profit`).
    pub fn profit(&self) -> (r: Option<Amount>)
        requires
            self.wf(),
        ensures
            r == self.spec_profit(),
            r matches Some(a) ==> a.wf(),
    {
        match (self.income(), self.expense()) {
            (Some(i), Some(e)) => i.checked_sub(&e),
            _ => None,
        }
    }
}

/// A non-fatal insufficient-inventory signal: a disposal asked for more of
/// an asset than its lots still held; `amount` is the exact shortfall.
#[derive(Debug)]
pub struct Shortfall {
    /// Ordinal of the disposing transaction.
    pub ordinal: u32,
    /// Asset whose inventory ran short.
    pub asset: AssetType,
    /// How much of the request could not be satisfied.
    pub amount: Amount,
}

impl Clone for Shortfall {
    fn clone(&self) -> (r: Self)
        ensures
            r == *self,
    {
        Shortfall { ordinal: self.ordinal, asset: self.asset.clone(), amount: self.amount }
    }
}

/// Fatal conditions that abort ledger construction.
#[derive(Clone, Copy, Debug, PartialEq, Eq, Structural)]
pub enum LedgerError {
    /// An acquisition produced a zero output amount, or a disposal into a
    /// non-fiat asset has no representable exchange rate: no cost basis.
    MissingCostBasis { ordinal: u32 },
    /// A zero-cost acquisition has no price entry for its asset and date.
    MissingPrice { ordinal: u32 },
    /// A disposal references an asset that was never acquired.
    AssetNotFound { ordinal: u32 },
    /// An exact intermediate amount is not representable.
    Overflow { ordinal: u32 },
}

/// The zero amount, `0 / 1`.
pub open spec fn zero_amt() -> Amount {
    Amount { num: 0, den: 1 }
}

/// All items of a sequence are well-formed.
pub open spec fn items_wf(items: Seq<InventoryItem>) -> bool {
    forall|k: int| 0 <= k < items.len() ==> (#[trigger] items[k]).wf()
}

/// State of the model while lots are being consumed for one disposal.
pub struct ConsumeOut {
    /// The inventory, with consumed lots' remaining amounts decreased.
    pub items: Seq<InventoryItem>,
    /// Fragments produced so far, in consumption order.
    pub frags: Seq<InventoryItem>,
    /// Input amount still to satisfy.
    pub need: Amount,
    /// Output amount not yet allocated to a fragment.
    pub rem_out: Amount,
    /// Fatal error, if one occurred.
    pub error: Option<LedgerError>,
}

/// One consumption step succeeded on lot `i`; continue with the rest.
///
/// `consumed` of the input asset was taken from the lot, whose remaining
/// amount becomes `new_rem`; `new_need` is what is still to satisfy and
/// `cb` the fragment's cost basis.
pub open spec fn spec_consume_take(
    items: Seq<InventoryItem>,
    i: int,
    tx: Transaction,
    need: Amount,
    rem_out: Amount,
    frags: Seq<InventoryItem>,
    consumed: Amount,
    new_rem: Amount,
    new_need: Amount,
    cb: Amount,
) -> ConsumeOut
    decreases items.len() - i, 0int,
    when 0 <= i < items.len()
{
    let alloc = if new_need.num == 0 {
        Some((rem_out, rem_out))
    } else {
        match spec_mul(tx.output_amount, consumed) {
            None => None,
            Some(p) => match spec_div(p, tx.input_amount) {
                None => None,
                Some(na) => match spec_sub(rem_out, na) {
                    None => None,
                    Some(ro) => Some((na, ro)),
                },
            },
        }
    };
    match alloc {
        None => ConsumeOut {
            items,
            frags,
            need,
            rem_out,
            error: Some(LedgerError::Overflow { ordinal: tx.ordinal }),
        },
        Some((new_amount, new_rem_out)) => {
            let it = items[i];
            let frag = InventoryItem {
                ordinal: tx.ordinal,
                date: tx.date,
                acquisition_date: it.acquisition_date,
                input_type: tx.input_type,
                input_amount: consumed,
                output_type: tx.output_type,
                output_amount: new_amount,
                remaining_amount: new_amount,
                cost_basis: cb,
                sale_price: tx.spec_sale_price(),
                parent_tx: Some(tx.ordinal),
                is_zero_cost: it.is_zero_cost,
            };
            let updated = InventoryItem { remaining_amount: new_rem, ..it };
            spec_consume(
                items.update(i, updated),
                i + 1,
                tx,
                new_need,
                new_rem_out,
                frags.push(frag),
            )
        },
    }
}

/// The lot-consumption model: scan `items` from index `i` in insertion
/// order, consuming lots of `tx`'s input asset until `need` is satisfied.
pub open spec fn spec_consume(
    items: Seq<InventoryItem>,
    i: int,
    tx: Transaction,
    need: Amount,
    rem_out: Amount,
    frags: Seq<InventoryItem>,
) -> ConsumeOut
    decreases items.len() - i, 1int,
    when 0 <= i <= items.len()
{
    if i >= items.len() || need.num <= 0 {
        ConsumeOut { items, frags, need, rem_out, error: None }
    } else {
        let it = items[i];
        if it.output_type@ == tx.input_type@ && it.remaining_amount.num > 0 {
            let cb_opt = if tx.output_type.spec_is_fiat() {
                Some(it.cost_basis)
            } else {
                match tx.spec_cost_basis() {
                    None => None,
                    Some(rate) => spec_mul(rate, it.cost_basis),
                }
            };
            match cb_opt {
                None => {
                    let e = if !tx.output_type.spec_is_fiat() && tx.spec_cost_basis() is None {
                        LedgerError::MissingCostBasis { ordinal: tx.ordinal }
                    } else {
                        LedgerError::Overflow { ordinal: tx.ordinal }
                    };
                    ConsumeOut { items, frags, need, rem_out, error: Some(e) }
                },
                Some(cb) => {
                    if spec_lt(need, it.remaining_amount) {
                        match spec_sub(it.remaining_amount, need) {
                            None => ConsumeOut {
                                items,
                                frags,
                                need,
                                rem_out,
                                error: Some(LedgerError::Overflow { ordinal: tx.ordinal }),
                            },
                            Some(new_rem) => spec_consume_take(
                                items,
                                i,
                                tx,
                                need,
                                rem_out,
                                frags,
                                need,
                                new_rem,
                                zero_amt(),
                                cb,
                            ),
                        }
                    } else {
                        match spec_sub(need, it.remaining_amount) {
                            None => ConsumeOut {
                                items,
                                frags,
                                need,
                                rem_out,
                                error: Some(LedgerError::Overflow { ordinal: tx.ordinal }),
                            },
                            Some(new_need) => spec_consume_take(
                                items,
                                i,
                                tx,
                                need,
                                rem_out,
                                frags,
                                it.remaining_amount,
                                zero_amt(),
                                new_need,
                                cb,
                            ),
                        }
                    }
                },
            }
        } else {
            spec_consume(items, i + 1, tx, need, rem_out, frags)
        }
    }
}

/// State of the model across transactions.
pub struct BuildState {
    /// All inventory items, in creation order.
    pub items: Seq<InventoryItem>,
    /// Insufficient-inventory signals, in occurrence order.
    pub warnings: Seq<Shortfall>,
    /// Fatal error, if construction aborted.
    pub error: Option<LedgerError>,
}

/// The lot created by an acquisition: a first-generation item with no parent.
pub open spec fn spec_acquisition_item(
    tx: Transaction,
    cb: Amount,
    input_amount: Amount,
    zero_cost: bool,
) -> InventoryItem {
    InventoryItem {
        ordinal: tx.ordinal,
        date: tx.date,
        acquisition_date: tx.date,
        input_type: tx.input_type,
        input_amount,
        output_type: tx.output_type,
        output_amount: tx.output_amount,
        remaining_amount: tx.output_amount,
        cost_basis: cb,
        sale_price: None,
        parent_tx: None,
        is_zero_cost: zero_cost,
    }
}

/// A same-asset transfer loses `lost` units; it is treated as a disposal of
/// the lost amount for zero fiat proceeds.
pub open spec fn spec_synth_transfer(tx: Transaction, lost: Amount, fiat: AssetType) -> Transaction {
    Transaction { input_amount: lost, output_type: fiat, output_amount: zero_amt(), ..tx }
}

/// Disposal model: fail if the input asset was never acquired, otherwise
/// consume lots in order, append the produced fragments, and record a
/// shortfall warning if the inventory ran out.
pub open spec fn spec_disposal(st: BuildState, tx: Transaction) -> BuildState {
    if !(exists|j: int|
        0 <= j < st.items.len() && (#[trigger] st.items[j]).output_type@ == tx.input_type@) {
        BuildState { error: Some(LedgerError::AssetNotFound { ordinal: tx.ordinal }), ..st }
    } else {
        let c = spec_consume(st.items, 0, tx, tx.input_amount, tx.output_amount, Seq::empty());
        if c.error is Some {
            BuildState { error: c.error, ..st }
        } else {
            BuildState {
                items: c.items + c.frags,
                warnings: if c.need.num > 0 {
                    st.warnings.push(
                        Shortfall { ordinal: tx.ordinal, asset: tx.input_type, amount: c.need },
                    )
                } else {
                    st.warnings
                },
                error: None,
            }
        }
    }
}

/// Dispatch one transaction against the model state.
pub open spec fn spec_step<P: PriceProvider + ?Sized>(
    p: &P,
    st: BuildState,
    tx: Transaction,
    fiat: AssetType,
) -> BuildState {
    if st.error is Some {
        st
    } else {
        match tx.tx_type {
            TransactionType::Buying | TransactionType::Invoice => match tx.spec_cost_basis() {
                None => BuildState {
                    error: Some(LedgerError::MissingCostBasis { ordinal: tx.ordinal }),
                    ..st
                },
                Some(cb) => BuildState {
                    items: st.items.push(spec_acquisition_item(tx, cb, tx.input_amount, false)),
                    ..st
                },
            },
            TransactionType::Interest | TransactionType::Airdrop => match p.spec_get_price(
                tx.output_type@,
                tx.date,
            ) {
                None => BuildState {
                    error: Some(LedgerError::MissingPrice { ordinal: tx.ordinal }),
                    ..st
                },
                Some(price) => BuildState {
                    items: st.items.push(spec_acquisition_item(tx, price, zero_amt(), true)),
                    ..st
                },
            },
            TransactionType::Selling | TransactionType::Swap | TransactionType::Nft
                | TransactionType::Lock | TransactionType::Fees => spec_disposal(st, tx),
            TransactionType::Transfer | TransactionType::Bridge => {
                if tx.input_type@ == tx.output_type@ {
                    match spec_sub(tx.input_amount, tx.output_amount) {
                        None => BuildState {
                            error: Some(LedgerError::Overflow { ordinal: tx.ordinal }),
                            ..st
                        },
                        Some(lost) => spec_disposal(st, spec_synth_transfer(tx, lost, fiat)),
                    }
                } else {
                    spec_disposal(st, tx)
                }
            },
        }
    }
}

/// The full construction model: a left fold of `spec_step` over the
/// transaction sequence, starting from the empty ledger.
pub open spec fn spec_build<P: PriceProvider + ?Sized>(
    p: &P,
    txs: Seq<Transaction>,
    fiat: AssetType,
) -> BuildState
    decreases txs.len(),
{
    if txs.len() == 0 {
        BuildState { items: Seq::empty(), warnings: Seq::empty(), error: None }
    } else {
        spec_step(p, spec_build(p, txs.drop_last(), fiat), txs.last(), fiat)
    }
}

/// Once a prefix of the fold fails, the whole fold fails with that error.
pub proof fn lemma_build_error_persists<P: PriceProvider + ?Sized>(
    p: &P,
    txs: Seq<Transaction>,
    fiat: AssetType,
    k: int,
)
    requires
        0 <= k <= txs.len(),
        spec_build(p, txs.take(k), fiat).error is Some,
    ensures
        spec_build(p, txs, fiat).error == spec_build(p, txs.take(k), fiat).error,
    decreases txs.len() - k,
{
    if k == txs.len() {
        assert(txs.take(k) =~= txs);
    } else {
        assert(txs.take(k + 1).drop_last() =~= txs.take(k));
        assert(txs.take(k + 1).last() == txs[k]);
        lemma_build_error_persists(p, txs, fiat, k + 1);
    }
}

/// Whether some lot of `asset` exists in the inventory.
fn has_asset(items: &Vec<InventoryItem>, asset: &AssetType) -> (r: bool)
    ensures
        r == exists|j: int|
            0 <= j < items@.len() && (#[trigger] items@[j]).output_type@ == asset@,
{
    let n = items.len();
    for j in 0..n
        invariant
            n == items@.len(),
            forall|k: int| 0 <= k < j ==> (#[trigger] items@[k]).output_type@ != asset@,
    {
        if items[j].output_type == *asset {
            return true;
        }
    }
    false
}

/// Consume lots for one disposal transaction, mirroring `spec_disposal`.
fn process_disposal(
    items: &mut Vec<InventoryItem>,
    warnings: &mut Vec<Shortfall>,
    tx: &Transaction,
) -> (r: Result<(), LedgerError>)
    requires
        tx.wf(),
        items_wf(old(items)@),
    ensures
        ({
            let st0 = BuildState { items: old(items)@, warnings: old(warnings)@, error: None };
            let st1 = spec_disposal(st0, *tx);
            match r {
                Ok(()) => st1.error is None && final(items)@ == st1.items && final(warnings)@
                    == st1.warnings && items_wf(final(items)@),
                Err(e) => st1.error == Some(e),
            }
        }),
{
    if !has_asset(items, &tx.input_type) {
        return Err(LedgerError::AssetNotFound { ordinal: tx.ordinal });
    }
    let ghost items0 = items@;
    let mut need = tx.input_amount;
    let mut rem_out = tx.output_amount;
    let mut frags: Vec<InventoryItem> = Vec::new();
    let len = items.len();
    let mut i: usize = 0;
    while i < len
        invariant
            len == items@.len(),
            i <= len,
            tx.wf(),
            items_wf(items@),
            items_wf(frags@),
            need.wf(),
            rem_out.wf(),
            items0 == old(items)@,
            warnings@ == old(warnings)@,
            exists|j: int|
                0 <= j < items0.len() && (#[trigger] items0[j]).output_type@ == tx.input_type@,
            spec_consume(items0, 0, *tx, tx.input_amount, tx.output_amount, Seq::empty())
                == spec_consume(items@, i as int, *tx, need, rem_out, frags@),
        decreases len - i,
    {
        let ghost pre_items = items@;
        let ghost pre_need = need;
        let ghost pre_rem_out = rem_out;
        let ghost pre_frags = frags@;
        let lot_matches = items[i].output_type == tx.input_type;
        if need.is_pos() && lot_matches && items[i].remaining_amount.is_pos() {
            // Cost-basis chaining: a sale into fiat keeps the consumed lot's
            // basis; a swap compounds the lot's basis with the exchange rate.
            let cb: Amount;
            if tx.output_type.is_fiat() {
                cb = items[i].cost_basis;
            } else {
                match tx.cost_basis() {
                    None => {
                        proof {
                            assert(spec_consume(items@, i as int, *tx, need, rem_out, frags@).error
                                == Some(LedgerError::MissingCostBasis { ordinal: tx.ordinal }));
                        }
                        return Err(LedgerError::MissingCostBasis { ordinal: tx.ordinal });
                    },
                    Some(rate) => match rate.checked_mul(&items[i].cost_basis) {
                        None => {
                            proof {
                                assert(spec_consume(
                                    items@,
                                    i as int,
                                    *tx,
                                    need,
                                    rem_out,
                                    frags@,
                                ).error == Some(LedgerError::Overflow { ordinal: tx.ordinal }));
                            }
                            return Err(LedgerError::Overflow { ordinal: tx.ordinal });
                        },
                        Some(c) => {
                            cb = c;
                        },
                    },
                }
            }
            let consumed: Amount;
            let new_rem: Amount;
            let new_need: Amount;
            if need.lt(&items[i].remaining_amount) {
                match items[i].remaining_amount.checked_sub(&need) {
                    None => {
                        proof {
                            assert(spec_consume(items@, i as int, *tx, need, rem_out, frags@).error
                                == Some(LedgerError::Overflow { ordinal: tx.ordinal }));
                        }
                        return Err(LedgerError::Overflow { ordinal: tx.ordinal });
                    },
                    Some(nr) => {
                        consumed = need;
                        new_rem = nr;
                        new_need = Amount::zero();
                    },
                }
            } else {
                match need.checked_sub(&items[i].remaining_amount) {
                    None => {
                        proof {
                            assert(spec_consume(items@, i as int, *tx, need, rem_out, frags@).error
                                == Some(LedgerError::Overflow { ordinal: tx.ordinal }));
                        }
                        return Err(LedgerError::Overflow { ordinal: tx.ordinal });
                    },
                    Some(nn) => {
                        consumed = items[i].remaining_amount;
                        new_rem = Amount::zero();
                        new_need = nn;
                    },
                }
            }
            proof {
                assert(spec_consume(items@, i as int, *tx, need, rem_out, frags@)
                    == spec_consume_take(
                    items@,
                    i as int,
                    *tx,
                    need,
                    rem_out,
                    frags@,
                    consumed,
                    new_rem,
                    new_need,
                    cb,
                ));
            }
            // Proportional output allocation; the last fragment absorbs the
            // whole remainder, so the fragments' outputs sum exactly.
            let new_amount: Amount;
            let new_rem_out: Amount;
            if new_need.is_zero() {
                new_amount = rem_out;
                new_rem_out = rem_out;
            } else {
                match tx.output_amount.checked_mul(&consumed) {
                    None => {
                        proof {
                            assert(spec_consume(items@, i as int, *tx, need, rem_out, frags@).error
                                == Some(LedgerError::Overflow { ordinal: tx.ordinal }));
                        }
                        return Err(LedgerError::Overflow { ordinal: tx.ordinal });
                    },
                    Some(p) => match p.checked_div(&tx.input_amount) {
                        None => {
                            proof {
                                assert(spec_consume(
                                    items@,
                                    i as int,
                                    *tx,
                                    need,
                                    rem_out,
                                    frags@,
                                ).error == Some(LedgerError::Overflow { ordinal: tx.ordinal }));
                            }
                            return Err(LedgerError::Overflow { ordinal: tx.ordinal });
                        },
                        Some(na) => match rem_out.checked_sub(&na) {
                            None => {
                                proof {
                                    assert(spec_consume(
                                        items@,
                                        i as int,
                                        *tx,
                                        need,
                                        rem_out,
                                        frags@,
                                    ).error == Some(
                                        LedgerError::Overflow { ordinal: tx.ordinal },
                                    ));
                                }
                                return Err(LedgerError::Overflow { ordinal: tx.ordinal });
                            },
                            Some(ro) => {
                                new_amount = na;
                                new_rem_out = ro;
                            },
                        },
                    },
                }
            }
            let frag = InventoryItem {
                ordinal: tx.ordinal,
                date: tx.date,
                acquisition_date: items[i].acquisition_date,
                input_type: tx.input_type.clone(),
                input_amount: consumed,
                output_type: tx.output_type.clone(),
                output_amount: new_amount,
                remaining_amount: new_amount,
                cost_basis: cb,
                sale_price: tx.sale_price(),
                parent_tx: Some(tx.ordinal),
                is_zero_cost: items[i].is_zero_cost,
            };
            let ghost gfrag = frag;
            items[i].remaining_amount = new_rem;
            frags.push(frag);
            need = new_need;
            rem_out = new_rem_out;
            proof {
                let updated = InventoryItem { remaining_amount: new_rem, ..pre_items[i as int] };
                assert(items@ =~= pre_items.update(i as int, updated));
                assert(frags@ == pre_frags.push(gfrag));
                assert(spec_consume_take(
                    pre_items,
                    i as int,
                    *tx,
                    pre_need,
                    pre_rem_out,
                    pre_frags,
                    consumed,
                    new_rem,
                    new_need,
                    cb,
                ) == spec_consume(items@, i as int + 1, *tx, need, rem_out, frags@));
            }
        }
        i += 1;
    }
    proof {
        assert(spec_consume(items0, 0, *tx, tx.input_amount, tx.output_amount, Seq::empty())
            == spec_consume(items@, len as int, *tx, need, rem_out, frags@));
    }
    if need.is_pos() {
        warnings.push(Shortfall { ordinal: tx.ordinal, asset: tx.input_type.clone(), amount: need });
    }
    items.append(&mut frags);
    Ok(())
}

/// Dispatch one transaction against the ledger state, mirroring `spec_step`.
fn add_transaction<P: PriceProvider>(
    items: &mut Vec<InventoryItem>,
    warnings: &mut Vec<Shortfall>,
    tx: &Transaction,
    provider: &P,
    fiat: &AssetType,
) -> (r: Result<(), LedgerError>)
    requires
        provider.wf(),
        tx.wf(),
        items_wf(old(items)@),
    ensures
        ({
            let st0 = BuildState { items: old(items)@, warnings: old(warnings)@, error: None };
            let st1 = spec_step(provider, st0, *tx, *fiat);
            match r {
                Ok(()) => st1.error is None && final(items)@ == st1.items && final(warnings)@
                    == st1.warnings && items_wf(final(items)@),
                Err(e) => st1.error == Some(e),
            }
        }),
{
    match tx.tx_type {
        TransactionType::Buying | TransactionType::Invoice => {
            match tx.cost_basis() {
                None => Err(LedgerError::MissingCostBasis { ordinal: tx.ordinal }),
                Some(cb) => {
                    let item = InventoryItem {
                        ordinal: tx.ordinal,
                        date: tx.date,
                        acquisition_date: tx.date,
                        input_type: tx.input_type.clone(),
                        input_amount: tx.input_amount,
                        output_type: tx.output_type.clone(),
                        output_amount: tx.output_amount,
                        remaining_amount: tx.output_amount,
                        cost_basis: cb,
                        sale_price: None,
                        parent_tx: None,
                        is_zero_cost: false,
                    };
                    items.push(item);
                    Ok(())
                },
            }
        },
        TransactionType::Interest | TransactionType::Airdrop => {
            match provider.get_price(&tx.output_type, tx.date) {
                None => Err(LedgerError::MissingPrice { ordinal: tx.ordinal }),
                Some(price) => {
                    let item = InventoryItem {
                        ordinal: tx.ordinal,
                        date: tx.date,
                        acquisition_date: tx.date,
                        input_type: tx.input_type.clone(),
                        input_amount: Amount::zero(),
                        output_type: tx.output_type.clone(),
                        output_amount: tx.output_amount,
                        remaining_amount: tx.output_amount,
                        cost_basis: price,
                        sale_price: None,
                        parent_tx: None,
                        is_zero_cost: true,
                    };
                    items.push(item);
                    Ok(())
                },
            }
        },
        TransactionType::Selling | TransactionType::Swap | TransactionType::Nft
            | TransactionType::Lock | TransactionType::Fees => {
            process_disposal(items, warnings, tx)
        },
        TransactionType::Transfer | TransactionType::Bridge => {
            if tx.input_type == tx.output_type {
                match tx.input_amount.checked_sub(&tx.output_amount) {
                    None => Err(LedgerError::Overflow { ordinal: tx.ordinal }),
                    Some(lost) => {
                        let synth = Transaction {
                            ordinal: tx.ordinal,
                            date: tx.date,
                            tx_type: tx.tx_type,
                            input_type: tx.input_type.clone(),
                            input_amount: lost,
                            output_type: fiat.clone(),
                            output_amount: Amount::zero(),
                            note: tx.note.clone(),
                        };
                        proof {
                            assert(synth == spec_synth_transfer(*tx, lost, *fiat));
                        }
                        process_disposal(items, warnings, &synth)
                    },
                }
            } else {
                process_disposal(items, warnings, tx)
            }
        },
    }
}

/// The FIFO ledger: every inventory item ever created, in creation order,
/// together with the transactions that produced them and the
/// insufficient-inventory warnings collected along the way.
#[derive(Debug)]
pub struct Ledger {
    /// All transactions, in processing order.
    pub transactions: Vec<Transaction>,
    /// Every inventory item ever created, in creation order.  Creation order
    /// coincides with ordinal order because transactions are processed in
    /// order and fragments carry the consuming transaction's ordinal.
    pub items: Vec<InventoryItem>,
    /// Insufficient-inventory signals, in occurrence order.
    pub warnings: Vec<Shortfall>,
    /// The designated fiat currency.
    pub fiat: AssetType,
}

impl Ledger {
    /// All items hold well-formed amounts.
    pub open spec fn wf(self) -> bool {
        items_wf(self.items@)
    }

    /// Build the ledger from a transaction list, resolving zero-cost
    /// acquisitions through `provider`.
    ///
    /// Returns exactly the state of the `spec_build` model: on success the
    /// items and warnings of the model, on failure the model's error.
    /// Insufficient inventory is not an error: it is recorded as a
    /// `Shortfall` warning and processing continues.
    pub fn new<P: PriceProvider>(transactions: Vec<Transaction>, provider: &P) -> (r: Result<
        Ledger,
        LedgerError,
    >)
        requires
            provider.wf(),
            forall|i: int|
                0 <= i < transactions@.len() ==> (#[trigger] transactions@[i]).wf(),
        ensures
            match r {
                Ok(l) => {
                    &&& l.fiat@ == "EUR"@
                    &&& l.transactions@ == transactions@
                    &&& l.wf()
                    &&& spec_build(provider, transactions@, l.fiat) == (BuildState {
                        items: l.items@,
                        warnings: l.warnings@,
                        error: None,
                    })
                },
                Err(e) => exists|fiat: AssetType|
                    (#[trigger] fiat@) == "EUR"@ && spec_build(provider, transactions@, fiat).error
                        == Some(e),
            },
    {
        let fiat = AssetType::EUR();
        let mut items: Vec<InventoryItem> = Vec::new();
        let mut warnings: Vec<Shortfall> = Vec::new();
        proof {
            assert(transactions@.take(0) =~= Seq::<Transaction>::empty());
        }
        let n = transactions.len();
        for idx in 0..n
            invariant
                n == transactions@.len(),
                provider.wf(),
                forall|k: int|
                    0 <= k < transactions@.len() ==> (#[trigger] transactions@[k]).wf(),
                fiat@ == "EUR"@,
                items_wf(items@),
                spec_build(provider, transactions@.take(idx as int), fiat) == (BuildState {
                    items: items@,
                    warnings: warnings@,
                    error: None,
                }),
        {
            let ghost pre_items = items@;
            let ghost pre_warnings = warnings@;
            let tx = &transactions[idx];
            let res = add_transaction(&mut items, &mut warnings, tx, provider, &fiat);
            proof {
                assert(transactions@.take(idx as int + 1).drop_last() =~= transactions@.take(
                    idx as int,
                ));
                assert(transactions@.take(idx as int + 1).last() == transactions@[idx as int]);
            }
            if let Err(e) = res {
                proof {
                    lemma_build_error_persists(provider, transactions@, fiat, idx as int + 1);
                }
                return Err(e);
            }
        }
        proof {
            assert(transactions@.take(n as int) =~= transactions@);
        }
        Ok(Ledger { transactions, items, warnings, fiat })
    }

    /// The inventory items, in the order their transactions appear.
    ///
    /// The result is a pure function of the built ledger: repeated calls
    /// yield the same sequence.
    pub fn in_order(&self) -> (r: &Vec<InventoryItem>)
        ensures
            r@ == self.items@,
    {
        &self.items
    }

    /// The insufficient-inventory warnings recorded during construction,
    /// in occurrence order.
    pub fn shortfalls(&self) -> (r: &Vec<Shortfall>)
        ensures
            r@ == self.warnings@,
    {
        &self.warnings
    }
}

} // verus!
