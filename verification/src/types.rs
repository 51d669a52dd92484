//! Domain types: calendar dates, transaction kinds, assets and transactions.

use vstd::prelude::*;
use crate::amount::{spec_div, Amount};

verus! {

/// A calendar date (year, month, day).  The ledger only compares dates and
/// buckets them by year, so a plain value type suffices.
#[derive(Clone, Copy, Debug, PartialEq, Eq, Structural)]
pub struct Date {
    pub year: i32,
    pub month: u8,
    pub day: u8,
}

impl Date {
    /// Build a date from its components.
    pub fn new(year: i32, month: u8, day: u8) -> (r: Date)
        ensures
            r == (Date { year, month, day }),
    {
        Date { year, month, day }
    }

    /// Lexicographic order on (year, month, day): `self` is on or before `other`.
    pub open spec fn spec_le(self, other: Date) -> bool {
        self.year < other.year || (self.year == other.year && (self.month < other.month || (
        self.month == other.month && self.day <= other.day)))
    }

    /// Whether `self` is on or before `other` in calendar order.
    pub fn le(&self, other: &Date) -> (r: bool)
        ensures
            r == self.spec_le(*other),
    {
        self.year < other.year || (self.year == other.year && (self.month < other.month || (
        self.month == other.month && self.day <= other.day)))
    }
}

/// Type of transactions that modify the balance of any asset in the ledger.
#[derive(Clone, Copy, Debug, PartialEq, Eq, Structural)]
pub enum TransactionType {
    /// Invoice paid via crypto; treated as if fiat was exchanged for the asset.
    Invoice,
    /// One asset was swapped for another.
    Swap,
    /// Interest received for holding an asset.
    Interest,
    /// Buying an asset with fiat.
    Buying,
    /// Selling an asset for fiat.
    Selling,
    /// Asset was moved between two blockchains, with some tangible loss.
    Bridge,
    /// Non-fungible token was bought or sold.
    Nft,
    /// Asset was transferred between two wallets, with some tangible loss.
    Transfer,
    /// Asset was received as part of an airdrop.
    Airdrop,
    /// Asset was locked or unlocked in some protocol.
    Lock,
    /// Fees paid to execute transactions.
    Fees,
}

impl TransactionType {
    /// A zero-cost transaction acquires an asset for no fiat outlay.
    pub fn is_zero_cost(&self) -> (r: bool)
        ensures
            r == (*self is Interest || *self is Airdrop),
    {
        matches!(self, TransactionType::Interest | TransactionType::Airdrop)
    }
}

/// An asset that can be traded or held in the ledger, e.g. `BTC` or `EUR`.
/// The name is kept in canonical (trimmed, uppercase) form by its producers.
#[derive(Debug, Eq)]
pub struct AssetType {
    /// Canonical asset name.
    pub name: String,
}

impl View for AssetType {
    type V = Seq<char>;

    open spec fn view(&self) -> Seq<char> {
        self.name@
    }
}

impl Clone for AssetType {
    fn clone(&self) -> (r: Self)
        ensures
            r == *self,
    {
        AssetType { name: self.name.clone() }
    }
}

impl PartialEq for AssetType {
    fn eq(&self, other: &Self) -> (r: bool) {
        self.name == other.name
    }
}

impl vstd::std_specs::cmp::PartialEqSpecImpl for AssetType {
    open spec fn obeys_eq_spec() -> bool {
        true
    }

    open spec fn eq_spec(&self, other: &Self) -> bool {
        self.name@ == other.name@
    }
}

impl AssetType {
    /// Wrap a canonical asset name.
    pub fn new(name: String) -> (r: AssetType)
        ensures
            r == (AssetType { name }),
    {
        AssetType { name }
    }

    /// The names classified as fiat currencies.
    pub open spec fn spec_is_fiat(self) -> bool {
        self@ == "EUR"@ || self@ == "USD"@
    }

    /// Check if the asset is a fiat currency.
    pub fn is_fiat(&self) -> (r: bool)
        ensures
            r == self.spec_is_fiat(),
    {
        let eur: String = "EUR".to_owned();
        let usd: String = "USD".to_owned();
        self.name == eur || self.name == usd
    }

    /// The names classified as cryptocurrencies: non-fiat and non-empty.
    pub open spec fn spec_is_crypto(self) -> bool {
        !self.spec_is_fiat() && self@.len() != 0
    }

    /// Check if the asset is a cryptocurrency.
    pub fn is_crypto(&self) -> (r: bool)
        ensures
            r == self.spec_is_crypto(),
    {
        !self.is_fiat() && self.name.as_str().unicode_len() != 0
    }

    /// The names classified as stablecoins.
    pub open spec fn spec_is_stablecoin(self) -> bool {
        self@ == "USDC"@ || self@ == "USDT"@
    }

    /// Check if the asset is a stablecoin.
    pub fn is_stablecoin(&self) -> (r: bool)
        ensures
            r == self.spec_is_stablecoin(),
    {
        let usdc: String = "USDC".to_owned();
        let usdt: String = "USDT".to_owned();
        self.name == usdc || self.name == usdt
    }

    /// Consume self, return the inner name.
    pub fn inner(self) -> (r: String)
        ensures
            r@ == self@,
    {
        self.name
    }

    /// The euro, the designated fiat currency.
    #[allow(non_snake_case)]
    pub fn EUR() -> (r: AssetType)
        ensures
            r@ == "EUR"@,
    {
        AssetType { name: "EUR".to_owned() }
    }
}

/// A single transaction that modifies the ledger.
#[derive(Debug)]
pub struct Transaction {
    /// Ordinal number of the transaction in the ledger (1-based).
    pub ordinal: u32,
    /// Date on which the transaction was made.
    pub date: Date,
    /// Type of transaction (e.g. selling or a swap).
    pub tx_type: TransactionType,
    /// Type of the input token.
    pub input_type: AssetType,
    /// Amount of the input token.
    pub input_amount: Amount,
    /// Type of the output token.
    pub output_type: AssetType,
    /// Amount of the output token.
    pub output_amount: Amount,
    /// Free text note about the transaction.
    pub note: String,
}

impl Clone for Transaction {
    fn clone(&self) -> (r: Self)
        ensures
            r == *self,
    {
        Transaction {
            ordinal: self.ordinal,
            date: self.date,
            tx_type: self.tx_type,
            input_type: self.input_type.clone(),
            input_amount: self.input_amount,
            output_type: self.output_type.clone(),
            output_amount: self.output_amount,
            note: self.note.clone(),
        }
    }
}

impl Transaction {
    /// Both amounts are well-formed rationals.
    pub open spec fn wf(self) -> bool {
        self.input_amount.wf() && self.output_amount.wf()
    }

    /// Create a new `Transaction`.
    #[allow(clippy::too_many_arguments)]
    pub fn new(
        ordinal: u32,
        date: Date,
        tx_type: TransactionType,
        input_type: AssetType,
        input_amount: Amount,
        output_type: AssetType,
        output_amount: Amount,
        note: String,
    ) -> (r: Transaction)
        ensures
            r == (Transaction {
                ordinal,
                date,
                tx_type,
                input_type,
                input_amount,
                output_type,
                output_amount,
                note,
            }),
    {
        Transaction { ordinal, date, tx_type, input_type, input_amount, output_type, output_amount, note }
    }

    /// Ordinal number of the transaction in the sheet.
    pub fn ordinal(&self) -> (r: u32)
        ensures
            r == self.ordinal,
    {
        self.ordinal
    }

    /// Consume this transaction and return one with a different ordinal.
    pub fn new_with_ordinal(self, ordinal: u32) -> (r: Transaction)
        ensures
            r == (Transaction { ordinal, ..self }),
    {
        Transaction { ordinal, ..self }
    }

    /// Date on which the transaction was made.
    pub fn date(&self) -> (r: Date)
        ensures
            r == self.date,
    {
        self.date
    }

    /// Type of the transaction.
    pub fn tx_type(&self) -> (r: TransactionType)
        ensures
            r == self.tx_type,
    {
        self.tx_type
    }

    /// Input token and amount.
    pub fn input(&self) -> (r: (AssetType, Amount))
        ensures
            r.0 == self.input_type,
            r.1 == self.input_amount,
    {
        (self.input_type.clone(), self.input_amount)
    }

    /// Output token and amount.
    pub fn output(&self) -> (r: (AssetType, Amount))
        ensures
            r.0 == self.output_type,
            r.1 == self.output_amount,
    {
        (self.output_type.clone(), self.output_amount)
    }

    /// Free text note about the transaction.
    pub fn note(&self) -> (r: &str)
        ensures
            r@ == self.note@,
    {
        self.note.as_str()
    }

    /// Cost basis: the unit price at which the output token was acquired,
    /// `input_amount / output_amount`.  `None` when the output amount is zero
    /// or the exact quotient is not representable.
    pub open spec fn spec_cost_basis(self) -> Option<Amount> {
        if self.output_amount.num == 0 {
            None
        } else {
            spec_div(self.input_amount, self.output_amount)
        }
    }

    /// Cost basis of the transaction (see `spec_cost_basis`).
    pub fn cost_basis(&self) -> (r: Option<Amount>)
        requires
            self.wf(),
        ensures
            r == self.spec_cost_basis(),
            r matches Some(a) ==> a.wf(),
    {
        if self.output_amount.is_zero() {
            None
        } else {
            self.input_amount.checked_div(&self.output_amount)
        }
    }

    /// Sale price: the unit price at which the output token was sold,
    /// `output_amount / input_amount`, defined only for sales into fiat.
    /// `None` when the input amount is zero, the output is not fiat, or the
    /// exact quotient is not representable.
    pub open spec fn spec_sale_price(self) -> Option<Amount> {
        if self.input_amount.num == 0 || !self.output_type.spec_is_fiat() {
            None
        } else {
            spec_div(self.output_amount, self.input_amount)
        }
    }

    /// Sale price of the transaction (see `spec_sale_price`).
    pub fn sale_price(&self) -> (r: Option<Amount>)
        requires
            self.wf(),
        ensures
            r == self.spec_sale_price(),
            r matches Some(a) ==> a.wf(),
    {
        if self.input_amount.is_zero() || !self.output_type.is_fiat() {
            None
        } else {
            self.output_amount.checked_div(&self.input_amount)
        }
    }

    /// Whether some asset was acquired for zero fiat outlay (interest, airdrop).
    pub fn is_zero_cost(&self) -> (r: bool)
        ensures
            r == (self.tx_type is Interest || self.tx_type is Airdrop),
    {
        self.tx_type.is_zero_cost()
    }
}

} // verus!
