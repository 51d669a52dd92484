//! CSV assembly helpers.
//!
//! The library renders no numbers or dates itself; callers supply each
//! cell as a string and these helpers assemble verified CSV lines: the
//! result is exactly the cells joined by the configured delimiter.

use vstd::prelude::*;
use vstd::string::StringExecFns;

verus! {

/// `parts` joined by `delim`.
pub open spec fn spec_join(parts: Seq<Seq<char>>, delim: Seq<char>) -> Seq<char>
    decreases parts.len(),
{
    if parts.len() == 0 {
        Seq::empty()
    } else if parts.len() == 1 {
        parts[0]
    } else {
        spec_join(parts.drop_last(), delim) + delim + parts.last()
    }
}

/// The views of a list of strings.
pub open spec fn string_views(parts: Seq<String>) -> Seq<Seq<char>> {
    parts.map(|i: int, s: String| s@)
}

/// Join strings with a delimiter; the result is exactly `spec_join` of the
/// parts' views.
fn join_strings(parts: &Vec<String>, delim: &str) -> (r: String)
    ensures
        r@ == spec_join(string_views(parts@), delim@),
{
    let mut out = String::new();
    proof {
        assert(string_views(parts@.take(0)) =~= Seq::<Seq<char>>::empty());
    }
    let n = parts.len();
    for i in 0..n
        invariant
            n == parts@.len(),
            out@ == spec_join(string_views(parts@.take(i as int)), delim@),
    {
        if i > 0 {
            out.append(delim);
        }
        out.append(parts[i].as_str());
        proof {
            let pre = string_views(parts@.take(i as int));
            let cur = string_views(parts@.take(i as int + 1));
            assert(cur =~= pre.push(parts@[i as int]@));
            assert(cur.drop_last() =~= pre);
            assert(cur.last() == parts@[i as int]@);
            if i == 0 {
                assert(out@ =~= spec_join(cur, delim@));
            } else {
                assert(out@ =~= spec_join(pre, delim@) + delim@ + parts@[i as int]@);
            }
        }
    }
    proof {
        assert(parts@.take(n as int) =~= parts@);
    }
    out
}

/// Data for a single line of the output CSV file.  Implementations hand
/// each cell back as an already rendered string; `None` cells render empty.
pub trait CsvLineData {
    /// Overall ordinal of the transaction.
    fn ordinal(&self) -> String;

    /// Date of the transaction.
    fn transaction_date(&self) -> String;

    /// Date of acquisition of the asset.
    fn acquisition_date(&self) -> String;

    /// Action taken in the transaction (e.g. swap or sell).
    fn action(&self) -> String;

    /// Type of asset used as input in the transaction.
    fn input_type(&self) -> String;

    /// Amount of asset used as input in the transaction.
    fn input_amount(&self) -> String;

    /// Type of asset received as output in the transaction.
    fn output_type(&self) -> String;

    /// Amount of asset received as output in the transaction.
    fn output_amount(&self) -> String;

    /// Income amount; `None` if the transaction does not pay out fiat.
    fn income_amount(&self) -> Option<String>;

    /// Expense amount; `None` if the transaction does not pay out fiat.
    fn expense_amount(&self) -> Option<String>;

    /// Profit amount; `None` if the transaction does not pay out fiat.
    fn profit(&self) -> Option<String>;
}

/// The column names of the output CSV file, in order.
pub open spec fn spec_header_elements() -> Seq<Seq<char>> {
    seq![
        "Ordinal"@,
        "Transaction Date"@,
        "Acquisition Date"@,
        "Action"@,
        "Input Type"@,
        "Input Amount"@,
        "Output Type"@,
        "Output Amount"@,
        "Income Amount"@,
        "Expense Amount"@,
        "Profit"@,
    ]
}

/// Helper for assembling the output CSV file: the header and one line per
/// `CsvLineData` value, all joined with a configurable delimiter.
pub struct CsvHelper {
    /// Delimiter between cells.
    pub delimiter: String,
}

impl CsvHelper {
    /// Create a new `CsvHelper` with the given delimiter.
    pub fn new(delimiter: String) -> (r: Self)
        ensures
            r.delimiter == delimiter,
    {
        CsvHelper { delimiter }
    }

    /// Discrete elements of the CSV header.
    pub fn csv_header_elements(&self) -> (r: Vec<String>)
        ensures
            string_views(r@) == spec_header_elements(),
    {
        let mut v: Vec<String> = Vec::new();
        v.push("Ordinal".to_owned());
        v.push("Transaction Date".to_owned());
        v.push("Acquisition Date".to_owned());
        v.push("Action".to_owned());
        v.push("Input Type".to_owned());
        v.push("Input Amount".to_owned());
        v.push("Output Type".to_owned());
        v.push("Output Amount".to_owned());
        v.push("Income Amount".to_owned());
        v.push("Expense Amount".to_owned());
        v.push("Profit".to_owned());
        proof {
            assert(string_views(v@) =~= spec_header_elements());
        }
        v
    }

    /// Full CSV header, as a single string.
    pub fn csv_header(&self) -> (r: String)
        ensures
            r@ == spec_join(spec_header_elements(), self.delimiter@),
    {
        let elements = self.csv_header_elements();
        join_strings(&elements, self.delimiter.as_str())
    }

    /// The eleven cells of one CSV line, with absent figures rendered empty.
    pub fn to_csv_line_elements<T: CsvLineData>(&self, data: T) -> (r: Vec<String>)
        ensures
            r@.len() == 11,
    {
        let mut v: Vec<String> = Vec::new();
        v.push(data.ordinal());
        v.push(data.transaction_date());
        v.push(data.acquisition_date());
        v.push(data.action());
        v.push(data.input_type());
        v.push(data.input_amount());
        v.push(data.output_type());
        v.push(data.output_amount());
        v.push(data.income_amount().unwrap_or_default());
        v.push(data.expense_amount().unwrap_or_default());
        v.push(data.profit().unwrap_or_default());
        v
    }

    /// One CSV line: the eleven cells joined by the delimiter.
    pub fn to_csv_line<T: CsvLineData>(&self, data: T) -> (r: String)
        ensures
            exists|parts: Seq<Seq<char>>|
                parts.len() == 11 && r@ == spec_join(parts, self.delimiter@),
    {
        let elements = self.to_csv_line_elements(data);
        let line = join_strings(&elements, self.delimiter.as_str());
        proof {
            assert(string_views(elements@).len() == 11 && line@ == spec_join(
                string_views(elements@),
                self.delimiter@,
            ));
        }
        line
    }
}

/// The column names of the compact eight-column output format.
pub open spec fn spec_output_line_header() -> Seq<Seq<char>> {
    seq![
        "Ordinal"@,
        "Date"@,
        "Action"@,
        "Input Type"@,
        "Input Amount"@,
        "Output Type"@,
        "Output Amount"@,
        "Net Amount"@,
    ]
}

/// One already rendered row of the compact eight-column output format.
#[derive(Debug)]
pub struct OutputLine {
    /// Ordinal of the transaction.
    pub ordinal: String,
    /// Date of the transaction.
    pub date: String,
    /// Action taken in the transaction.
    pub action: String,
    /// Input asset.
    pub input_type: String,
    /// Input amount.
    pub input_amount: String,
    /// Output asset.
    pub output_type: String,
    /// Output amount.
    pub output_amount: String,
    /// Net amount.
    pub net_amount: String,
}

impl OutputLine {
    /// The header line of the compact format.
    pub fn csv_header(delimiter: String) -> (r: String)
        ensures
            r@ == spec_join(spec_output_line_header(), delimiter@),
    {
        let mut v: Vec<String> = Vec::new();
        v.push("Ordinal".to_owned());
        v.push("Date".to_owned());
        v.push("Action".to_owned());
        v.push("Input Type".to_owned());
        v.push("Input Amount".to_owned());
        v.push("Output Type".to_owned());
        v.push("Output Amount".to_owned());
        v.push("Net Amount".to_owned());
        proof {
            assert(string_views(v@) =~= spec_output_line_header());
        }
        join_strings(&v, delimiter.as_str())
    }

    /// This row as one line of the compact format: its eight cells joined
    /// by the delimiter.
    pub fn to_csv_line(self, delimiter: String) -> (r: String)
        ensures
            r@ == spec_join(
                seq![
                    self.ordinal@,
                    self.date@,
                    self.action@,
                    self.input_type@,
                    self.input_amount@,
                    self.output_type@,
                    self.output_amount@,
                    self.net_amount@,
                ],
                delimiter@,
            ),
    {
        let ghost expected = seq![
            self.ordinal@,
            self.date@,
            self.action@,
            self.input_type@,
            self.input_amount@,
            self.output_type@,
            self.output_amount@,
            self.net_amount@,
        ];
        let mut v: Vec<String> = Vec::new();
        v.push(self.ordinal);
        v.push(self.date);
        v.push(self.action);
        v.push(self.input_type);
        v.push(self.input_amount);
        v.push(self.output_type);
        v.push(self.output_amount);
        v.push(self.net_amount);
        proof {
            assert(string_views(v@) =~= expected);
        }
        join_strings(&v, delimiter.as_str())
    }
}

} // verus!
