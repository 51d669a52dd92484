use fifo_ledger::csv::{CsvHelper, CsvLineData, OutputLine};

struct Row;

impl CsvLineData for Row {
    fn ordinal(&self) -> String {
        "1".to_string()
    }

    fn transaction_date(&self) -> String {
        "01.01.2023".to_string()
    }

    fn acquisition_date(&self) -> String {
        "01.01.2023".to_string()
    }

    fn action(&self) -> String {
        "Buying".to_string()
    }

    fn input_type(&self) -> String {
        "EUR".to_string()
    }

    fn input_amount(&self) -> String {
        "1000".to_string()
    }

    fn output_type(&self) -> String {
        "X".to_string()
    }

    fn output_amount(&self) -> String {
        "10".to_string()
    }

    fn income_amount(&self) -> Option<String> {
        None
    }

    fn expense_amount(&self) -> Option<String> {
        None
    }

    fn profit(&self) -> Option<String> {
        Some("5".to_string())
    }
}

#[test]
fn csv_header_joins_the_column_names() {
    let helper = CsvHelper::new(";".to_string());
    let expected = "Ordinal;Transaction Date;Acquisition Date;Action;Input Type;Input Amount;Output Type;Output Amount;Income Amount;Expense Amount;Profit";
    assert_eq!(helper.csv_header(), expected);
}

#[test]
fn csv_line_renders_absent_cells_empty() {
    let helper = CsvHelper::new(",".to_string());
    let elements = helper.to_csv_line_elements(Row);
    assert_eq!(elements.len(), 11);
    assert_eq!(
        helper.to_csv_line(Row),
        "1,01.01.2023,01.01.2023,Buying,EUR,1000,X,10,,,5"
    );
}

#[test]
fn output_line_renders_eight_columns() {
    assert_eq!(
        OutputLine::csv_header(";".to_string()),
        "Ordinal;Date;Action;Input Type;Input Amount;Output Type;Output Amount;Net Amount"
    );
    let line = OutputLine {
        ordinal: "2".to_string(),
        date: "02.01.2023".to_string(),
        action: "Selling".to_string(),
        input_type: "X".to_string(),
        input_amount: "10".to_string(),
        output_type: "EUR".to_string(),
        output_amount: "1500".to_string(),
        net_amount: "500".to_string(),
    };
    assert_eq!(
        line.to_csv_line(";".to_string()),
        "2;02.01.2023;Selling;X;10;EUR;1500;500"
    );
}
