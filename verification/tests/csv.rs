use csv_table::table::{CsvError, CsvParseResult};

fn owned(fields: &[&str]) -> Vec<String> {
    fields.iter().map(|f| f.to_string()).collect()
}

fn sample_table() -> CsvParseResult {
    CsvParseResult::new(
        owned(&["x", "y"]),
        vec![owned(&["1", "2"]), owned(&["3", "4"])],
    )
}

#[test]
fn header_line_yields_column_names() {
    let fields = CsvParseResult::read_row("a,b,c", 3).unwrap();
    assert_eq!(fields, owned(&["a", "b", "c"]));
}

#[test]
fn quoted_comma_does_not_split_and_quotes_stay_verbatim() {
    let fields = CsvParseResult::read_row("1,\"2,3\",4", 3).unwrap();
    assert_eq!(fields, owned(&["1", "\"2,3\"", "4"]));
}

#[test]
fn second_row_maps_names_to_values() {
    let pairs = sample_table().get_row(1).unwrap();
    assert_eq!(
        pairs,
        vec![
            ("x".to_string(), "3".to_string()),
            ("y".to_string(), "4".to_string()),
        ]
    );
}

#[test]
fn first_row_maps_names_to_values() {
    let pairs = sample_table().get_row(0).unwrap();
    assert_eq!(
        pairs,
        vec![
            ("x".to_string(), "1".to_string()),
            ("y".to_string(), "2".to_string()),
        ]
    );
}

#[test]
fn row_index_at_row_count_is_out_of_range() {
    let table = sample_table();
    assert_eq!(table.get_row(2), Err(CsvError::RowIndexOutOfRange));
    assert_eq!(table.get_row(usize::MAX), Err(CsvError::RowIndexOutOfRange));
}

#[test]
fn too_few_fields_is_malformed() {
    assert_eq!(
        CsvParseResult::read_row("1,2", 3),
        Err(CsvError::MalformedRow)
    );
}

#[test]
fn too_many_fields_is_malformed() {
    assert_eq!(
        CsvParseResult::read_row("1,2,3,4", 3),
        Err(CsvError::MalformedRow)
    );
}

#[test]
fn single_column_line_is_one_whole_field() {
    let fields = CsvParseResult::read_row("hello world", 1).unwrap();
    assert_eq!(fields, owned(&["hello world"]));
}

#[test]
fn empty_line_is_one_empty_field() {
    let fields = CsvParseResult::read_row("", 1).unwrap();
    assert_eq!(fields, owned(&[""]));
}

#[test]
fn empty_fields_between_commas_are_kept() {
    let fields = CsvParseResult::read_row(",a,,", 4).unwrap();
    assert_eq!(fields, owned(&["", "a", "", ""]));
}

#[test]
fn no_quotes_behaves_like_naive_split() {
    let line = "one,two,,four";
    let naive: Vec<String> = line.split(',').map(|f| f.to_string()).collect();
    let fields = CsvParseResult::read_row(line, naive.len()).unwrap();
    assert_eq!(fields, naive);
}

#[test]
fn parsing_twice_gives_identical_fields() {
    let line = "1,\"2,3\",4";
    let first = CsvParseResult::read_row(line, 3).unwrap();
    let second = CsvParseResult::read_row(line, 3).unwrap();
    assert_eq!(first, second);
}

#[test]
fn joining_fields_with_commas_restores_the_line() {
    let line = "a,\"b,c\",,\"d";
    let fields = CsvParseResult::read_row(line, 4).unwrap();
    assert_eq!(fields.join(","), line);
}

#[test]
fn odd_quote_count_is_tolerated() {
    let fields = CsvParseResult::read_row("a,\"b,c", 2).unwrap();
    assert_eq!(fields, owned(&["a", "\"b,c"]));
}

#[test]
fn quote_state_closes_and_reopens() {
    let fields = CsvParseResult::read_row("\"a,a\",b,\"c,c\"", 3).unwrap();
    assert_eq!(fields, owned(&["\"a,a\"", "b", "\"c,c\""]));
}

#[test]
fn non_ascii_text_is_split_by_characters() {
    let fields = CsvParseResult::read_row("héllo,wörld", 2).unwrap();
    assert_eq!(fields, owned(&["héllo", "wörld"]));
}
