use datalints::document::{ColumnValues, DataType, Document, Field, NormalizedRecordBatch};
use datalints::lints::enum_as_float::{enum_lint_message, EnumAsFloatLinter};
use datalints::lints::number_as_string::{number_lint_message, NumberAsStringLinter};
use datalints::lints::tokenizable_string::{tokenizable_lint_message, TokenizableStringLinter};
use datalints::lints::{AggregateLinter, StreamingLinter};

fn document(columns: Vec<(&str, DataType, ColumnValues)>) -> Document {
    let mut fields = Vec::new();
    let mut values = Vec::new();
    for (name, data_type, column) in columns {
        fields.push(Field { name: name.to_string(), data_type });
        values.push(column);
    }
    Document::from(NormalizedRecordBatch::try_new(fields, values).unwrap())
}

fn strings(values: &[Option<&str>]) -> ColumnValues {
    ColumnValues::Strings(values.iter().map(|v| v.map(|s| s.to_string())).collect())
}

fn f32_bits(values: &[Option<f32>]) -> ColumnValues {
    ColumnValues::Floats(values.iter().map(|v| v.map(|x| (x as f64).to_bits())).collect())
}

fn f64_bits(values: &[Option<f64>]) -> ColumnValues {
    ColumnValues::Floats(values.iter().map(|v| v.map(|x| x.to_bits())).collect())
}

/// Decimals are read as `Float32` values, as the reader casts them.
fn decimal_bits(values: &[Option<i128>], scale: i32) -> ColumnValues {
    ColumnValues::Floats(
        values
            .iter()
            .map(|v| v.map(|x| ((x as f64 / 10f64.powi(scale)) as f32 as f64).to_bits()))
            .collect(),
    )
}

fn setup_document_with_some_numbers_and_string() -> Document {
    document(vec![
        ("a", DataType::Utf8, strings(&[Some("alpha"), Some("beta"), Some("gamma")])),
        ("b", DataType::Utf8, strings(&[Some("alpha"), None, Some("gamma")])),
        ("anum", DataType::Utf8, strings(&[Some("1278"), None, Some("718872")])),
        ("num", DataType::Utf8, strings(&[Some("12718"), Some("18389"), Some("7188782")])),
    ])
}

fn setup_document_with_lots_of_numbers_and_string() -> Document {
    let mut columns = Vec::new();
    for _ in 0..3 {
        columns.push(("a", DataType::Utf8, strings(&[Some("alpha"), Some("beta"), Some("gamma")])));
        columns.push(("b", DataType::Utf8, strings(&[Some("alpha"), None, Some("gamma")])));
        columns.push(("num", DataType::Utf8, strings(&[Some("1278"), None, Some("718872")])));
        columns.push(("num", DataType::Utf8, strings(&[Some("12718"), Some("18389"), Some("7188782")])));
    }
    document(columns)
}

fn setup_document_with_some_floats() -> Document {
    document(vec![
        ("a", DataType::Float32, f32_bits(&[Some(4.0), Some(4.0), Some(5.0)])),
        ("b", DataType::Float32, f32_bits(&[Some(4.0), None, Some(5.0)])),
        ("c", DataType::Float64, f64_bits(&[Some(4.0), None, Some(5.0)])),
        ("d", DataType::Float64, f64_bits(&[Some(4.0), Some(4.0), Some(5.0)])),
    ])
}

fn setup_document_with_some_decimals() -> Document {
    document(vec![
        ("a", DataType::Decimal128(38, 10), decimal_bits(&[Some(1), None, Some(2)], 10)),
        ("b", DataType::Decimal256(76, 10), decimal_bits(&[Some(1), None, Some(2)], 10)),
    ])
}

fn messages(v: &[&str]) -> Vec<String> {
    v.iter().map(|s| s.to_string()).collect()
}

#[test]
fn test_lint_for_enum_as_float_linter() {
    let doc = setup_document_with_some_floats();
    let mut linter = EnumAsFloatLinter::new(doc.normalized_schema());
    linter.aggregate(&doc);
    let lints = linter.lint().unwrap();

    let expected_lints = messages(&[
        "Enum represented as floating point number at column 'a'",
        "Enum represented as floating point number at column 'b'",
        "Enum represented as floating point number at column 'c'",
        "Enum represented as floating point number at column 'd'",
    ]);
    assert_eq!(lints, expected_lints);
}

#[test]
fn test_lint_for_enum_as_float_linter_many_decimal() {
    let doc = setup_document_with_some_decimals();
    let mut linter = EnumAsFloatLinter::new(doc.normalized_schema());
    linter.aggregate(&doc);
    let lints = linter.lint().unwrap();

    let expected_lints = messages(&[
        "Enum represented as floating point number at column 'a'",
        "Enum represented as floating point number at column 'b'",
    ]);
    assert_eq!(lints, expected_lints);
}

#[test]
fn enum_as_float_skips_columns_with_many_values() {
    let many: Vec<Option<f64>> = (0..10).map(|i| Some(i as f64 * 0.5)).collect();
    let mut repeated = many.clone();
    repeated.extend(many.iter().cloned());
    let doc = document(vec![
        ("wide", DataType::Float64, f64_bits(&repeated)),
        ("narrow", DataType::Float64, f64_bits(&vec![Some(1.0); 20])),
    ]);
    let mut linter = EnumAsFloatLinter::new(doc.normalized_schema());
    linter.aggregate(&doc);
    let lints = linter.lint().unwrap();
    assert_eq!(
        lints.messages(),
        &messages(&["Enum represented as floating point number at column 'narrow'"])
    );
}

#[test]
fn enum_as_float_gathers_values_over_documents_in_any_order() {
    let first: Vec<Option<f64>> = (0..5).map(|i| Some(i as f64)).collect();
    let second: Vec<Option<f64>> = (5..10).map(|i| Some(i as f64)).collect();
    let d1 = document(vec![("x", DataType::Float64, f64_bits(&first))]);
    let d2 = document(vec![("x", DataType::Float64, f64_bits(&second))]);
    let mut one = EnumAsFloatLinter::new(d1.normalized_schema());
    one.aggregate(&d1);
    let alone = one.lint();
    assert_eq!(
        alone.unwrap().messages(),
        &messages(&["Enum represented as floating point number at column 'x'"])
    );
    let mut a = EnumAsFloatLinter::new(d1.normalized_schema());
    a.aggregate(&d1);
    a.aggregate(&d2);
    a.aggregate(&d1);
    let mut b = EnumAsFloatLinter::new(d1.normalized_schema());
    b.aggregate(&d2);
    b.aggregate(&d1);
    assert!(a.lint().is_none());
    assert!(b.lint().is_none());
}

#[test]
fn enum_as_float_counts_examples_seen() {
    let doc = document(vec![
        ("s", DataType::Utf8, strings(&[Some("a"), Some("b"), None])),
        ("x", DataType::Float64, f64_bits(&[Some(1.0), None, Some(2.0)])),
        ("y", DataType::Float32, f32_bits(&[Some(1.0), Some(1.0), Some(1.0)])),
    ]);
    let mut linter = EnumAsFloatLinter::new(doc.normalized_schema());
    assert_eq!(linter.nbr_exemples_seen(), 0);
    linter.aggregate(&doc);
    assert_eq!(linter.nbr_exemples_seen(), 6);
    linter.aggregate(&doc);
    assert_eq!(linter.nbr_exemples_seen(), 12);
}

#[test]
fn enum_as_float_counts_nothing_once_every_column_is_completed() {
    let eleven: Vec<Option<f64>> = (0..11).map(|i| Some(i as f64)).collect();
    let doc = document(vec![("x", DataType::Float64, f64_bits(&eleven))]);
    let mut linter = EnumAsFloatLinter::new(doc.normalized_schema());
    linter.aggregate(&doc);
    assert_eq!(linter.nbr_exemples_seen(), 11);
    assert!(linter.all_completed());
    linter.aggregate(&doc);
    assert_eq!(linter.nbr_exemples_seen(), 11);
}

#[test]
fn enum_as_float_reports_the_same_columns_in_either_order() {
    let many: Vec<Option<f64>> = (0..11).map(|i| Some(i as f64)).collect();
    let mut few: Vec<Option<f64>> = vec![None; 11];
    few[0] = Some(1.0);
    few[1] = Some(2.0);
    let d1 = document(vec![
        ("x", DataType::Float64, f64_bits(&many)),
        ("y", DataType::Float64, f64_bits(&few)),
    ]);
    let d2 = document(vec![
        ("x", DataType::Float64, f64_bits(&[Some(50.0)])),
        ("y", DataType::Float64, f64_bits(&[Some(3.0)])),
    ]);
    let mut a = EnumAsFloatLinter::new(d1.normalized_schema());
    a.aggregate(&d1);
    a.aggregate(&d2);
    let mut b = EnumAsFloatLinter::new(d1.normalized_schema());
    b.aggregate(&d2);
    b.aggregate(&d1);
    let expected = messages(&["Enum represented as floating point number at column 'y'"]);
    assert_eq!(a.lint().unwrap(), expected);
    assert_eq!(b.lint().unwrap(), expected);
}

#[test]
fn enum_as_float_aggregating_a_document_twice_gathers_nothing_more() {
    let doc = document(vec![
        ("x", DataType::Float64, f64_bits(&[Some(1.0), Some(2.0), Some(2.0)])),
        ("y", DataType::Float64, f64_bits(&[Some(1.0), None, Some(3.0)])),
    ]);
    let mut once = EnumAsFloatLinter::new(doc.normalized_schema());
    once.aggregate(&doc);
    let mut twice = EnumAsFloatLinter::new(doc.normalized_schema());
    twice.aggregate(&doc);
    twice.aggregate(&doc);
    assert_eq!(once.completed_flags(), twice.completed_flags());
    assert_eq!(once.all_completed(), twice.all_completed());
    let expected = messages(&[
        "Enum represented as floating point number at column 'x'",
        "Enum represented as floating point number at column 'y'",
    ]);
    assert_eq!(once.lint().unwrap(), expected);
    assert_eq!(twice.lint().unwrap(), expected);
}

#[test]
fn enum_as_float_reports_float_columns_only() {
    let doc = document(vec![
        ("s", DataType::Utf8, strings(&[Some("x")])),
        ("f", DataType::Float64, f64_bits(&[Some(1.5)])),
    ]);
    let mut linter = EnumAsFloatLinter::new(doc.normalized_schema());
    linter.aggregate(&doc);
    let lints = linter.lint().unwrap();
    assert_eq!(
        lints,
        messages(&["Enum represented as floating point number at column 'f'"])
    );
}

#[test]
fn enum_as_float_reports_at_most_ten_columns() {
    let names: Vec<String> = (0..11).map(|i| format!("c{}", i)).collect();
    let doc = document(
        names
            .iter()
            .map(|n| (n.as_str(), DataType::Float64, f64_bits(&[Some(1.0)])))
            .collect(),
    );
    let mut linter = EnumAsFloatLinter::new(doc.normalized_schema());
    linter.aggregate(&doc);
    let lints = linter.lint().unwrap();
    assert_eq!(lints.len(), 10);
    assert_eq!(lints.messages()[9], "Enum represented as floating point number at column 'c9'");
}

#[test]
fn enum_as_float_marks_columns_with_many_values_completed() {
    let eleven: Vec<Option<f64>> = (0..11).map(|i| Some(i as f64)).collect();
    let mut ten: Vec<Option<f64>> = (0..10).map(|i| Some(i as f64)).collect();
    ten.push(None);
    let doc = document(vec![
        ("many", DataType::Float64, f64_bits(&eleven)),
        ("ten", DataType::Float64, f64_bits(&ten)),
    ]);
    let mut linter = EnumAsFloatLinter::new(doc.normalized_schema());
    assert_eq!(linter.completed_flags(), &vec![false, false]);
    linter.aggregate(&doc);
    assert_eq!(linter.completed_flags(), &vec![true, false]);
    assert!(!linter.all_completed());
    let more = document(vec![
        ("many", DataType::Float64, f64_bits(&[Some(100.0)])),
        ("ten", DataType::Float64, f64_bits(&[Some(100.0)])),
    ]);
    linter.aggregate(&more);
    assert_eq!(linter.completed_flags(), &vec![true, true]);
    assert!(linter.all_completed());
    assert!(linter.lint().is_none());
}

#[test]
fn test_lint_for_number_as_string_linter() {
    let doc = setup_document_with_some_numbers_and_string();
    let mut linter = NumberAsStringLinter::default();
    let lints = linter.lint(&doc).unwrap();
    let expected_lints = messages(&[
        "Number represented as string (1278) at example index 6 and at column 'anum'",
        "Number represented as string (718872) at example index 8 and at column 'anum'",
        "Number represented as string (12718) at example index 9 and at column 'num'",
        "Number represented as string (18389) at example index 10 and at column 'num'",
        "Number represented as string (7188782) at example index 11 and at column 'num'",
    ]);
    assert_eq!(lints, expected_lints);
}

#[test]
fn test_maximum_number_of_lints() {
    let doc = setup_document_with_lots_of_numbers_and_string();
    let mut linter = NumberAsStringLinter::default();
    let lints = linter.lint(&doc).unwrap();
    assert_eq!(lints.len(), linter.max_number_of_positives());
}

#[test]
fn number_as_string_counts_examples_across_documents() {
    let doc = setup_document_with_some_numbers_and_string();
    let mut linter = NumberAsStringLinter::default();
    assert_eq!(linter.lint(&doc).unwrap().len(), 5);
    assert_eq!(linter.nbr_exemples_seen(), 12);
    let lints = linter.lint(&doc).unwrap();
    assert_eq!(
        lints.messages()[0],
        "Number represented as string (1278) at example index 18 and at column 'anum'"
    );
    assert_eq!(linter.nbr_exemples_seen(), 24);
}

#[test]
fn number_as_string_pattern_accepts_digits_dots_and_commas_only() {
    let doc = document(vec![(
        "v",
        DataType::Utf8,
        strings(&[Some("1,5"), Some("3.25"), Some(""), Some("-3"), Some("1e5"), Some(" 7"), Some("."), None]),
    )]);
    let mut linter = NumberAsStringLinter::default();
    let lints = linter.lint(&doc).unwrap();
    assert_eq!(
        lints.messages(),
        &messages(&[
            "Number represented as string (1,5) at example index 0 and at column 'v'",
            "Number represented as string (3.25) at example index 1 and at column 'v'",
            "Number represented as string (.) at example index 6 and at column 'v'",
        ])
    );
}

#[test]
fn number_as_string_finds_nothing_without_numbers() {
    let doc = document(vec![("a", DataType::Utf8, strings(&[Some("alpha"), None]))]);
    let mut linter = NumberAsStringLinter::default();
    assert!(linter.lint(&doc).is_none());
    assert_eq!(linter.nbr_exemples_seen(), 2);
}

#[test]
fn lint_messages_are_exact() {
    assert_eq!(
        number_lint_message("42", 0, "c"),
        "Number represented as string (42) at example index 0 and at column 'c'"
    );
    assert_eq!(
        number_lint_message("7", 1234567890, "col"),
        "Number represented as string (7) at example index 1234567890 and at column 'col'"
    );
    assert_eq!(
        tokenizable_lint_message("a", 3, 30),
        "A feature (column a) has very long strings (3 strings over 30 byte) that are likely all unique."
    );
    assert_eq!(enum_lint_message("z"), "Enum represented as floating point number at column 'z'");
}

const LONG_1: &str = "This is a very long string, manually written by me, although it could be a bit longerThis is a very long string, manually written by me, although it could be a bit longer.This is a very long string, manually written by me, although it could be a bit longer.This is a very long string, manually written by me, although it could be a bit longer.   . ";
const LONG_2: &str = "This is another loong string, although a bit shorter.This is another loong string, although a bit shorter.This is another loong string, although a bit shorter.This is another loong string, although a bit shorter.";
const LONG_3: &str = "This is the final long string.This is the final long string.This is the final long string.This is the final long string.";
const LONG_4: &str = "VERY LONG VERY LONG VERY LONG VERY LONG VERY LONG VERY LONG VERY LONG VERY LONG VERY LONG VERY LONG VERY LONG VERY LONG VERY LONG VERY LONG VERY LONG VERY LONG VERY LONG VERY LONG VERY LONG VERY LONG VERY LONG VERY LONG VERY LONG VERY LONG VERY LONG VERY LONG VERY LONG VERY LONG VERY LONG VERY LONG VERY LONG VERY LONG VERY LONG VERY LONG VERY LONG VERY LONG VERY LONG VERY LONG VERY LONG VERY LONG VERY LONG VERY LONG VERY LONG VERY LONG VERY LONG.";

/// The columns `b` and `num` are padded with nulls to the length of `a`.
fn setup_document_with_numbers_and_long_strings() -> Document {
    document(vec![
        (
            "a",
            DataType::Utf8,
            strings(&[Some(LONG_1), Some(LONG_2), Some(LONG_3), Some("This is a smaller one"), Some("smoll"), Some(LONG_4)]),
        ),
        ("b", DataType::Utf8, strings(&[Some("alpha"), None, Some("gamma"), None, None, None])),
        ("num", DataType::Utf8, strings(&[Some("1278"), None, Some("718872"), None, None, None])),
    ])
}

#[test]
fn test_lint_for_tokenizable_string() {
    let doc = setup_document_with_numbers_and_long_strings();
    let mut linter = TokenizableStringLinter::default();
    let actual_lints = linter.lint(&doc).unwrap();
    let expected_lints = messages(&[
        "A feature (column a) has very long strings (3 strings over 30 byte) that are likely all unique.",
    ]);
    assert_eq!(actual_lints, expected_lints);
    assert_eq!(linter.count_for(0), 4);
}

#[test]
fn tokenizable_string_counts_over_documents() {
    let doc = document(vec![
        ("a", DataType::Utf8, strings(&[Some(LONG_1), Some(LONG_2), Some(LONG_3), Some("short"), None])),
        ("b", DataType::Utf8, strings(&[Some("alpha"), None, Some(LONG_1), Some("x"), Some("y")])),
    ]);
    let mut linter = TokenizableStringLinter::default();
    assert_eq!(linter.lint(&doc).unwrap().len(), 1);
    assert_eq!(linter.count_for(0), 3);
    assert_eq!(linter.count_for(1), 1);
    assert_eq!(linter.count_for(2), 0);
    // Counts accumulate over documents: column b reaches the threshold on the third one.
    linter.lint(&doc).unwrap();
    let third = linter.lint(&doc).unwrap();
    assert_eq!(third.len(), 2);
    assert_eq!(linter.count_for(1), 3);
}

#[test]
fn tokenizable_string_counts_bytes_not_characters() {
    // 15 characters of 2 bytes each: 30 bytes.
    let wide = "ééééééééééééééé";
    let doc = document(vec![("w", DataType::Utf8, strings(&[Some(wide)]))]);
    let mut linter = TokenizableStringLinter::default();
    assert!(linter.lint(&doc).is_none());
    assert_eq!(linter.count_for(0), 1);
}

#[test]
fn increment_adds_one_to_the_field_only() {
    let mut linter = TokenizableStringLinter::default();
    linter.increment_count_based_on_field(4);
    linter.increment_count_based_on_field(2);
    linter.increment_count_based_on_field(4);
    assert_eq!(linter.count_for(4), 2);
    assert_eq!(linter.count_for(2), 1);
    assert_eq!(linter.count_for(7), 0);
}

#[test]
fn number_as_string_stops_at_the_cap_within_a_column() {
    let values: Vec<Option<String>> = (0..12).map(|i| Some(format!("{}", i))).collect();
    let doc = document(vec![
        ("n", DataType::Utf8, ColumnValues::Strings(values.clone())),
        ("m", DataType::Utf8, ColumnValues::Strings(values)),
    ]);
    let mut linter = NumberAsStringLinter::default();
    let lints = linter.lint(&doc).unwrap();
    // Ten findings at most; the second column is not started.
    assert_eq!(lints.len(), 10);
    assert_eq!(linter.nbr_exemples_seen(), 12);
    assert_eq!(
        lints.messages()[9],
        "Number represented as string (9) at example index 9 and at column 'n'"
    );
}
