use datalints::document::{DataType, Field};
use datalints::reader::{DatasetReaderBuilder, DatasetType, SUPPORTED_DATASET_TYPES};
use std::str::FromStr;

fn pairs(fields: &[Field]) -> Vec<(String, DataType)> {
    fields.iter().map(|f| (f.name.clone(), f.data_type)).collect()
}

#[test]
fn err_msg_is_up_to_date() {
    let cardinality_dataset_types_enum = DatasetType::all().len();
    let expected_cardinality = SUPPORTED_DATASET_TYPES.len();
    assert_eq!(
        cardinality_dataset_types_enum, expected_cardinality,
        "update the SUPPORTED_DATASET_TYPES constant."
    );
    for name in SUPPORTED_DATASET_TYPES {
        let t = DatasetType::from_name(name).unwrap();
        assert_eq!(t.as_str(), name);
    }
    for t in DatasetType::all() {
        assert!(SUPPORTED_DATASET_TYPES.contains(&t.as_str()));
    }
}

#[test]
fn format_names_are_case_insensitive() {
    assert_eq!(DatasetType::from_name("jsonl"), Some(DatasetType::JSONL));
    assert_eq!(DatasetType::from_name("JsonL"), Some(DatasetType::JSONL));
    assert_eq!(DatasetType::from_name("JSON"), Some(DatasetType::JSON));
    assert_eq!(DatasetType::from_name("json"), Some(DatasetType::JSON));
    assert_eq!(DatasetType::from_name("jso"), None);
    assert_eq!(DatasetType::from_name("csv"), None);
    assert_eq!(DatasetType::from_name(""), None);
    assert_eq!(DatasetType::from_str("Json").unwrap(), DatasetType::JSON);
    assert!(DatasetType::from_str("parquet").is_err());
    assert_eq!(DatasetType::default(), DatasetType::JSONL);
}

#[test]
fn format_from_extension_defaults_to_jsonl() {
    let p = |path: &str| DatasetType::parse_from_arg_or_path(None, path).unwrap();
    assert_eq!(p("data/train.json"), DatasetType::JSON);
    assert_eq!(p("data/train.JSON"), DatasetType::JSON);
    assert_eq!(p("data/train.jsonl"), DatasetType::JSONL);
    assert_eq!(p("data/train.csv"), DatasetType::JSONL);
    assert_eq!(p("data/train"), DatasetType::JSONL);
    assert_eq!(p(".json"), DatasetType::JSONL);
    assert_eq!(DatasetType::from_extension(Some("Json")), DatasetType::JSON);
    assert_eq!(DatasetType::from_extension(None), DatasetType::JSONL);
}

#[test]
fn format_argument_wins_over_extension() {
    let r = DatasetType::parse_from_arg_or_path(Some("jsonl".to_string()), "a.json");
    assert_eq!(r.unwrap(), DatasetType::JSONL);
    let r = DatasetType::parse_from_arg_or_path(Some("csv".to_string()), "a.json");
    let e = r.unwrap_err();
    assert_eq!(e.given, "csv");
    assert_eq!(
        e.message(),
        "could not parse the dataset type. Supported dataset types are [\n    \"JSONL\",\n    \"JSON\",\n]"
    );
}

#[test]
fn builder_resolves_path_and_format() {
    let (path, t) = DatasetReaderBuilder::new("x/y.json".to_string()).resolve();
    assert_eq!(path, "x/y.json");
    assert_eq!(t.unwrap(), DatasetType::JSON);
}

#[test]
fn plan_infers_the_fields_of_a_json_lines_file() {
    let bytes = b"{\"a\": \"x\", \"b\": 1.5, \"c\": 3}\n{\"a\": \"y\", \"b\": 2, \"c\": 4}\n";
    let (t, inferred) = DatasetReaderBuilder::new("data/train.jsonl".to_string())
        .plan(bytes)
        .unwrap();
    assert_eq!(t, DatasetType::JSONL);
    let (schema, fields) = inferred.unwrap();
    assert_eq!(schema.fields().len(), 3);
    assert_eq!(
        pairs(&fields),
        vec![
            ("a".to_string(), DataType::Utf8),
            ("b".to_string(), DataType::Float64),
            ("c".to_string(), DataType::Unsupported),
        ]
    );
}

#[test]
fn plan_chooses_json_from_the_extension() {
    let (t, inferred) = DatasetReaderBuilder::new("d.JSON".to_string())
        .plan(b"{\"v\": 0.5}")
        .unwrap();
    assert_eq!(t, DatasetType::JSON);
    let (_, fields) = inferred.unwrap();
    assert_eq!(pairs(&fields), vec![("v".to_string(), DataType::Float64)]);
}

#[test]
fn plan_gives_no_schema_for_text_that_is_not_json() {
    let (t, inferred) = DatasetReaderBuilder::new("broken.jsonl".to_string())
        .plan(b"{not json")
        .unwrap();
    assert_eq!(t, DatasetType::JSONL);
    assert!(inferred.is_none());
}
