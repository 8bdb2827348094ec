use record_engine::aggregate::{process_records, ProcessError};
use record_engine::category::{aggregate_by_category, get_category_stats, get_unique_categories};
use record_engine::filter::{filter_by_category, filter_by_value};
use record_engine::generate::generate_sample_data;
use record_engine::record::{DataRecord, ValidationError};
use record_engine::transform::transform_values;
use record_engine::validate::validate_record;

fn units(x: f64) -> i64 {
    (x * 1000.0).round() as i64
}

fn whole(units: i128) -> f64 {
    units as f64 / 1000.0
}

fn create_test_record(id: &str, value: f64, category: &str) -> DataRecord {
    DataRecord {
        id: id.to_string(),
        value: units(value),
        category: category.to_string(),
        timestamp: "2024-01-15T10:00:00Z".to_string(),
        metadata: None,
    }
}

#[test]
fn test_validate_record() {
    let valid = create_test_record("1", 100.0, "A");
    assert!(validate_record(&valid).is_ok());

    let invalid_empty_id = DataRecord { id: "".to_string(), ..valid.clone() };
    assert!(validate_record(&invalid_empty_id).is_err());

    let invalid_negative = DataRecord { value: units(-10.0), ..valid.clone() };
    assert!(validate_record(&invalid_negative).is_err());
}

#[test]
fn test_process_records() {
    let records = vec![
        create_test_record("1", 100.0, "A"),
        create_test_record("2", 200.0, "B"),
        create_test_record("3", 150.0, "A"),
    ];

    let result = process_records(&records).unwrap();
    assert_eq!(result.total_processed, 3);
    assert_eq!(whole(result.total_value), 450.0);
    assert_eq!(whole(result.average_value as i128), 150.0);
    assert_eq!(whole(result.min_value as i128), 100.0);
    assert_eq!(whole(result.max_value as i128), 200.0);
}

#[test]
fn test_filter_by_category() {
    let records = vec![
        create_test_record("1", 100.0, "A"),
        create_test_record("2", 200.0, "B"),
        create_test_record("3", 150.0, "A"),
    ];

    let filtered = filter_by_category(&records, "A");
    assert_eq!(filtered.len(), 2);
}

#[test]
fn test_get_category_stats() {
    let records = vec![
        create_test_record("1", 100.0, "A"),
        create_test_record("2", 200.0, "A"),
        create_test_record("3", 150.0, "B"),
    ];

    let stats = get_category_stats(&records, "A").unwrap();
    assert_eq!(stats.count, 2);
    assert_eq!(whole(stats.total_value), 300.0);
    assert_eq!(whole(stats.average_value as i128), 150.0);
}

#[test]
fn process_counts_each_category() {
    let records = vec![
        create_test_record("1", 100.0, "A"),
        create_test_record("2", 200.0, "B"),
        create_test_record("3", 150.0, "A"),
    ];
    let result = process_records(&records).unwrap();
    assert_eq!(result.total_value, 450_000);
    assert_eq!(result.average_value, 150_000);
    assert_eq!(result.min_value, 100_000);
    assert_eq!(result.max_value, 200_000);
    assert_eq!(result.categories.len(), 2);
    assert_eq!(result.categories[0].category, "A");
    assert_eq!(result.categories[0].count, 2);
    assert_eq!(result.categories[1].category, "B");
    assert_eq!(result.categories[1].count, 1);
    assert_eq!(result.total_processed(), 3);
    assert_eq!(result.total_value(), 450_000);
    assert_eq!(result.average_value(), 150_000);
    assert_eq!(result.min_value(), 100_000);
    assert_eq!(result.max_value(), 200_000);
}

#[test]
fn process_rejects_empty_batch() {
    let records: Vec<DataRecord> = Vec::new();
    match process_records(&records) {
        Err(ProcessError::EmptyBatch) => {}
        other => panic!("expected EmptyBatch, got {:?}", other),
    }
    let error = process_records(&records).unwrap_err();
    assert_eq!(error.message(), "Cannot process empty record set");
}

#[test]
fn process_reports_every_invalid_record_in_order() {
    let mut no_category = create_test_record("3", 5.0, "");
    no_category.timestamp = "".to_string();
    let records = vec![
        create_test_record("1", 100.0, "A"),
        create_test_record("2", -10.0, "B"),
        no_category,
    ];
    let error = process_records(&records).unwrap_err();
    assert_eq!(
        error.message(),
        "Validation errors: Record 2: Value must be positive, got -10; \
         Record 3: Category cannot be empty"
    );
    match error {
        ProcessError::Invalid(errors) => {
            assert_eq!(errors.len(), 2);
            assert_eq!(errors[0].record_id, "2");
            assert_eq!(errors[1].record_id, "3");
        }
        ProcessError::EmptyBatch => panic!("the batch is not empty"),
    }
}

#[test]
fn process_reports_a_single_invalid_record() {
    let records = vec![create_test_record("", 1.0, "A")];
    let error = process_records(&records).unwrap_err();
    assert_eq!(error.message(), "Validation errors: Record : ID cannot be empty");
}

#[test]
fn validation_messages_follow_rule_order() {
    let valid = create_test_record("r1", 0.0, "A");
    assert!(validate_record(&valid).is_ok());

    let all_wrong = DataRecord {
        id: "".to_string(),
        value: -1,
        category: "".to_string(),
        timestamp: "".to_string(),
        metadata: None,
    };
    let e = validate_record(&all_wrong).unwrap_err();
    assert_eq!(e.record_id, "");
    assert_eq!(e.message, "ID cannot be empty");

    let negative = DataRecord { value: units(-12.5), category: "".to_string(), ..valid.clone() };
    let e = validate_record(&negative).unwrap_err();
    assert_eq!(e.record_id, "r1");
    assert_eq!(e.message, "Value must be positive, got -12.5");

    let no_category = DataRecord { category: "".to_string(), timestamp: "".to_string(), ..valid.clone() };
    assert_eq!(validate_record(&no_category).unwrap_err().message, "Category cannot be empty");

    let no_timestamp = DataRecord { timestamp: "".to_string(), ..valid.clone() };
    assert_eq!(validate_record(&no_timestamp).unwrap_err().message, "Timestamp cannot be empty");
}

#[test]
fn validation_gives_the_same_answer_twice() {
    let bad = create_test_record("7", -0.001, "A");
    let first = validate_record(&bad).unwrap_err();
    let second = validate_record(&bad.clone()).unwrap_err();
    assert_eq!(first.record_id, second.record_id);
    assert_eq!(first.message, second.message);
    assert_eq!(first.message, "Value must be positive, got -0.001");
    let good = create_test_record("7", 3.0, "A");
    assert!(validate_record(&good).is_ok());
    assert!(validate_record(&good).is_ok());
}

#[test]
fn validation_error_new_keeps_its_parts() {
    let e = ValidationError::new("id-1".to_string(), "message".to_string());
    assert_eq!(e.record_id, "id-1");
    assert_eq!(e.message, "message");
}

#[test]
fn filters_keep_input_order_and_records_unchanged() {
    let mut tagged = create_test_record("4", 50.0, "A");
    tagged.metadata = Some(vec![("k".to_string(), "v".to_string())]);
    let records = vec![
        create_test_record("1", 100.0, "A"),
        create_test_record("2", 200.0, "B"),
        create_test_record("3", 150.0, "A"),
        tagged,
    ];
    let by_category = filter_by_category(&records, "A");
    let ids: Vec<&str> = by_category.iter().map(|r| r.id.as_str()).collect();
    assert_eq!(ids, vec!["1", "3", "4"]);
    assert_eq!(by_category[2].metadata, Some(vec![("k".to_string(), "v".to_string())]));
    assert_eq!(by_category[2].value, 50_000);
    assert_eq!(by_category[2].timestamp, "2024-01-15T10:00:00Z");

    let by_value = filter_by_value(&records, units(100.0));
    let ids: Vec<&str> = by_value.iter().map(|r| r.id.as_str()).collect();
    assert_eq!(ids, vec!["1", "2", "3"]);

    assert_eq!(filter_by_category(&records, "Z").len(), 0);
    assert_eq!(filter_by_value(&records, units(200.001)).len(), 0);
}

#[test]
fn unique_categories_are_sorted_and_distinct() {
    let records = vec![
        create_test_record("1", 1.0, "beta"),
        create_test_record("2", 1.0, "alpha"),
        create_test_record("3", 1.0, "beta"),
        create_test_record("4", 1.0, "Alpha"),
        create_test_record("5", 1.0, "alphabet"),
        create_test_record("6", 1.0, "é"),
        create_test_record("7", 1.0, "alpha"),
    ];
    let names = get_unique_categories(&records);
    assert_eq!(names, vec!["Alpha", "alpha", "alphabet", "beta", "é"]);
    let mut expected: Vec<String> = records.iter().map(|r| r.category.clone()).collect();
    expected.sort();
    expected.dedup();
    assert_eq!(names, expected);
    assert_eq!(get_unique_categories(&Vec::new()), Vec::<String>::new());
}

#[test]
fn aggregate_has_one_entry_per_category() {
    let records = vec![
        create_test_record("1", 100.0, "B"),
        create_test_record("2", 200.0, "A"),
        create_test_record("3", 150.0, "B"),
        create_test_record("4", -3.0, "C"),
        create_test_record("5", -4.0, "C"),
    ];
    let names = get_unique_categories(&records);
    let groups = aggregate_by_category(&records);
    assert_eq!(groups.len(), names.len());
    for (group, name) in groups.iter().zip(names.iter()) {
        assert_eq!(&group.category, name);
    }
    assert_eq!(groups[0].category, "A");
    assert_eq!(groups[0].count, 1);
    assert_eq!(groups[1].category, "B");
    assert_eq!(groups[1].count, 2);
    assert_eq!(groups[1].total_value, 250_000);
    assert_eq!(groups[1].average_value, 125_000);
    assert_eq!(groups[1].min_value, 100_000);
    assert_eq!(groups[1].max_value, 150_000);
    assert_eq!(groups[2].total_value, -7_000);
    assert_eq!(groups[2].average_value, -3_500);
    assert_eq!(groups[2].min_value, -4_000);
    assert_eq!(groups[2].max_value, -3_000);
}

#[test]
fn category_stats_absent_for_unknown_category() {
    let records = vec![create_test_record("1", 100.0, "A")];
    assert!(get_category_stats(&records, "B").is_none());
    assert!(get_category_stats(&Vec::new(), "A").is_none());
}

#[test]
fn category_mean_rounds_down() {
    let mut a = create_test_record("1", 0.0, "A");
    a.value = -1;
    let mut b = create_test_record("2", 0.0, "A");
    b.value = 0;
    let stats = get_category_stats(&vec![a, b], "A").unwrap();
    assert_eq!(stats.total_value, -1);
    assert_eq!(stats.average_value, -1);
    let mut c = create_test_record("3", 0.0, "A");
    c.value = 2;
    let mut d = create_test_record("4", 0.0, "A");
    d.value = 5;
    let stats = get_category_stats(&vec![c, d], "A").unwrap();
    assert_eq!(stats.average_value, 3);
}

#[test]
fn totals_do_not_overflow() {
    let mut a = create_test_record("1", 0.0, "A");
    a.value = i64::MAX;
    let b = a.clone();
    let c = a.clone();
    let result = process_records(&vec![a, b, c]).unwrap();
    assert_eq!(result.total_value, 3 * (i64::MAX as i128));
    assert_eq!(result.average_value, i64::MAX);
}

#[test]
fn transform_scales_every_value() {
    let mut records = vec![
        create_test_record("1", 100.0, "A"),
        create_test_record("2", -0.003, "B"),
        create_test_record("3", 1.0, "C"),
    ];
    transform_values(&mut records, units(1.5));
    assert_eq!(records[0].value, 150_000);
    assert_eq!(records[1].value, -5);
    assert_eq!(records[2].value, 1_500);
    assert_eq!(records[0].id, "1");
    assert_eq!(records[1].category, "B");

    let mut big = vec![create_test_record("1", 0.0, "A")];
    big[0].value = i64::MAX;
    transform_values(&mut big, 2_000);
    assert_eq!(big[0].value, i64::MAX);
    big[0].value = i64::MIN;
    transform_values(&mut big, 2_000);
    assert_eq!(big[0].value, i64::MIN);
}

#[test]
fn sample_data_follows_its_pattern() {
    let data = generate_sample_data(10);
    assert_eq!(data.len(), 10);
    assert_eq!(data[0].id, "record_0");
    assert_eq!(data[0].value, 0);
    assert_eq!(data[0].category, "A");
    assert_eq!(data[0].timestamp, "2024-01-15T10:00:00Z");
    assert_eq!(data[0].metadata, Some(vec![("index".to_string(), "0".to_string())]));
    assert_eq!(data[7].id, "record_7");
    assert_eq!(data[7].value, 73_500);
    assert_eq!(data[7].category, "D");
    assert_eq!(data[7].timestamp, "2024-01-15T10:00:07Z");

    let more = generate_sample_data(3700);
    assert_eq!(more[3661].id, "record_3661");
    assert_eq!(more[3661].value, 661 * 10_500);
    assert_eq!(more[3661].category, "B");
    assert_eq!(more[3661].timestamp, "2024-01-15T10:01:01Z");
    assert_eq!(more[125].timestamp, "2024-01-15T10:02:05Z");
    assert_eq!(more[1000].value, 0);
    assert!(generate_sample_data(0).is_empty());
    assert!(process_records(&more).is_ok());
}
