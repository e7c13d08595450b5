use vegafusion_core::column_usage::ColumnUsage;

#[test]
fn test_with_column() {
    let left = ColumnUsage::from_columns(vec!["one", "two"].as_slice());
    let result = left.with_column("three").with_column("four");
    let expected = ColumnUsage::from_columns(vec!["one", "two", "three", "four"].as_slice());
    assert_eq!(result, expected)
}

#[test]
fn test_union_known_known() {
    let left = ColumnUsage::from_columns(vec!["one", "two"].as_slice());
    let right = ColumnUsage::from_columns(vec!["two", "three", "four"].as_slice());
    let union = left.union(&right);
    let expected = ColumnUsage::from_columns(vec!["one", "two", "three", "four"].as_slice());
    assert_eq!(union, expected)
}

#[test]
fn test_union_known_unknown() {
    let left = ColumnUsage::from_columns(vec!["one", "two"].as_slice());
    let union = left.union(&ColumnUsage::Unknown);
    assert_eq!(union, ColumnUsage::Unknown)
}

#[test]
fn test_union_unknown_known() {
    let right = ColumnUsage::from_columns(vec!["two", "three", "four"].as_slice());
    let union = ColumnUsage::Unknown.union(&right);
    assert_eq!(union, ColumnUsage::Unknown)
}

#[test]
fn test_union_unknown_unknown() {
    let union = ColumnUsage::Unknown.union(&ColumnUsage::Unknown);
    assert_eq!(union, ColumnUsage::Unknown)
}

#[test]
fn union_concatenates_name_lists() {
    let left = ColumnUsage::from_columns(vec!["one", "two"].as_slice());
    let right = ColumnUsage::from_columns(vec!["two", "three"].as_slice());
    match left.union(&right) {
        ColumnUsage::Known(names) => {
            assert_eq!(
                names,
                vec![
                    "one".to_string(),
                    "two".to_string(),
                    "two".to_string(),
                    "three".to_string()
                ]
            );
        }
        ColumnUsage::Unknown => panic!("union of known usages must stay known"),
    }
}
