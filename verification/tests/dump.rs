use payload_dump_bot::payload::{
    collect_extractions, normalize_names, plan_dump, read_listing, temp_dir_path, split_csv,
    DumpError, ExtractOutcome,
};

const LISTING: &str = r#"{
  "partitions": [
    {"name": "boot", "size_bytes": 1000, "hash": "aa11"},
    {"name": "dtbo", "size_bytes": 512},
    {"name": "init_boot", "size_bytes": 64, "hash": "bb22"},
    {"name": "vbmeta", "size_bytes": 200, "hash": "cc33"},
    {"name": "vendor_boot", "size_bytes": 4096, "hash": "dd44"}
  ],
  "total_partitions": 5
}"#;

#[test]
fn duplicates_are_dropped_and_names_sorted() {
    let names = normalize_names("vbmeta,boot,vbmeta,boot,boot");
    let got: Vec<&str> = names.iter().map(|s| s.as_str()).collect();
    assert_eq!(got, vec!["boot", "vbmeta"]);
}

#[test]
fn single_name_needs_no_normalizing() {
    let names = normalize_names("boot");
    let got: Vec<&str> = names.iter().map(|s| s.as_str()).collect();
    assert_eq!(got, vec!["boot"]);
}

#[test]
fn split_csv_keeps_empty_pieces() {
    let pieces = split_csv("a,,b,");
    let got: Vec<&str> = pieces.iter().map(|s| s.as_str()).collect();
    assert_eq!(got, vec!["a", "", "b", ""]);
}

#[test]
fn dump_plan_reports_exact_sizes_and_paths() {
    let names = normalize_names("boot,vbmeta");
    let listing = read_listing(LISTING).expect("fixture parses");
    let plan = plan_dump(&names, &listing, "tmp/1700000001");
    assert_eq!(plan.len(), 2);
    assert_eq!(plan[0].name, "boot");
    assert_eq!(plan[0].size, 1000);
    assert_eq!(plan[0].hash.as_deref(), Some("aa11"));
    assert_eq!(plan[0].path, "tmp/1700000001/boot.img");
    assert_eq!(plan[1].name, "vbmeta");
    assert_eq!(plan[1].size, 200);
    assert_eq!(plan[1].hash.as_deref(), Some("cc33"));
    assert_eq!(plan[1].path, "tmp/1700000001/vbmeta.img");
}

#[test]
fn requested_names_missing_from_listing_are_excluded_without_error() {
    let names = normalize_names("boot,does_not_exist,vbmeta");
    let listing = read_listing(LISTING).expect("fixture parses");
    let plan = plan_dump(&names, &listing, "tmp/2");
    let got: Vec<&str> = plan.iter().map(|p| p.name.as_str()).collect();
    assert_eq!(got, vec!["boot", "vbmeta"]);
}

#[test]
fn plan_keeps_request_order_whatever_finishes_first() {
    let names = normalize_names("vendor_boot,boot,dtbo");
    let listing = read_listing(LISTING).expect("fixture parses");
    let plan = plan_dump(&names, &listing, "tmp/3");
    let got: Vec<&str> = plan.iter().map(|p| p.name.as_str()).collect();
    assert_eq!(got, vec!["boot", "dtbo", "vendor_boot"]);
}

#[test]
fn entry_without_size_reads_as_zero() {
    let names = normalize_names("dtbo,init_boot");
    let listing = read_listing(r#"{"partitions":[{"name":"dtbo"},{"name":"init_boot","size_bytes":64}]}"#)
        .expect("fixture parses");
    let plan = plan_dump(&names, &listing, "tmp/4");
    assert_eq!(plan[0].name, "dtbo");
    assert_eq!(plan[0].size, 0);
    assert!(plan[0].hash.is_none());
    assert_eq!(plan[1].size, 64);
}

#[test]
fn empty_request_plans_nothing() {
    let names = normalize_names("");
    let listing = read_listing(LISTING).expect("fixture parses");
    let plan = plan_dump(&names, &listing, "tmp/5");
    assert_eq!(plan.len(), 0);
}

#[test]
fn malformed_listing_is_a_list_error_with_its_cause() {
    let err = read_listing("not a json document").unwrap_err();
    match err {
        DumpError::ListError(m) => assert!(!m.is_empty()),
        other => panic!("unexpected error: {}", other.message()),
    }
    let err = read_listing(r#"{"no_partitions": []}"#).unwrap_err();
    match err {
        DumpError::ListError(m) => assert_eq!(m, "'partitions' not found in listing"),
        other => panic!("unexpected error: {}", other.message()),
    }
}

#[test]
fn outcomes_collected_in_order_first_failure_wins() {
    let all_ok = vec![ExtractOutcome::Done, ExtractOutcome::Done];
    assert!(collect_extractions(all_ok).is_ok());

    let failed = vec![
        ExtractOutcome::Done,
        ExtractOutcome::Failed(String::from("read beyond end")),
        ExtractOutcome::Lost(String::from("channel closed")),
    ];
    match collect_extractions(failed) {
        Err(DumpError::ExtractError(m)) => assert_eq!(m, "read beyond end"),
        other => panic!("unexpected outcome: {:?}", other.is_ok()),
    }

    let lost_first = vec![
        ExtractOutcome::Lost(String::from("channel closed")),
        ExtractOutcome::Failed(String::from("later")),
    ];
    match collect_extractions(lost_first) {
        Err(DumpError::ConcurrencyBridgeError(m)) => assert_eq!(m, "channel closed"),
        other => panic!("unexpected outcome: {:?}", other.is_ok()),
    }
}

#[test]
fn dump_errors_carry_their_cause_as_message() {
    assert_eq!(
        DumpError::ListError(String::from("bad json")).message(),
        "bad json"
    );
    assert_eq!(
        DumpError::ExtractError(String::from("short read")).message(),
        "short read"
    );
    assert_eq!(
        DumpError::ConcurrencyBridgeError(String::from("channel closed")).message(),
        "channel closed"
    );
}

#[test]
fn names_sort_by_code_point() {
    let names = normalize_names("vbmeta,Boot");
    let got: Vec<&str> = names.iter().map(|s| s.as_str()).collect();
    assert_eq!(got, vec!["Boot", "vbmeta"]);
}

#[test]
fn empty_pieces_survive_normalizing_and_miss_the_listing() {
    let names = normalize_names("boot,,boot");
    let got: Vec<&str> = names.iter().map(|s| s.as_str()).collect();
    assert_eq!(got, vec!["", "boot"]);
    let listing = read_listing(LISTING).expect("fixture parses");
    let plan = plan_dump(&names, &listing, "tmp/6");
    let planned: Vec<&str> = plan.iter().map(|p| p.name.as_str()).collect();
    assert_eq!(planned, vec!["boot"]);
}

#[test]
fn the_first_listing_entry_under_a_name_wins() {
    let listing = read_listing(
        r#"{"partitions":[{"name":"boot","size_bytes":1},{"name":"boot","size_bytes":2}]}"#,
    )
    .expect("fixture parses");
    let names = normalize_names("boot");
    let plan = plan_dump(&names, &listing, "tmp/7");
    assert_eq!(plan.len(), 1);
    assert_eq!(plan[0].size, 1);
}

#[test]
fn temp_dir_is_keyed_by_the_timestamp() {
    assert_eq!(temp_dir_path(0), "tmp/0");
    assert_eq!(temp_dir_path(1700000000), "tmp/1700000000");
    assert_eq!(temp_dir_path(u64::MAX), "tmp/18446744073709551615");
}
