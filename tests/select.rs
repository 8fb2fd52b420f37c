use fanzha_log_query::select::{search_prefixes, select_aggregated, select_native};

fn texts(v: &[&str]) -> Vec<String> {
    v.iter().map(|s| s.to_string()).collect()
}

#[test]
fn native_file_selected_by_timestamp_prefix() {
    let p = texts(&["20251209"]);
    assert!(select_native("250_132228145205_20251209151802_1.gz", &p, ".gz"));
    assert!(!select_native("250_132228145205_20251210151802_1.gz", &p, ".gz"));
}

#[test]
fn native_file_needs_three_parts_and_suffix() {
    let p = texts(&["2025"]);
    assert!(!select_native("250_2025.gz", &p, ".gz"));
    assert!(!select_native("250_1_20251209_1.txt", &p, ".gz"));
    assert!(!select_native("2025_20251209_1_1.gz", &p, ".gz"));
    assert!(select_native("a_b_2025", &p, ""));
}

#[test]
fn aggregated_path_selected_anywhere_in_path() {
    let p = texts(&["20250626", "2025062701"]);
    assert!(select_aggregated("/logs/20250626/access.log.gz", &p, ".gz"));
    assert!(select_aggregated("/logs/x/access_2025062701.gz", &p, ".gz"));
    assert!(!select_aggregated("/logs/20250626/access.log", &p, ".gz"));
    assert!(!select_aggregated("/logs/20250627/access.log.gz", &p, ".gz"));
    assert!(!select_aggregated("/logs/20250626/a.gz", &[], ".gz"));
}

#[test]
fn search_prefixes_days_then_hours() {
    let days = Some(texts(&["d1", "d2"]));
    let hours = Some(texts(&["h1"]));
    assert_eq!(search_prefixes(&days, &hours), texts(&["d1", "d2", "h1"]));
    assert_eq!(search_prefixes(&None, &hours), texts(&["h1"]));
    assert!(search_prefixes(&None, &None).is_empty());
}
