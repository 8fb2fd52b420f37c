use fanzha_log_query::config::{answer_is_yes, rules_from_text, Config};

fn config(native: &str) -> Config {
    Config {
        log_directory: "/logs".to_string(),
        worker_pool_size: None,
        core_ids: Some(vec![3, 5]),
        query_domain: vec![],
        source_ip: vec![],
        query_time_hour: None,
        query_time_day: None,
        is_query_native_log: native.to_string(),
        native_log_loc: None,
        native_log_result_loc: None,
        aggregated_log_result_loc: None,
    }
}

#[test]
fn native_flag_any_case() {
    assert!(config("yes").native_enabled());
    assert!(config("YES").native_enabled());
    assert!(config("Yes").native_enabled());
    assert!(!config("no").native_enabled());
    assert!(!config("yes ").native_enabled());
    assert!(answer_is_yes("yes"));
    assert!(!answer_is_yes("YES"));
}

#[test]
fn pool_size_and_core_pinning() {
    let mut c = config("no");
    assert_eq!(c.pool_size(6), 6);
    c.worker_pool_size = Some(2);
    assert_eq!(c.pool_size(6), 2);
    assert_eq!(c.core_for_worker(0), Some(3));
    assert_eq!(c.core_for_worker(1), Some(5));
    assert_eq!(c.core_for_worker(2), None);
    c.core_ids = None;
    assert_eq!(c.core_for_worker(0), None);
}

#[test]
fn single_string_rule_list() {
    assert!(rules_from_text(String::new()).is_empty());
    assert_eq!(rules_from_text("a.com".to_string()), vec!["a.com".to_string()]);
}
