use spark_dashboard::startup::{
    engine_override_kinds, history_db_fallbacks, is_explicit_history_db_path, var_lib_dir,
    EngineKind,
};

#[test]
fn explicit_paths() {
    assert!(is_explicit_history_db_path("/srv/db.sqlite"));
    assert!(!is_explicit_history_db_path(""));
    assert!(!is_explicit_history_db_path("/data/history.db"));
    assert!(!is_explicit_history_db_path(":memory:"));
}

#[test]
fn fallback_paths_in_order() {
    assert_eq!(history_db_fallbacks(":memory:", true), vec![":memory:".to_string()]);
    assert_eq!(
        history_db_fallbacks("/data/history.db", true),
        vec![
            "/var/lib/spark-dashboard/history.db".to_string(),
            "/tmp/spark-dashboard-history.db".to_string(),
            ":memory:".to_string()
        ]
    );
    assert_eq!(
        history_db_fallbacks("/srv/x.db", false),
        vec!["/tmp/spark-dashboard-history.db".to_string(), ":memory:".to_string()]
    );
    assert_eq!(var_lib_dir(), "/var/lib/spark-dashboard");
}

#[test]
fn engine_overrides_pair_by_position() {
    let engines = vec!["VLLM".to_string(), "ollama".to_string(), "vllm".to_string()];
    let urls = vec!["http://a".to_string(), "http://b".to_string()];
    let kinds = engine_override_kinds(&engines, &urls);
    assert_eq!(kinds.len(), 2);
    assert!(matches!(kinds[0], Some(EngineKind::Vllm)));
    assert!(kinds[1].is_none());
    assert!(engine_override_kinds(&Vec::new(), &urls).is_empty());
}
