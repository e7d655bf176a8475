use real_kanban::auth::{check_api_key, AuthDecision};
use real_kanban::client::{
    find_column_by_name_or_id, find_task_by_title, lookup_url, matching_tasks, parse_i64,
    appended_description, Column, FindError, Task,
};
use real_kanban::config::{
    apply_init, config_dir_path, db_file_path, global_config_path, GlobalConfig, InitError,
};

fn task(id: i64, title: &str) -> Task {
    Task { id, title: title.to_owned(), column_id: 1, description: None }
}

fn column(id: i64, name: &str, sort_order: i64) -> Column {
    Column { id, name: name.to_owned(), sort_order }
}

#[test]
fn test_parse_i64_accepts_plain_and_signed() {
    assert_eq!(parse_i64("0"), Some(0));
    assert_eq!(parse_i64("42"), Some(42));
    assert_eq!(parse_i64("+42"), Some(42));
    assert_eq!(parse_i64("-42"), Some(-42));
    assert_eq!(parse_i64("-0"), Some(0));
    assert_eq!(parse_i64("9223372036854775807"), Some(i64::MAX));
    assert_eq!(parse_i64("-9223372036854775808"), Some(i64::MIN));
}

#[test]
fn test_parse_i64_rejects_junk_and_overflow() {
    assert_eq!(parse_i64(""), None);
    assert_eq!(parse_i64("+"), None);
    assert_eq!(parse_i64("-"), None);
    assert_eq!(parse_i64(" 1"), None);
    assert_eq!(parse_i64("1 "), None);
    assert_eq!(parse_i64("1x"), None);
    assert_eq!(parse_i64("1.5"), None);
    assert_eq!(parse_i64("9223372036854775808"), None);
    assert_eq!(parse_i64("-9223372036854775809"), None);
    assert_eq!(parse_i64("99999999999999999999999"), None);
}

#[test]
fn test_parse_i64_matches_std() {
    for s in ["0", "-17", "+3", "", "+", "abc", "9223372036854775808", "007"] {
        assert_eq!(parse_i64(s), s.parse::<i64>().ok(), "on {:?}", s);
    }
}

#[test]
fn test_find_column_by_id() {
    let cols = vec![column(3, "Backlog", 1000), column(7, "Done", 2000)];
    let c = find_column_by_name_or_id(&cols, "7").unwrap();
    assert_eq!(c.id, 7);
    assert_eq!(c.name, "Done");
    assert_eq!(find_column_by_name_or_id(&cols, "8").unwrap_err(), FindError::NotFound);
}

#[test]
fn test_find_column_by_name_case_insensitive() {
    let cols = vec![column(3, "Backlog", 1000), column(7, "In Progress", 2000)];
    let c = find_column_by_name_or_id(&cols, "in progress").unwrap();
    assert_eq!(c.id, 7);
    let c = find_column_by_name_or_id(&cols, "BACKLOG").unwrap();
    assert_eq!(c.id, 3);
    assert_eq!(
        find_column_by_name_or_id(&cols, "review").unwrap_err(),
        FindError::NotFound
    );
}

#[test]
fn test_find_task_by_title_trims_and_folds_case() {
    let tasks = vec![task(1, "Fix the build"), task(2, "Write docs")];
    let t = find_task_by_title(&tasks, "  fix the BUILD ").unwrap();
    assert_eq!(t.id, 1);
    assert_eq!(
        find_task_by_title(&tasks, "missing").unwrap_err(),
        FindError::NotFound
    );
}

#[test]
fn test_find_task_by_title_ambiguous() {
    let tasks = vec![task(1, "dup"), task(2, "DUP "), task(3, "other")];
    assert_eq!(find_task_by_title(&tasks, "dup").unwrap_err(), FindError::Ambiguous);
}

#[test]
fn test_matching_tasks_does_not_trim() {
    let tasks = vec![task(1, "dup"), task(2, "DUP "), task(3, "Dup")];
    let m = matching_tasks(&tasks, "dup");
    let ids: Vec<i64> = m.iter().map(|t| t.id).collect();
    assert_eq!(ids, vec![1, 3]);
}

#[test]
fn test_lookup_url_encodes_path_and_hostname() {
    let url = lookup_url("http://localhost:3001", "/home/u dir", &None);
    assert_eq!(
        url,
        "http://localhost:3001/api/linked-paths/lookup?path=%2Fhome%2Fu%20dir"
    );
    let url = lookup_url(
        "http://localhost:3001",
        "/w",
        &Some("host one".to_owned()),
    );
    assert_eq!(
        url,
        "http://localhost:3001/api/linked-paths/lookup?path=%2Fw&hostname=host%20one"
    );
}

#[test]
fn test_lookup_url_keeps_safe_characters() {
    let url = lookup_url("b", "Az09-._~", &None);
    assert_eq!(url, "b/api/linked-paths/lookup?path=Az09-._~");
}

#[test]
fn test_appended_description() {
    assert_eq!(appended_description(&None, "note"), "note");
    assert_eq!(appended_description(&Some(String::new()), "note"), "note");
    assert_eq!(
        appended_description(&Some("old".to_owned()), "note"),
        "old\n\nnote"
    );
}

#[test]
fn test_apply_init_variants() {
    let base = GlobalConfig { api_url: Some("u0".to_owned()), api_key: Some("k0".to_owned()) };
    let c = apply_init(base, None, None, Some("u1".to_owned()), None).unwrap();
    assert_eq!(c.api_url.as_deref(), Some("u1"));
    assert_eq!(c.api_key.as_deref(), Some("k0"));

    let base = GlobalConfig { api_url: Some("u0".to_owned()), api_key: Some("k0".to_owned()) };
    let c = apply_init(base, None, None, None, Some("k1".to_owned())).unwrap();
    assert_eq!(c.api_url.as_deref(), Some("u0"));
    assert_eq!(c.api_key.as_deref(), Some("k1"));

    let base = GlobalConfig::default();
    let c = apply_init(base, Some("u".to_owned()), Some("k".to_owned()), None, None).unwrap();
    assert_eq!(c.api_url.as_deref(), Some("u"));
    assert_eq!(c.api_key.as_deref(), Some("k"));

    let base = GlobalConfig::default();
    let r = apply_init(base, Some("u".to_owned()), None, None, None);
    assert_eq!(r.unwrap_err(), InitError::Usage);
}

#[test]
fn test_config_locations() {
    let dir = config_dir_path("/home/u/.config");
    assert_eq!(dir, "/home/u/.config/real-kanban");
    assert_eq!(global_config_path(dir.as_str()), "/home/u/.config/real-kanban/config.json");
}

#[test]
fn test_db_file_path_strips_scheme() {
    assert_eq!(db_file_path("sqlite:///data/kanban.db"), "/data/kanban.db");
    assert_eq!(db_file_path("/data/kanban.db"), "/data/kanban.db");
}

#[test]
fn test_check_api_key() {
    let expected = Some("test-secret-key".to_owned());
    assert_eq!(check_api_key(&None, &None), AuthDecision::MissingServerKey);
    assert_eq!(check_api_key(&expected, &None), AuthDecision::InvalidKey);
    assert_eq!(
        check_api_key(&expected, &Some("wrong-key".to_owned())),
        AuthDecision::InvalidKey
    );
    assert_eq!(
        check_api_key(&expected, &Some("test-secret-key".to_owned())),
        AuthDecision::Authorized
    );
}
