use real_kanban::model::{
    CreateLinkedPathRequest, CreateProjectRequest, DeleteByPathRequest, LookupQuery, StoreError,
};
use real_kanban::store::Store;

fn project(s: &mut Store, name: &str) -> i64 {
    s.create_project(CreateProjectRequest { name: name.to_owned() }, "t").unwrap().id
}

fn bind(s: &mut Store, pid: i64, path: &str) {
    let req = CreateLinkedPathRequest {
        path: path.to_owned(),
        hostname: Some("workstation".to_owned()),
        default_column_id: None,
    };
    s.create_linked_path(pid, req, "t").unwrap();
}

fn resolve(s: &Store, path: &str) -> Result<(i64, String), StoreError> {
    let q = LookupQuery { path: path.to_owned(), hostname: None };
    s.lookup_linked_path(&q).map(|resp| (resp.linked_path.project_id, resp.project_name))
}

#[test]
fn test_resolve_inside_bound_directory() {
    let mut s = Store::new();
    let pid = project(&mut s, "proj");
    bind(&mut s, pid, "/home/user/proj");
    let (got, name) = resolve(&s, "/home/user/proj/sub/dir").unwrap();
    assert_eq!(got, pid);
    assert_eq!(name, "proj");
    // the bound path itself also resolves
    let (got, _) = resolve(&s, "/home/user/proj").unwrap();
    assert_eq!(got, pid);
}

#[test]
fn test_resolve_unbound_directory_is_not_found() {
    let mut s = Store::new();
    let pid = project(&mut s, "proj");
    bind(&mut s, pid, "/home/user/proj");
    assert_eq!(resolve(&s, "/home/user/other").unwrap_err(), StoreError::NotFound);
}

#[test]
fn test_longest_prefix_wins() {
    let mut s = Store::new();
    let outer = project(&mut s, "outer");
    let inner = project(&mut s, "inner");
    bind(&mut s, outer, "/a");
    bind(&mut s, inner, "/a/b");
    let (got, name) = resolve(&s, "/a/b/c").unwrap();
    assert_eq!(got, inner);
    assert_eq!(name, "inner");
    let (got, _) = resolve(&s, "/a/x").unwrap();
    assert_eq!(got, outer);
}

#[test]
fn test_prefix_match_is_character_wise() {
    let mut s = Store::new();
    let pid = project(&mut s, "p");
    bind(&mut s, pid, "/home/a");
    // not path-segment-aware: "/home/a" is a prefix of "/home/ab"
    let (got, _) = resolve(&s, "/home/ab").unwrap();
    assert_eq!(got, pid);
}

#[test]
fn test_rebind_updates_in_place() {
    let mut s = Store::new();
    let first = project(&mut s, "first");
    let second = project(&mut s, "second");
    bind(&mut s, first, "/repo");
    let before = s.list_linked_paths(first, );
    let old_id = before[0].id;
    let cols = s.list_columns(second);
    let req = CreateLinkedPathRequest {
        path: "/repo".to_owned(),
        hostname: None,
        default_column_id: Some(cols[1].id),
    };
    let updated = s.create_linked_path(second, req, "later").unwrap();
    assert_eq!(updated.id, old_id);
    assert_eq!(updated.project_id, second);
    assert_eq!(updated.default_column_id, Some(cols[1].id));
    // no duplicate entry anywhere, and lookups see only the new target
    assert_eq!(s.bindings.len(), 1);
    assert_eq!(s.list_linked_paths(first).len(), 0);
    let listed = s.list_linked_paths(second);
    assert_eq!(listed.len(), 1);
    assert_eq!(listed[0].hostname, None);
    let (got, name) = resolve(&s, "/repo/src").unwrap();
    assert_eq!(got, second);
    assert_eq!(name, "second");
}

#[test]
fn test_bind_validates_project_and_column() {
    let mut s = Store::new();
    let pid = project(&mut s, "p");
    let other = project(&mut s, "q");
    let other_cols = s.list_columns(other);
    let req = CreateLinkedPathRequest { path: "/x".to_owned(), hostname: None, default_column_id: None };
    assert_eq!(s.create_linked_path(12345, req, "t").unwrap_err(), StoreError::NotFound);
    // a default column of another project is refused
    let req = CreateLinkedPathRequest {
        path: "/x".to_owned(),
        hostname: None,
        default_column_id: Some(other_cols[0].id),
    };
    assert_eq!(s.create_linked_path(pid, req, "t").unwrap_err(), StoreError::NotFound);
    assert_eq!(s.bindings.len(), 0);
}

#[test]
fn test_unbind_by_id_and_by_path() {
    let mut s = Store::new();
    let pid = project(&mut s, "p");
    bind(&mut s, pid, "/one");
    bind(&mut s, pid, "/two");
    let listed = s.list_linked_paths(pid);
    assert_eq!(listed.len(), 2);
    let one = listed.iter().find(|b| b.path == "/one").unwrap().id;
    assert!(s.delete_linked_path(one).is_ok());
    assert_eq!(s.delete_linked_path(one).unwrap_err(), StoreError::NotFound);
    let req = DeleteByPathRequest { path: "/two".to_owned() };
    assert!(s.delete_linked_path_by_path(req.path.as_str()).is_ok());
    assert_eq!(
        s.delete_linked_path_by_path("/two").unwrap_err(),
        StoreError::NotFound
    );
    assert_eq!(s.list_linked_paths(pid).len(), 0);
}

#[test]
fn test_bindings_survive_unrelated_project_delete() {
    let mut s = Store::new();
    let keep = project(&mut s, "keep");
    let gone = project(&mut s, "gone");
    bind(&mut s, keep, "/keep");
    bind(&mut s, gone, "/gone");
    assert!(s.delete_project(gone).is_ok());
    assert_eq!(resolve(&s, "/keep/sub").unwrap().0, keep);
    assert_eq!(resolve(&s, "/gone/sub").unwrap_err(), StoreError::NotFound);
}
