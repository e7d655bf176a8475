use real_kanban::model::{
    CreateColumnRequest, CreateProjectRequest, CreateSubtaskRequest, CreateTagRequest,
    CreateTaskRequest, StoreError, UpdateProjectRequest, UpdateSubtaskRequest, UpdateTaskRequest,
};
use real_kanban::ordering::{ReorderItem, ReorderProjectItem};
use real_kanban::store::Store;

fn named(name: &str) -> CreateProjectRequest {
    CreateProjectRequest { name: name.to_owned() }
}

#[test]
fn test_create_project_with_default_columns() {
    let mut s = Store::new();
    let p = s
        .create_project(named("Project with Columns"), "2024-01-01T00:00:00Z")
        .unwrap();
    assert_eq!(p.name, "Project with Columns");
    assert_eq!(p.sort_order, 1000);
    let cols = s.list_columns(p.id);
    let names: Vec<&str> = cols.iter().map(|c| c.name.as_str()).collect();
    assert_eq!(names, vec!["Backlog", "To Do", "In Progress", "Testing", "Done"]);
    let keys: Vec<i64> = cols.iter().map(|c| c.sort_order).collect();
    assert_eq!(keys, vec![1000, 2000, 3000, 4000, 5000]);
    for c in &cols {
        assert_eq!(c.project_id, p.id);
    }
}

#[test]
fn test_create_project_empty_name_is_refused() {
    let mut s = Store::new();
    let r = s.create_project(named(""), "now");
    assert_eq!(r.unwrap_err(), StoreError::Validation);
    assert!(s.list_projects().is_empty());
    assert_eq!(s.columns.len(), 0);
}

#[test]
fn test_project_append_keys_gap() {
    let mut s = Store::new();
    let a = s.create_project(named("A"), "t").unwrap();
    let b = s.create_project(named("B"), "t").unwrap();
    let c = s.create_project(named("C"), "t").unwrap();
    assert_eq!(a.sort_order, 1000);
    assert_eq!(b.sort_order, 2000);
    assert_eq!(c.sort_order, 3000);
}

#[test]
fn test_column_append_key_after_defaults() {
    let mut s = Store::new();
    let p = s.create_project(named("P"), "t").unwrap();
    let c1 = s
        .create_column(p.id, CreateColumnRequest { name: "Review".to_owned() }, "t")
        .unwrap();
    let c2 = s
        .create_column(p.id, CreateColumnRequest { name: "Blocked".to_owned() }, "t")
        .unwrap();
    // the five defaults end at 5000; appended columns leave exact 1000 gaps
    assert_eq!(c1.sort_order, 6000);
    assert_eq!(c2.sort_order, 7000);
}

#[test]
fn test_create_column_unknown_project() {
    let mut s = Store::new();
    let r = s.create_column(99, CreateColumnRequest { name: "X".to_owned() }, "t");
    assert_eq!(r.unwrap_err(), StoreError::NotFound);
}

#[test]
fn test_update_project() {
    let mut s = Store::new();
    let p = s.create_project(named("Old Name"), "t").unwrap();
    let updated = s
        .update_project(p.id, UpdateProjectRequest { name: "New Name".to_owned() })
        .unwrap();
    assert_eq!(updated.id, p.id);
    assert_eq!(updated.name, "New Name");
    assert_eq!(updated.sort_order, p.sort_order);
}

#[test]
fn test_update_project_not_found() {
    let mut s = Store::new();
    let r = s.update_project(999, UpdateProjectRequest { name: "New Name".to_owned() });
    assert_eq!(r.unwrap_err(), StoreError::NotFound);
}

#[test]
fn test_delete_project_cascades() {
    let mut s = Store::new();
    let p = s.create_project(named("To Delete"), "t").unwrap();
    let q = s.create_project(named("Kept"), "t").unwrap();
    let cols = s.list_columns(p.id);
    let t = s
        .create_task(
            p.id,
            CreateTaskRequest {
                column_id: cols[0].id,
                title: "task".to_owned(),
                description: None,
                source_tag: None,
            },
            "t",
        )
        .unwrap();
    s.create_subtask(t.id, CreateSubtaskRequest { title: "sub".to_owned() }).unwrap();
    assert!(s.delete_project(p.id).is_ok());
    assert!(s.get_project(p.id).is_err());
    assert_eq!(s.list_columns(p.id).len(), 0);
    assert_eq!(s.list_tasks(p.id).len(), 0);
    assert_eq!(s.subtasks.len(), 0);
    // the other project is untouched
    assert_eq!(s.list_columns(q.id).len(), 5);
}

#[test]
fn test_delete_project_not_found() {
    let mut s = Store::new();
    let r = s.delete_project(999);
    assert_eq!(r.unwrap_err(), StoreError::NotFound);
}

#[test]
fn test_reorder_projects_applies_keys() {
    let mut s = Store::new();
    let a = s.create_project(named("A"), "t").unwrap();
    let b = s.create_project(named("B"), "t").unwrap();
    let items = vec![
        ReorderProjectItem { id: a.id, sort_order: 5000 },
        ReorderProjectItem { id: b.id, sort_order: 100 },
    ];
    assert!(s.reorder_projects(&items).is_ok());
    let listed = s.list_projects();
    assert_eq!(listed[0].name, "B");
    assert_eq!(listed[0].sort_order, 100);
    assert_eq!(listed[1].name, "A");
    assert_eq!(listed[1].sort_order, 5000);
}

#[test]
fn test_bulk_reorder_is_atomic_on_invalid_id() {
    let mut s = Store::new();
    let p = s.create_project(named("P"), "t").unwrap();
    let before: Vec<i64> = s.list_columns(p.id).iter().map(|c| c.sort_order).collect();
    let cols = s.list_columns(p.id);
    let items = vec![
        ReorderItem { id: cols[0].id, sort_order: 9000 },
        ReorderItem { id: 424242, sort_order: 1 },
        ReorderItem { id: cols[1].id, sort_order: 8000 },
    ];
    let r = s.reorder_columns(p.id, &items);
    assert_eq!(r.unwrap_err(), StoreError::NotFound);
    let after: Vec<i64> = s.list_columns(p.id).iter().map(|c| c.sort_order).collect();
    assert_eq!(before, after);
}

#[test]
fn test_reorder_columns_scoped_to_project() {
    let mut s = Store::new();
    let a = s.create_project(named("A"), "t").unwrap();
    let b = s.create_project(named("B"), "t").unwrap();
    let b_cols_before: Vec<(i64, i64)> =
        s.list_columns(b.id).iter().map(|c| (c.id, c.sort_order)).collect();
    let a_cols = s.list_columns(a.id);
    let b_cols = s.list_columns(b.id);
    // a payload for A that (incorrectly) names one of B's columns
    let items = vec![
        ReorderItem { id: a_cols[0].id, sort_order: 7000 },
        ReorderItem { id: b_cols[0].id, sort_order: 1 },
    ];
    let r = s.reorder_columns(a.id, &items);
    assert_eq!(r.unwrap_err(), StoreError::NotFound);
    let b_cols_after: Vec<(i64, i64)> =
        s.list_columns(b.id).iter().map(|c| (c.id, c.sort_order)).collect();
    assert_eq!(b_cols_before, b_cols_after);
    // a payload that stays inside A's scope is applied, and B is untouched
    let items = vec![ReorderItem { id: a_cols[0].id, sort_order: 7000 }];
    assert!(s.reorder_columns(a.id, &items).is_ok());
    let b_cols_after: Vec<(i64, i64)> =
        s.list_columns(b.id).iter().map(|c| (c.id, c.sort_order)).collect();
    assert_eq!(b_cols_before, b_cols_after);
}

#[test]
fn test_reorder_duplicate_id_last_wins() {
    let mut s = Store::new();
    let p = s.create_project(named("P"), "t").unwrap();
    let cols = s.list_columns(p.id);
    let items = vec![
        ReorderItem { id: cols[0].id, sort_order: 111 },
        ReorderItem { id: cols[0].id, sort_order: 222 },
    ];
    assert!(s.reorder_columns(p.id, &items).is_ok());
    let cols_after = s.list_columns(p.id);
    let moved = cols_after.iter().find(|c| c.id == cols[0].id).unwrap();
    assert_eq!(moved.sort_order, 222);
}

#[test]
fn test_create_task_appends_and_validates_column() {
    let mut s = Store::new();
    let p = s.create_project(named("P"), "t").unwrap();
    let q = s.create_project(named("Q"), "t").unwrap();
    let p_cols = s.list_columns(p.id);
    let q_cols = s.list_columns(q.id);
    let t1 = s
        .create_task(
            p.id,
            CreateTaskRequest {
                column_id: p_cols[0].id,
                title: "first".to_owned(),
                description: Some("d".to_owned()),
                source_tag: Some("manual".to_owned()),
            },
            "t",
        )
        .unwrap();
    let t2 = s
        .create_task(
            p.id,
            CreateTaskRequest {
                column_id: p_cols[1].id,
                title: "second".to_owned(),
                description: None,
                source_tag: None,
            },
            "t",
        )
        .unwrap();
    assert_eq!(t1.sort_order, 1000);
    assert_eq!(t2.sort_order, 2000);
    assert_eq!(t1.description.as_deref(), Some("d"));
    // a column of another project is refused
    let r = s.create_task(
        p.id,
        CreateTaskRequest {
            column_id: q_cols[0].id,
            title: "stray".to_owned(),
            description: None,
            source_tag: None,
        },
        "t",
    );
    assert_eq!(r.unwrap_err(), StoreError::NotFound);
}

#[test]
fn test_move_task_stays_within_project() {
    let mut s = Store::new();
    let p = s.create_project(named("P"), "t").unwrap();
    let q = s.create_project(named("Q"), "t").unwrap();
    let p_cols = s.list_columns(p.id);
    let q_cols = s.list_columns(q.id);
    let t = s
        .create_task(
            p.id,
            CreateTaskRequest {
                column_id: p_cols[0].id,
                title: "task".to_owned(),
                description: None,
                source_tag: None,
            },
            "t",
        )
        .unwrap();
    let update = UpdateTaskRequest {
        title: None,
        description: None,
        priority: None,
        source_tag: None,
        column_id: Some(p_cols[2].id),
    };
    let moved = s.update_task(t.id, update).unwrap();
    assert_eq!(moved.column_id, p_cols[2].id);
    assert_eq!(moved.title, "task");
    // a cross-project move is refused
    let stray = UpdateTaskRequest {
        title: None,
        description: None,
        priority: None,
        source_tag: None,
        column_id: Some(q_cols[0].id),
    };
    assert_eq!(s.update_task(t.id, stray).unwrap_err(), StoreError::NotFound);
    let still = s.get_task(t.id).unwrap();
    assert_eq!(still.column_id, p_cols[2].id);
}

#[test]
fn test_delete_column_cascades_tasks_and_clears_defaults() {
    let mut s = Store::new();
    let p = s.create_project(named("P"), "t").unwrap();
    let cols = s.list_columns(p.id);
    let t = s
        .create_task(
            p.id,
            CreateTaskRequest {
                column_id: cols[0].id,
                title: "in backlog".to_owned(),
                description: None,
                source_tag: None,
            },
            "t",
        )
        .unwrap();
    s.create_subtask(t.id, CreateSubtaskRequest { title: "sub".to_owned() }).unwrap();
    let req = real_kanban::model::CreateLinkedPathRequest {
        path: "/w".to_owned(),
        hostname: None,
        default_column_id: Some(cols[0].id),
    };
    s.create_linked_path(p.id, req, "t").unwrap();
    assert!(s.delete_column(cols[0].id).is_ok());
    assert!(s.get_task(t.id).is_err());
    assert_eq!(s.subtasks.len(), 0);
    let binds = s.list_linked_paths(p.id);
    assert_eq!(binds.len(), 1);
    assert_eq!(binds[0].default_column_id, None);
    assert_eq!(s.list_columns(p.id).len(), 4);
}

#[test]
fn test_subtask_lifecycle() {
    let mut s = Store::new();
    let p = s.create_project(named("P"), "t").unwrap();
    let cols = s.list_columns(p.id);
    let t = s
        .create_task(
            p.id,
            CreateTaskRequest {
                column_id: cols[0].id,
                title: "task".to_owned(),
                description: None,
                source_tag: None,
            },
            "t",
        )
        .unwrap();
    let s1 = s.create_subtask(t.id, CreateSubtaskRequest { title: "one".to_owned() }).unwrap();
    let s2 = s.create_subtask(t.id, CreateSubtaskRequest { title: "two".to_owned() }).unwrap();
    assert_eq!(s1.sort_order, 1000);
    assert_eq!(s2.sort_order, 2000);
    assert!(!s1.done);
    let upd = s
        .update_subtask(s1.id, UpdateSubtaskRequest { title: None, done: Some(true) })
        .unwrap();
    assert!(upd.done);
    assert_eq!(upd.title, "one");
    assert!(s.delete_subtask(s2.id).is_ok());
    assert_eq!(s.delete_subtask(s2.id).unwrap_err(), StoreError::NotFound);
    assert_eq!(s.create_subtask(9999, CreateSubtaskRequest { title: "x".to_owned() }).unwrap_err(), StoreError::NotFound);
}

#[test]
fn test_tag_name_conflict_keeps_original() {
    let mut s = Store::new();
    let first = s
        .create_tag(CreateTagRequest { name: "urgent".to_owned(), color: "#ff0000".to_owned() })
        .unwrap();
    let r = s.create_tag(CreateTagRequest { name: "urgent".to_owned(), color: "#00ff00".to_owned() });
    assert_eq!(r.unwrap_err(), StoreError::Conflict);
    let tags = s.list_tags();
    assert_eq!(tags.len(), 1);
    assert_eq!(tags[0].id, first.id);
    assert_eq!(tags[0].color, "#ff0000");
}

#[test]
fn test_delete_missing_tag_is_not_silent() {
    let mut s = Store::new();
    let r = s.delete_tag(7);
    assert_eq!(r.unwrap_err(), StoreError::NotFound);
    let t = s
        .create_tag(CreateTagRequest { name: "a".to_owned(), color: "#000".to_owned() })
        .unwrap();
    assert!(s.delete_tag(t.id).is_ok());
    assert_eq!(s.delete_tag(t.id).unwrap_err(), StoreError::NotFound);
}

#[test]
fn test_list_tags_ordered_by_name() {
    let mut s = Store::new();
    for name in ["citrus", "apple", "banana"] {
        s.create_tag(CreateTagRequest { name: name.to_owned(), color: "#fff".to_owned() })
            .unwrap();
    }
    let names: Vec<String> = s.list_tags().into_iter().map(|t| t.name).collect();
    assert_eq!(names, vec!["apple", "banana", "citrus"]);
}

#[test]
fn test_get_project_groups_tasks_under_columns() {
    let mut s = Store::new();
    let p = s.create_project(named("Board"), "t0").unwrap();
    let cols = s.list_columns(p.id);
    for (title, col) in [("one", 0), ("two", 1), ("three", 0)] {
        s.create_task(
            p.id,
            CreateTaskRequest {
                column_id: cols[col].id,
                title: title.to_owned(),
                description: None,
                source_tag: None,
            },
            "t1",
        )
        .unwrap();
    }
    let d = s.get_project(p.id).unwrap();
    assert_eq!(d.id, p.id);
    assert_eq!(d.name, "Board");
    assert_eq!(d.created_at, "t0");
    assert_eq!(d.columns.len(), 5);
    let backlog = &d.columns[0];
    assert_eq!(backlog.name, "Backlog");
    let titles: Vec<&str> = backlog.tasks.iter().map(|t| t.title.as_str()).collect();
    assert_eq!(titles, vec!["one", "three"]);
    assert_eq!(d.columns[1].tasks.len(), 1);
    assert_eq!(d.columns[2].tasks.len(), 0);
}

#[test]
fn test_get_project_not_found() {
    let s = Store::new();
    match s.get_project(999) {
        Err(StoreError::NotFound) => {},
        other => panic!("expected not-found, got {:?}", other),
    }
}

#[test]
fn test_reorder_tasks_within_project() {
    let mut s = Store::new();
    let p = s.create_project(named("P"), "t").unwrap();
    let cols = s.list_columns(p.id);
    let mut ids = Vec::new();
    for title in ["a", "b", "c"] {
        let t = s
            .create_task(
                p.id,
                CreateTaskRequest {
                    column_id: cols[0].id,
                    title: title.to_owned(),
                    description: None,
                    source_tag: None,
                },
                "t",
            )
            .unwrap();
        ids.push(t.id);
    }
    let items = vec![
        ReorderItem { id: ids[0], sort_order: 9000 },
        ReorderItem { id: ids[2], sort_order: 500 },
    ];
    assert!(s.reorder_tasks(p.id, &items).is_ok());
    let titles: Vec<String> = s.list_tasks(p.id).into_iter().map(|t| t.title).collect();
    assert_eq!(titles, vec!["c", "b", "a"]);
}

#[test]
fn test_siblings_may_share_a_key() {
    // keys are advisory: the engine applies duplicates without complaint
    let mut s = Store::new();
    let p = s.create_project(named("P"), "t").unwrap();
    let cols = s.list_columns(p.id);
    let items = vec![
        ReorderItem { id: cols[0].id, sort_order: 100 },
        ReorderItem { id: cols[1].id, sort_order: 100 },
    ];
    assert!(s.reorder_columns(p.id, &items).is_ok());
    let after = s.list_columns(p.id);
    let shared: Vec<i64> = after.iter().filter(|c| c.sort_order == 100).map(|c| c.id).collect();
    assert_eq!(shared.len(), 2);
    assert_eq!(after.len(), 5);
}
