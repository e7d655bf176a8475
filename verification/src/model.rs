//! Row types of the hierarchy store and the request/response shapes of the
//! board service.
//!
//! All identifiers are opaque integers assigned by the store, unique within
//! their table.  Timestamps are carried as opaque strings supplied by the
//! caller (the store itself has no clock).

use vstd::prelude::*;

verus! {

/// Root of the hierarchy.  Owns an ordered set of columns.
#[derive(Debug)]
pub struct Project {
    pub id: i64,
    pub name: String,
    pub sort_order: i64,
    pub created_at: String,
}

/// A column of one project.  A column never moves between projects.
#[derive(Debug)]
pub struct Column {
    pub id: i64,
    pub project_id: i64,
    pub name: String,
    pub sort_order: i64,
    pub created_at: String,
}

/// A task, grouped by its column and ordered among the tasks of its project.
/// The referenced column always belongs to the same project as the task.
#[derive(Debug)]
pub struct Task {
    pub id: i64,
    pub project_id: i64,
    pub column_id: i64,
    pub title: String,
    pub description: Option<String>,
    pub priority: Option<String>,
    pub sort_order: i64,
    pub source_tag: Option<String>,
    pub created_at: Option<String>,
}

/// A subtask of one task.
#[derive(Debug)]
pub struct Subtask {
    pub id: i64,
    pub task_id: i64,
    pub title: String,
    pub done: bool,
    pub sort_order: i64,
}

/// A tag of the flat catalog.  Tag names are unique.
#[derive(Debug)]
pub struct Tag {
    pub id: i64,
    pub name: String,
    pub color: String,
}

/// A registered association between a filesystem path and a project, with an
/// optional hostname qualifier and an optional default column.  The path
/// string is the binding's natural key: at most one live binding per path.
#[derive(Debug)]
pub struct LinkedPath {
    pub id: i64,
    pub project_id: i64,
    pub path: String,
    pub hostname: Option<String>,
    pub default_column_id: Option<i64>,
    pub created_at: String,
}

/// Body of a create-project request.
#[derive(Debug)]
pub struct CreateProjectRequest {
    pub name: String,
}

/// Body of an update-project request.
#[derive(Debug)]
pub struct UpdateProjectRequest {
    pub name: String,
}

/// Body of a create-column request.
#[derive(Debug)]
pub struct CreateColumnRequest {
    pub name: String,
}

/// Body of an update-column request.
#[derive(Debug)]
pub struct UpdateColumnRequest {
    pub name: String,
}

/// Body of a create-subtask request.
#[derive(Debug)]
pub struct CreateSubtaskRequest {
    pub title: String,
}

/// Body of an update-subtask request; a `None` field keeps the current value.
#[derive(Debug)]
pub struct UpdateSubtaskRequest {
    pub title: Option<String>,
    pub done: Option<bool>,
}

/// Body of a create-tag request.
#[derive(Debug)]
pub struct CreateTagRequest {
    pub name: String,
    pub color: String,
}

/// Body of a create-task request; `description` and `source_tag` are
/// optional.
#[derive(Debug)]
pub struct CreateTaskRequest {
    pub column_id: i64,
    pub title: String,
    pub description: Option<String>,
    pub source_tag: Option<String>,
}

/// Body of an update-task request; a `None` field keeps the current value.
/// A column move is a request with only `column_id` set.
#[derive(Debug)]
pub struct UpdateTaskRequest {
    pub title: Option<String>,
    pub description: Option<String>,
    pub priority: Option<String>,
    pub source_tag: Option<String>,
    pub column_id: Option<i64>,
}

/// Body of a bind-path request.
#[derive(Debug)]
pub struct CreateLinkedPathRequest {
    pub path: String,
    pub hostname: Option<String>,
    pub default_column_id: Option<i64>,
}

/// Body of an unbind-by-path request.
#[derive(Debug)]
pub struct DeleteByPathRequest {
    pub path: String,
}

/// Query of a path-resolution request.
#[derive(Debug)]
pub struct LookupQuery {
    pub path: String,
    pub hostname: Option<String>,
}

/// Result of a path resolution: the winning binding together with the
/// display name of its project.
#[derive(Debug)]
pub struct LookupResponse {
    pub linked_path: LinkedPath,
    pub project_name: String,
}

/// A project expanded with its columns (ordered by sort key) and, nested
/// under each column, the project's tasks of that column (ordered by sort
/// key).
#[derive(Debug)]
pub struct ProjectWithDetails {
    pub id: i64,
    pub name: String,
    pub created_at: String,
    pub columns: Vec<ColumnWithTasks>,
}

/// One column of an expanded project, with the tasks grouped under it.
#[derive(Debug)]
pub struct ColumnWithTasks {
    pub id: i64,
    pub project_id: i64,
    pub name: String,
    pub sort_order: i64,
    pub created_at: String,
    pub tasks: Vec<Task>,
}

/// A caller-visible error message.
#[derive(Debug)]
pub struct ErrorResponse {
    pub error: String,
}

/// An owned copy of an optional string.
pub fn dup_opt_string(o: &Option<String>) -> (r: Option<String>)
    ensures
        r == *o,
{
    match o {
        Some(s) => Some(s.clone()),
        None => None,
    }
}

/// An owned copy of a project row.
pub fn dup_project(p: &Project) -> (r: Project)
    ensures
        r == *p,
{
    Project { id: p.id, name: p.name.clone(), sort_order: p.sort_order, created_at: p.created_at.clone() }
}

/// An owned copy of a column row.
pub fn dup_column(c: &Column) -> (r: Column)
    ensures
        r == *c,
{
    Column {
        id: c.id,
        project_id: c.project_id,
        name: c.name.clone(),
        sort_order: c.sort_order,
        created_at: c.created_at.clone(),
    }
}

/// An owned copy of a task row.
pub fn dup_task(t: &Task) -> (r: Task)
    ensures
        r == *t,
{
    Task {
        id: t.id,
        project_id: t.project_id,
        column_id: t.column_id,
        title: t.title.clone(),
        description: dup_opt_string(&t.description),
        priority: dup_opt_string(&t.priority),
        sort_order: t.sort_order,
        source_tag: dup_opt_string(&t.source_tag),
        created_at: dup_opt_string(&t.created_at),
    }
}

/// An owned copy of a subtask row.
pub fn dup_subtask(s: &Subtask) -> (r: Subtask)
    ensures
        r == *s,
{
    Subtask { id: s.id, task_id: s.task_id, title: s.title.clone(), done: s.done, sort_order: s.sort_order }
}

/// An owned copy of a tag row.
pub fn dup_tag(t: &Tag) -> (r: Tag)
    ensures
        r == *t,
{
    Tag { id: t.id, name: t.name.clone(), color: t.color.clone() }
}

/// An owned copy of a path-binding row.
pub fn dup_binding(b: &LinkedPath) -> (r: LinkedPath)
    ensures
        r == *b,
{
    LinkedPath {
        id: b.id,
        project_id: b.project_id,
        path: b.path.clone(),
        hostname: dup_opt_string(&b.hostname),
        default_column_id: b.default_column_id,
        created_at: b.created_at.clone(),
    }
}

/// The error taxonomy of the store.  Every failing operation surfaces
/// exactly one of these; no operation partially applies and reports success.
#[derive(Clone, Copy, Debug, PartialEq, Eq, Structural)]
pub enum StoreError {
    /// A referenced project, column, task, subtask, tag or binding is absent.
    NotFound,
    /// A unique-name constraint would be violated (duplicate tag name).
    Conflict,
    /// A required field is empty.
    Validation,
}

} // verus!
