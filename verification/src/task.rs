//! The task rows that the board works on, and the tasks that callers see.
use crate::json::{json_ids, json_value, json_view, parse_ids, parse_value, JsonView};
use crate::text::{copy_opt, opt_text, same_text, texts};
use vstd::prelude::*;

verus! {

/// Where a task stands in its life.
#[derive(Debug, Clone, Copy, PartialEq, Eq, Structural)]
pub enum TaskStatus {
    Pending,
    InProgress,
    Completed,
    Deleted,
}

impl TaskStatus {
    /// The text under which a status is stored.
    pub open spec fn text(self) -> Seq<char> {
        match self {
            TaskStatus::Pending => "pending"@,
            TaskStatus::InProgress => "in_progress"@,
            TaskStatus::Completed => "completed"@,
            TaskStatus::Deleted => "deleted"@,
        }
    }

    pub fn as_str(self) -> (r: &'static str)
        ensures
            r@ == self.text(),
    {
        match self {
            TaskStatus::Pending => "pending",
            TaskStatus::InProgress => "in_progress",
            TaskStatus::Completed => "completed",
            TaskStatus::Deleted => "deleted",
        }
    }

    /// The status whose text `s` is; a text that is no status gives `None`.
    pub fn parse(s: &str) -> (r: Option<TaskStatus>)
        ensures
            r matches Some(status) ==> s@ == status.text(),
            r is None ==> forall|status: TaskStatus| s@ != #[trigger] status.text(),
    {
        if same_text(s, "pending") {
            Some(TaskStatus::Pending)
        } else if same_text(s, "in_progress") {
            Some(TaskStatus::InProgress)
        } else if same_text(s, "completed") {
            Some(TaskStatus::Completed)
        } else if same_text(s, "deleted") {
            Some(TaskStatus::Deleted)
        } else {
            None
        }
    }
}

/// No two statuses share a text, so what is stored reads back as what was
/// written.
pub proof fn lemma_status_texts_differ(a: TaskStatus, b: TaskStatus)
    requires
        a.text() == b.text(),
    ensures
        a == b,
{
    reveal_strlit("pending");
    reveal_strlit("in_progress");
    reveal_strlit("completed");
    reveal_strlit("deleted");
    assert("pending"@.len() == 7 && "pending"@[0] == 'p');
    assert("deleted"@.len() == 7 && "deleted"@[0] == 'd');
    assert("in_progress"@.len() == 11 && "completed"@.len() == 9);
}

/// A task as it is stored. `blocked_by` and `blocks` hold JSON arrays of task
/// ids, `metadata` a JSON document.
#[derive(Debug)]
pub struct TeamTaskRow {
    pub id: String,
    pub team_id: String,
    pub subject: String,
    pub description: Option<String>,
    pub status: String,
    pub owner: Option<String>,
    pub blocked_by: String,
    pub blocks: String,
    pub metadata: Option<String>,
    pub created_at: i64,
    pub updated_at: i64,
    pub engagement_id: Option<String>,
    pub expected_output: Option<String>,
    pub result: Option<String>,
    pub input_context: Option<String>,
}

/// What a stored task says, as mathematical values.
pub struct RowView {
    pub id: Seq<char>,
    pub team_id: Seq<char>,
    pub subject: Seq<char>,
    pub description: Option<Seq<char>>,
    pub status: Seq<char>,
    pub owner: Option<Seq<char>>,
    pub blocked_by: Seq<char>,
    pub blocks: Seq<char>,
    pub metadata: Option<Seq<char>>,
    pub created_at: int,
    pub updated_at: int,
    pub engagement_id: Option<Seq<char>>,
    pub expected_output: Option<Seq<char>>,
    pub result: Option<Seq<char>>,
    pub input_context: Option<Seq<char>>,
}

impl View for TeamTaskRow {
    type V = RowView;

    open spec fn view(&self) -> RowView {
        RowView {
            id: self.id@,
            team_id: self.team_id@,
            subject: self.subject@,
            description: opt_text(self.description),
            status: self.status@,
            owner: opt_text(self.owner),
            blocked_by: self.blocked_by@,
            blocks: self.blocks@,
            metadata: opt_text(self.metadata),
            created_at: self.created_at as int,
            updated_at: self.updated_at as int,
            engagement_id: opt_text(self.engagement_id),
            expected_output: opt_text(self.expected_output),
            result: opt_text(self.result),
            input_context: opt_text(self.input_context),
        }
    }
}

/// What a list of stored tasks says.
pub open spec fn row_views(rows: Seq<TeamTaskRow>) -> Seq<RowView> {
    rows.map_values(|r: TeamTaskRow| r@)
}

impl Clone for TeamTaskRow {
    fn clone(&self) -> (r: Self)
        ensures
            r == *self,
    {
        TeamTaskRow {
            id: self.id.clone(),
            team_id: self.team_id.clone(),
            subject: self.subject.clone(),
            description: copy_opt(&self.description),
            status: self.status.clone(),
            owner: copy_opt(&self.owner),
            blocked_by: self.blocked_by.clone(),
            blocks: self.blocks.clone(),
            metadata: copy_opt(&self.metadata),
            created_at: self.created_at,
            updated_at: self.updated_at,
            engagement_id: copy_opt(&self.engagement_id),
            expected_output: copy_opt(&self.expected_output),
            result: copy_opt(&self.result),
            input_context: copy_opt(&self.input_context),
        }
    }
}

/// A task as callers see it, with its JSON documents read.
#[derive(Debug)]
pub struct TeamTask {
    pub id: String,
    pub team_id: String,
    pub subject: String,
    pub description: Option<String>,
    pub status: TaskStatus,
    pub owner: Option<String>,
    pub blocked_by: Vec<String>,
    pub blocks: Vec<String>,
    pub metadata: Option<serde_json::Value>,
    pub created_at: i64,
    pub updated_at: i64,
    pub engagement_id: Option<String>,
    pub expected_output: Option<String>,
    pub result: Option<String>,
    pub input_context: Option<String>,
}

pub struct TaskView {
    pub id: Seq<char>,
    pub team_id: Seq<char>,
    pub subject: Seq<char>,
    pub description: Option<Seq<char>>,
    pub status: TaskStatus,
    pub owner: Option<Seq<char>>,
    pub blocked_by: Seq<Seq<char>>,
    pub blocks: Seq<Seq<char>>,
    pub metadata: Option<JsonView>,
    pub created_at: int,
    pub updated_at: int,
    pub engagement_id: Option<Seq<char>>,
    pub expected_output: Option<Seq<char>>,
    pub result: Option<Seq<char>>,
    pub input_context: Option<Seq<char>>,
}

impl View for TeamTask {
    type V = TaskView;

    open spec fn view(&self) -> TaskView {
        TaskView {
            id: self.id@,
            team_id: self.team_id@,
            subject: self.subject@,
            description: opt_text(self.description),
            status: self.status,
            owner: opt_text(self.owner),
            blocked_by: texts(self.blocked_by@),
            blocks: texts(self.blocks@),
            metadata: match self.metadata {
                Some(v) => Some(json_view(v)),
                None => None,
            },
            created_at: self.created_at as int,
            updated_at: self.updated_at as int,
            engagement_id: opt_text(self.engagement_id),
            expected_output: opt_text(self.expected_output),
            result: opt_text(self.result),
            input_context: opt_text(self.input_context),
        }
    }
}

/// What a list of tasks says.
pub open spec fn task_views(tasks: Seq<TeamTask>) -> Seq<TaskView> {
    tasks.map_values(|t: TeamTask| t@)
}

/// The status that a stored text stands for; a text that is no status stands
/// for a task that is pending.
pub open spec fn status_of(s: Seq<char>) -> TaskStatus {
    if s == TaskStatus::InProgress.text() {
        TaskStatus::InProgress
    } else if s == TaskStatus::Completed.text() {
        TaskStatus::Completed
    } else if s == TaskStatus::Deleted.text() {
        TaskStatus::Deleted
    } else {
        TaskStatus::Pending
    }
}

/// What is stored for a status stands for that status.
pub proof fn law_stored_status_reads_back(status: TaskStatus)
    ensures
        status_of(status.text()) == status,
{
    if status.text() == TaskStatus::InProgress.text() {
        lemma_status_texts_differ(status, TaskStatus::InProgress);
    }
    if status.text() == TaskStatus::Completed.text() {
        lemma_status_texts_differ(status, TaskStatus::Completed);
    }
    if status.text() == TaskStatus::Deleted.text() {
        lemma_status_texts_differ(status, TaskStatus::Deleted);
    }
}

/// The JSON documents of the row can be read.
pub open spec fn readable(row: RowView) -> bool {
    &&& json_ids(row.blocked_by) is Some
    &&& json_ids(row.blocks) is Some
    &&& row.metadata matches Some(m) ==> json_value(m) is Some
}

/// The task that a stored row describes.
pub open spec fn task_of(row: RowView) -> TaskView {
    TaskView {
        id: row.id,
        team_id: row.team_id,
        subject: row.subject,
        description: row.description,
        status: status_of(row.status),
        owner: row.owner,
        blocked_by: json_ids(row.blocked_by)->0,
        blocks: json_ids(row.blocks)->0,
        metadata: match row.metadata {
            Some(m) => json_value(m),
            None => None,
        },
        created_at: row.created_at,
        updated_at: row.updated_at,
        engagement_id: row.engagement_id,
        expected_output: row.expected_output,
        result: row.result,
        input_context: row.input_context,
    }
}

/// A status is stored under the name that the stores and the callers of the board
/// know, and a name that is none of the four stands for a task that is pending.
pub proof fn law_statuses_have_their_names(stored: Seq<char>)
    ensures
        TaskStatus::Pending.text() == "pending"@,
        TaskStatus::InProgress.text() == "in_progress"@,
        TaskStatus::Completed.text() == "completed"@,
        TaskStatus::Deleted.text() == "deleted"@,
        status_of(stored) == TaskStatus::InProgress <==> stored == "in_progress"@,
        status_of(stored) == TaskStatus::Completed <==> stored == "completed"@,
        status_of(stored) == TaskStatus::Deleted <==> stored == "deleted"@,
{
    law_stored_status_reads_back(TaskStatus::InProgress);
    law_stored_status_reads_back(TaskStatus::Completed);
    law_stored_status_reads_back(TaskStatus::Deleted);
}

/// A row can be read exactly where its two lists, and its metadata if it has any,
/// can be; the task that is read says in each of its fields what the row stores.
pub proof fn law_task_says_what_is_stored(row: RowView)
    ensures
        readable(row) <==> json_ids(row.blocked_by) is Some && json_ids(row.blocks) is Some && (
        row.metadata is Some ==> json_value(row.metadata->0) is Some),
        task_of(row).id == row.id,
        task_of(row).team_id == row.team_id,
        task_of(row).subject == row.subject,
        task_of(row).description == row.description,
        task_of(row).owner == row.owner,
        task_of(row).created_at == row.created_at,
        task_of(row).updated_at == row.updated_at,
        task_of(row).engagement_id == row.engagement_id,
        task_of(row).expected_output == row.expected_output,
        task_of(row).result == row.result,
        task_of(row).input_context == row.input_context,
        row.status == "pending"@ ==> task_of(row).status == TaskStatus::Pending,
        row.status == "in_progress"@ <==> task_of(row).status == TaskStatus::InProgress,
        row.status == "completed"@ <==> task_of(row).status == TaskStatus::Completed,
        row.status == "deleted"@ <==> task_of(row).status == TaskStatus::Deleted,
        readable(row) ==> json_ids(row.blocked_by) == Some(task_of(row).blocked_by),
        readable(row) ==> json_ids(row.blocks) == Some(task_of(row).blocks),
        row.metadata is None ==> task_of(row).metadata is None,
        row.metadata is Some ==> task_of(row).metadata == json_value(row.metadata->0),
{
    law_statuses_have_their_names(row.status);
    law_stored_status_reads_back(TaskStatus::Pending);
}

impl TeamTask {
    /// Reads a stored row. A row that blocks nothing, as every new one, lists no
    /// ids.
    pub fn from_row(row: &TeamTaskRow) -> (r: Result<TeamTask, serde_json::Error>)
        ensures
            r is Ok <==> readable(row@),
            r matches Ok(task) ==> task@ == task_of(row@),
            r matches Ok(task) ==> {
                &&& task.id == row.id
                &&& task.team_id == row.team_id
                &&& task.subject == row.subject
                &&& task.description == row.description
                &&& task.owner == row.owner
                &&& json_ids(row.blocked_by@) == Some(texts(task.blocked_by@))
                &&& json_ids(row.blocks@) == Some(texts(task.blocks@))
                &&& task.created_at == row.created_at
                &&& task.updated_at == row.updated_at
                &&& task.engagement_id == row.engagement_id
                &&& task.expected_output == row.expected_output
                &&& task.result == row.result
                &&& task.input_context == row.input_context
            },
            (row.metadata is None && json_ids(row.blocked_by@) is Some && json_ids(
                row.blocks@,
            ) is Some) ==> r is Ok,
            row.blocks@ == "[]"@ ==> json_ids(row.blocks@) == Some(Seq::<Seq<char>>::empty()),
    {
        let parsed_blocks = parse_ids(row.blocks.as_str());
        proof {
            if row.blocks@ == "[]"@ {
                assert(texts(parsed_blocks->Ok_0@) =~= Seq::<Seq<char>>::empty());
            }
        }
        let blocked_by = match parse_ids(row.blocked_by.as_str()) {
            Ok(ids) => ids,
            Err(e) => return Err(e),
        };
        let blocks = match parsed_blocks {
            Ok(ids) => ids,
            Err(e) => return Err(e),
        };
        let metadata = match &row.metadata {
            Some(text) => match parse_value(text.as_str()) {
                Ok(v) => Some(v),
                Err(e) => return Err(e),
            },
            None => None,
        };
        let status = match TaskStatus::parse(row.status.as_str()) {
            Some(s) => s,
            None => TaskStatus::Pending,
        };
        proof {
            if status.text() == row.status@ {
                assert forall|s: TaskStatus| #[trigger] s.text() == row.status@ implies s
                    == status by {
                    lemma_status_texts_differ(s, status);
                }
            }
            assert(status == status_of(row.status@));
        }
        Ok(
            TeamTask {
                id: row.id.clone(),
                team_id: row.team_id.clone(),
                subject: row.subject.clone(),
                description: copy_opt(&row.description),
                status,
                owner: copy_opt(&row.owner),
                blocked_by,
                blocks,
                metadata,
                created_at: row.created_at,
                updated_at: row.updated_at,
                engagement_id: copy_opt(&row.engagement_id),
                expected_output: copy_opt(&row.expected_output),
                result: copy_opt(&row.result),
                input_context: copy_opt(&row.input_context),
            },
        )
    }
}

/// A stored row shows each of its fields, and a list of rows shows each row.
pub proof fn law_row_shows_its_fields(rows: Seq<TeamTaskRow>, i: int)
    requires
        0 <= i < rows.len(),
    ensures
        row_views(rows).len() == rows.len(),
        ({
            let v = row_views(rows)[i];
            &&& v.id == rows[i].id@
            &&& v.team_id == rows[i].team_id@
            &&& v.subject == rows[i].subject@
            &&& v.description == opt_text(rows[i].description)
            &&& v.status == rows[i].status@
            &&& v.owner == opt_text(rows[i].owner)
            &&& v.blocked_by == rows[i].blocked_by@
            &&& v.blocks == rows[i].blocks@
            &&& v.metadata == opt_text(rows[i].metadata)
            &&& v.created_at == rows[i].created_at
            &&& v.updated_at == rows[i].updated_at
            &&& v.engagement_id == opt_text(rows[i].engagement_id)
            &&& v.expected_output == opt_text(rows[i].expected_output)
            &&& v.result == opt_text(rows[i].result)
            &&& v.input_context == opt_text(rows[i].input_context)
        }),
{
}

/// A task shows each of its fields, and a list of tasks shows each task.
pub proof fn law_task_shows_its_fields(tasks: Seq<TeamTask>, i: int)
    requires
        0 <= i < tasks.len(),
    ensures
        task_views(tasks).len() == tasks.len(),
        ({
            let v = task_views(tasks)[i];
            &&& v.id == tasks[i].id@
            &&& v.team_id == tasks[i].team_id@
            &&& v.subject == tasks[i].subject@
            &&& v.description == opt_text(tasks[i].description)
            &&& v.status == tasks[i].status
            &&& v.owner == opt_text(tasks[i].owner)
            &&& v.blocked_by == texts(tasks[i].blocked_by@)
            &&& v.blocks == texts(tasks[i].blocks@)
            &&& tasks[i].metadata is None <==> v.metadata is None
            &&& tasks[i].metadata is Some ==> v.metadata == Some(json_view(tasks[i].metadata->0))
            &&& v.created_at == tasks[i].created_at
            &&& v.updated_at == tasks[i].updated_at
            &&& v.engagement_id == opt_text(tasks[i].engagement_id)
            &&& v.expected_output == opt_text(tasks[i].expected_output)
            &&& v.result == opt_text(tasks[i].result)
            &&& v.input_context == opt_text(tasks[i].input_context)
        }),
{
}

/// A row is read as a task exactly where its lists are lists of ids and its metadata,
/// where it has any, is JSON.
pub proof fn law_broken_row_is_not_read(row: RowView)
    ensures
        readable(row) <==> {
            &&& json_ids(row.blocked_by) is Some
            &&& json_ids(row.blocks) is Some
            &&& row.metadata is None || json_value(row.metadata->0) is Some
        },
{
}

} // verus!
