//! What the members of a team may do: take and finish tasks one at a time or
//! together, and ask each other to stop.
use crate::board_laws::{
    law_create_stays_in_scope, law_created_task_is_found, law_unblocking_only_releases,
    law_update_stays_in_scope, lemma_found, lemma_linked_kept,
};
use crate::board_spec::{
    changed, first_missing, found, id_taken, linked, listed, listed_tasks, new_row, no_cycles,
    outside_kept, unique_ids, updated, visible, Scope, UpdateView,
};
use crate::error::TeamError;
use crate::json::json_ids;
use crate::task::{lemma_status_texts_differ, readable, task_of, RowView, TaskStatus, TeamTask};
use crate::task_board::{
    create_effect, creates, first_in_progress, in_progress, lemma_filter_contains, oldest_startable,
    opt_json, startable, update_effect, updates, TaskBoard, TaskStore, TaskUpdate,
};
use crate::task_laws::held;
use crate::text::{opt_str, opt_text, same_text, texts};
use vstd::prelude::*;

verus! {

/// How a team works through its tasks.
#[derive(Debug, Clone, Copy, PartialEq, Eq, Structural)]
pub enum TaskProcess {
    /// One task at a time.
    Sequential,
    /// Any number of tasks at a time.
    Hierarchical,
}

impl TaskProcess {
    /// The text under which a process is stored.
    pub open spec fn text(self) -> Seq<char> {
        match self {
            TaskProcess::Sequential => "sequential"@,
            TaskProcess::Hierarchical => "hierarchical"@,
        }
    }

    /// The process whose text `s` is; a text that is none gives `None`.
    pub fn parse(s: &str) -> (r: Option<TaskProcess>)
        ensures
            r matches Some(p) ==> s@ == p.text(),
            r is None ==> forall|p: TaskProcess| s@ != #[trigger] p.text(),
    {
        if same_text(s, "sequential") {
            Some(TaskProcess::Sequential)
        } else if same_text(s, "hierarchical") {
            Some(TaskProcess::Hierarchical)
        } else {
            None
        }
    }
}

#[derive(Debug, Clone, Copy, PartialEq, Eq, Structural)]
pub enum TeammateRole {
    Lead,
    Teammate,
}

#[derive(Debug, Clone, Copy, PartialEq, Eq, Structural)]
pub enum MailboxMessageType {
    Message,
    ShutdownRequest,
}

/// A message to be put into the mailbox of a member.
#[derive(Debug)]
pub struct MailboxWrite {
    pub team_id: String,
    pub to_agent_id: String,
    pub from_agent_id: String,
    pub kind: MailboxMessageType,
    pub content: String,
    pub summary: Option<String>,
    pub engagement_id: Option<String>,
}

/// A place in the team and the role that goes with it.
#[derive(Debug)]
pub struct Slot {
    pub slot_id: String,
    pub role: TeammateRole,
}

/// A slot that completed a task in its current turn.
#[derive(Debug)]
pub struct Completion {
    pub slot_id: String,
    pub task_id: String,
}

/// The completions of one slot, in the order in which they were noted.
pub open spec fn noted(notes: Seq<Completion>, slot: Seq<char>) -> Seq<Seq<char>>
    decreases notes.len(),
{
    if notes.len() == 0 {
        Seq::empty()
    } else if notes.last().slot_id@ == slot {
        noted(notes.drop_last(), slot).push(notes.last().task_id@)
    } else {
        noted(notes.drop_last(), slot)
    }
}

/// The role of the first slot with that id.
pub open spec fn role_of(slots: Seq<Slot>, id: Seq<char>) -> Option<TeammateRole>
    decreases slots.len(),
{
    if slots.len() == 0 {
        None
    } else if slots[0].slot_id@ == id {
        Some(slots[0].role)
    } else {
        role_of(slots.drop_first(), id)
    }
}

/// Members, the board that they share, and what they completed in their
/// current turns.
#[derive(Debug)]
pub struct TeammateManager {
    pub team_id: String,
    pub process: TaskProcess,
    pub slots: Vec<Slot>,
    pub task_board: TaskBoard,
    pub pending_task_results: Vec<Completion>,
}

/// The scope holds the row, and its task is stored as being in progress.
pub open spec fn busy(s: Scope, row: RowView) -> bool {
    visible(s, row) && row.status == TaskStatus::InProgress.text()
}

/// No two different tasks of the scope are in progress.
pub open spec fn one_at_a_time(s: Scope, rows: Seq<RowView>) -> bool {
    forall|i: int, j: int|
        0 <= i < rows.len() && 0 <= j < rows.len() && busy(s, #[trigger] rows[i]) && busy(
            s,
            #[trigger] rows[j],
        ) ==> rows[i].id == rows[j].id
}

/// Every row of the scope that is in progress can be read.
pub open spec fn busy_readable(s: Scope, rows: Seq<RowView>) -> bool {
    forall|i: int| 0 <= i < rows.len() && busy(s, #[trigger] rows[i]) ==> readable(rows[i])
}

/// Another task of the scope is in progress.
pub open spec fn another_is_busy(s: Scope, rows: Seq<RowView>, id: Seq<char>) -> bool {
    exists|i: int| 0 <= i < rows.len() && busy(s, #[trigger] rows[i]) && rows[i].id != id
}

/// The request was refused because another task is in progress.
pub open spec fn is_busy_error(r: Result<TeamTask, TeamError>) -> bool {
    r matches Err(TeamError::SequentialBusy { .. })
}

/// Where no two rows share an id, one task at a time is one row at a time.
pub proof fn law_one_task_is_one_row(s: Scope, rows: Seq<RowView>, i: int, j: int)
    requires
        one_at_a_time(s, rows),
        unique_ids(rows),
        0 <= i < rows.len(),
        0 <= j < rows.len(),
        busy(s, rows[i]),
        busy(s, rows[j]),
    ensures
        i == j,
{
    if i < j {
        assert(rows[i].id != rows[j].id);
    } else if j < i {
        assert(rows[j].id != rows[i].id);
    }
}

/// The task that keeps `id` from starting: another one that is in progress.
pub open spec fn busy_with(s: Scope, rows: Seq<RowView>, id: Seq<char>, i: int) -> bool {
    first_in_progress(s, rows, i) && rows[i].id != id
}

/// The status that a text names; `None` where it names none.
pub open spec fn parsed_status(status: Option<&str>) -> Option<TaskStatus> {
    match status {
        Some(t) => if exists|x: TaskStatus| t@ == #[trigger] x.text() {
            Some(choose|x: TaskStatus| t@ == #[trigger] x.text())
        } else {
            None
        },
        None => None,
    }
}

pub open spec fn requested(
    status: Option<&str>,
    description: Option<String>,
    owner: Option<String>,
    blocked_by: Option<Vec<String>>,
) -> UpdateView {
    UpdateView {
        status: parsed_status(status),
        description: opt_text(description),
        owner: opt_text(owner),
        blocked_by: match blocked_by {
            Some(ids) => Some(texts(ids@)),
            None => None,
        },
        metadata: None,
    }
}

fn parse_status(status: Option<&str>) -> (r: Option<TaskStatus>)
    ensures
        r == parsed_status(status),
{
    match status {
        Some(t) => {
            let r = TaskStatus::parse(t);
            proof {
                if let Some(x) = r {
                    let y = choose|y: TaskStatus| t@ == #[trigger] y.text();
                    lemma_status_texts_differ(x, y);
                }
            }
            r
        },
        None => None,
    }
}

proof fn lemma_one_at_a_time(
    s: Scope,
    rows: Seq<RowView>,
    id: Seq<char>,
    u: UpdateView,
    now: int,
)
    requires
        one_at_a_time(s, rows),
        found(s, rows, id) is Some,
        u.status == Some(TaskStatus::InProgress) ==> forall|j: int|
            0 <= j < rows.len() && busy(s, #[trigger] rows[j]) ==> rows[j].id == id,
    ensures
        one_at_a_time(s, updated(s, rows, found(s, rows, id)->0, u, now)),
{
    let at = found(s, rows, id)->0;
    let after = updated(s, rows, at, u, now);
    let written = rows.update(at, changed(rows[at], u, now));
    lemma_found(s, rows, id);
    law_update_stays_in_scope(s, rows, id, u, now);
    assert forall|i: int| 0 <= i < rows.len() implies (#[trigger] after[i]).status
        == written[i].status && visible(s, after[i]) == visible(s, rows[i]) by {
        law_unblocking_only_releases(s, written, rows[at].id, listed(rows[at].blocks), i);
        assert(rows[i].id == after[i].id);
    }
    assert forall|i: int, j: int|
        0 <= i < after.len() && 0 <= j < after.len() && busy(s, #[trigger] after[i]) && busy(
            s,
            #[trigger] after[j],
        ) implies after[i].id == after[j].id by {
        assert(written[i].status == after[i].status && written[j].status == after[j].status);
        assert(rows[i].id == after[i].id && rows[j].id == after[j].id);
        if u.status == Some(TaskStatus::InProgress) {
            if i != at {
                assert(busy(s, rows[i]));
            }
            if j != at {
                assert(busy(s, rows[j]));
            }
        } else {
            assert(u.status is Some && i == at ==> false) by {
                if u.status is Some && i == at {
                    lemma_status_texts_differ(u.status->0, TaskStatus::InProgress);
                }
            }
            assert(u.status is Some && j == at ==> false) by {
                if u.status is Some && j == at {
                    lemma_status_texts_differ(u.status->0, TaskStatus::InProgress);
                }
            }
            assert(busy(s, rows[i]) && busy(s, rows[j]));
        }
    }
}

impl TeammateManager {
    pub open spec fn scope(self) -> Scope {
        self.task_board.scope(self.team_id@)
    }

    /// Another task is in progress, and only one may be.
    pub open spec fn refuses(self, rows: Seq<RowView>, id: Seq<char>, status: Option<&str>) -> bool {
        &&& self.process == TaskProcess::Sequential
        &&& parsed_status(status) == Some(TaskStatus::InProgress)
        &&& exists|i: int| #[trigger] busy_with(self.scope(), rows, id, i)
    }

    pub fn is_sequential(&self) -> (r: bool)
        ensures
            r == (self.process == TaskProcess::Sequential),
    {
        self.process == TaskProcess::Sequential
    }

    /// Changes a task. In a sequential team a task starts only while no other
    /// one is in progress; the task that is may be marked again.
    pub fn update_task(
        &self,
        store: &mut TaskStore,
        now: i64,
        task_id: &str,
        status: Option<&str>,
        description: Option<String>,
        owner: Option<String>,
        blocked_by: Option<Vec<String>>,
    ) -> (r: Result<TeamTask, TeamError>)
        ensures
            ({
                let s = self.scope();
                let rows = old(store).tasks();
                let after = final(store).tasks();
                let u = requested(status, description, owner, blocked_by);
                &&& if self.refuses(rows, task_id@, status) {
                    &&& r matches Err(TeamError::SequentialBusy { task_id: t, current_task_id: c })
                        && t@ == task_id@ && exists|i: int| #[trigger]
                        busy_with(s, rows, task_id@, i) && c@ == rows[i].id
                    &&& after == rows
                    &&& final(store).announced() == old(store).announced()
                } else {
                    update_effect(
                        s,
                        self.task_board.announcing(),
                        rows,
                        old(store).announced(),
                        task_id@,
                        u,
                        None,
                        now as int,
                        after,
                        final(store).announced(),
                        r,
                    )
                }
                &&& outside_kept(s, rows, after)
                &&& unique_ids(rows) ==> unique_ids(after)
                &&& no_cycles(s, rows) ==> no_cycles(s, after)
                &&& r matches Ok(task) ==> {
                    &&& task.id@ == task_id@
                    &&& description is Some ==> opt_text(task.description) == opt_text(description)
                    &&& owner is Some ==> opt_text(task.owner) == opt_text(owner)
                    &&& blocked_by is Some ==> texts(task.blocked_by@) == texts(blocked_by->0@)
                    &&& task.updated_at == now
                }
                &&& self.process == TaskProcess::Hierarchical ==> !is_busy_error(r)
                &&& self.process == TaskProcess::Sequential && busy_readable(s, rows)
                    && one_at_a_time(s, rows) ==> {
                    &&& one_at_a_time(s, after)
                    &&& is_busy_error(r) <==> parsed_status(status) == Some(
                        TaskStatus::InProgress,
                    ) && another_is_busy(s, rows, task_id@)
                }
            }),
    {
        let parsed = parse_status(status);
        let ghost s = self.scope();
        let ghost rows = store.tasks();
        let starts = match parsed {
            Some(TaskStatus::InProgress) => true,
            _ => false,
        };
        if self.is_sequential() && starts {
            if let Some(current) = self.task_board.in_progress_task(store, self.team_id.as_str()) {
                let ghost i = choose|i: int| #[trigger]
                    first_in_progress(s, rows, i) && current@ == task_of(rows[i]);
                assert(current.id@ == rows[i].id);
                if !same_text(current.id.as_str(), task_id) {
                    proof {
                        assert(busy_with(s, rows, task_id@, i));
                        lemma_in_progress_busy(s, rows[i]);
                        assert(another_is_busy(s, rows, task_id@));
                    }
                    return Err(
                        TeamError::SequentialBusy {
                            task_id: task_id.to_owned(),
                            current_task_id: current.id,
                        },
                    );
                }
                assert forall|j: int| !busy_with(s, rows, task_id@, j) by {
                    if busy_with(s, rows, task_id@, j) {
                        assert(i == j) by {
                            if i < j {
                                assert(!in_progress(s, rows[i]));
                            } else if j < i {
                                assert(!in_progress(s, rows[j]));
                            }
                        }
                    }
                }
            }
        }
        let update = TaskUpdate { status: parsed, description, owner, blocked_by, metadata: None };
        proof {
            let u = update@;
            assert(!self.refuses(rows, task_id@, status)) by {
                if self.refuses(rows, task_id@, status) {
                    let i = choose|i: int| #[trigger] busy_with(s, rows, task_id@, i);
                    assert(in_progress(s, rows[i]));
                }
            }
            if self.process == TaskProcess::Sequential && busy_readable(s, rows) && one_at_a_time(
                s,
                rows,
            ) && u.status == Some(TaskStatus::InProgress) {
                assert forall|j: int| 0 <= j < rows.len() && busy(
                    s,
                    #[trigger] rows[j],
                ) implies rows[j].id == task_id@ by {
                    let i = lemma_first_busy(s, rows, j);
                    assert(!busy_with(s, rows, task_id@, i));
                    lemma_in_progress_busy(s, rows[i]);
                }
            }
            if self.process == TaskProcess::Sequential && busy_readable(s, rows) && one_at_a_time(
                s,
                rows,
            ) && updates(s, rows, task_id@, u) {
                lemma_one_at_a_time(s, rows, task_id@, u, now as int);
            }
        }
        self.task_board.update_task(store, now, self.team_id.as_str(), task_id, &update)
    }

    /// Creates a task of the team on its board.
    pub fn create_task(
        &self,
        store: &mut TaskStore,
        id: &str,
        now: i64,
        subject: &str,
        description: Option<&str>,
        owner: Option<&str>,
        blocked_by: &[String],
        expected_output: Option<&str>,
    ) -> (r: Result<TeamTask, TeamError>)
        ensures
            ({
                let s = self.scope();
                let rows = old(store).tasks();
                let deps = texts(blocked_by@);
                let row = new_row(
                    s,
                    id@,
                    now as int,
                    subject@,
                    opt_str(description),
                    opt_str(owner),
                    deps,
                    opt_str(expected_output),
                    opt_json(self.task_board.new_task_metadata()),
                );
                &&& create_effect(
                    s,
                    self.task_board.announcing(),
                    self.task_board.new_task_metadata(),
                    rows,
                    old(store).announced(),
                    row,
                    deps,
                    final(store).tasks(),
                    final(store).announced(),
                    r,
                )
                &&& one_at_a_time(s, rows) ==> one_at_a_time(s, final(store).tasks())
            }),
            r matches Ok(task) ==> {
                &&& task.id@ == id@
                &&& task.team_id@ == self.team_id@
                &&& task.subject@ == subject@
                &&& opt_text(task.description) == opt_str(description)
                &&& opt_text(task.owner) == opt_str(owner)
                &&& opt_text(task.expected_output) == opt_str(expected_output)
                &&& task.status == TaskStatus::Pending
                &&& texts(task.blocked_by@) == texts(blocked_by@)
                &&& task.blocks@.len() == 0
                &&& task.created_at == now
                &&& task.updated_at == now
                &&& task.result is None
                &&& task.input_context is None
            },
    {
        proof {
            let s = self.scope();
            let rows = store.tasks();
            let deps = texts(blocked_by@);
            let row = new_row(
                s,
                id@,
                now as int,
                subject@,
                opt_str(description),
                opt_str(owner),
                deps,
                opt_str(expected_output),
                opt_json(self.task_board.new_task_metadata()),
            );
            if creates(s, rows, id@, deps) && one_at_a_time(s, rows) {
                lemma_new_task_is_not_busy(s, rows, row, deps);
            }
        }
        self.task_board.create_task(
            store,
            id,
            now,
            self.team_id.as_str(),
            subject,
            description,
            owner,
            blocked_by,
            expected_output,
        )
    }
}

/// The answer to a member that asks another one to stop.
pub open spec fn shutdown_outcome(
    m: TeammateManager,
    from: Seq<char>,
    target: Seq<char>,
    reason: Option<Seq<char>>,
    r: Result<MailboxWrite, TeamError>,
) -> bool {
    if role_of(m.slots@, from) is None {
        r matches Err(TeamError::AgentNotFound(x)) && x@ == from
    } else if role_of(m.slots@, from) != Some(TeammateRole::Lead) {
        r matches Err(TeamError::InvalidRequest(x)) && x@ == "only lead can shutdown agents"@
    } else if role_of(m.slots@, target) is None {
        r matches Err(TeamError::AgentNotFound(x)) && x@ == target
    } else if role_of(m.slots@, target) == Some(TeammateRole::Lead) {
        r matches Err(TeamError::InvalidRequest(x)) && x@ == "cannot shutdown the team lead"@
    } else {
        r matches Ok(w) && {
            &&& w.team_id@ == m.team_id@
            &&& w.to_agent_id@ == target
            &&& w.from_agent_id@ == from
            &&& w.kind == MailboxMessageType::ShutdownRequest
            &&& w.content@ == match reason {
                Some(t) => t,
                None => "shutdown requested"@,
            }
            &&& w.summary is None
            &&& opt_text(w.engagement_id) == m.task_board.engagement()
        }
    }
}

impl TeammateManager {
    fn slot_role(&self, id: &str) -> (r: Option<TeammateRole>)
        ensures
            r == role_of(self.slots@, id@),
    {
        let ghost all = self.slots@;
        let mut i: usize = 0;
        assert(all.skip(0) =~= all);
        while i < self.slots.len()
            invariant
                i <= self.slots@.len(),
                all == self.slots@,
                role_of(all, id@) == role_of(all.skip(i as int), id@),
            decreases self.slots@.len() - i,
        {
            assert(all.skip(i as int)[0] == all[i as int]);
            if same_text(self.slots[i].slot_id.as_str(), id) {
                return Some(self.slots[i].role);
            }
            assert(all.skip(i as int).drop_first() =~= all.skip(i + 1));
            i = i + 1;
        }
        None
    }

    /// The lead asks a teammate to stop. Nobody else may ask, and nobody may
    /// ask the lead.
    pub fn request_shutdown_agent(
        &self,
        from_slot_id: &str,
        target_slot_id: &str,
        reason: Option<&str>,
    ) -> (r: Result<MailboxWrite, TeamError>)
        ensures
            shutdown_outcome(*self, from_slot_id@, target_slot_id@, opt_str(reason), r),
    {
        match self.slot_role(from_slot_id) {
            None => return Err(TeamError::AgentNotFound(from_slot_id.to_owned())),
            Some(TeammateRole::Lead) => {},
            Some(TeammateRole::Teammate) => return Err(
                TeamError::InvalidRequest("only lead can shutdown agents".to_owned()),
            ),
        }
        match self.slot_role(target_slot_id) {
            None => return Err(TeamError::AgentNotFound(target_slot_id.to_owned())),
            Some(TeammateRole::Lead) => return Err(
                TeamError::InvalidRequest("cannot shutdown the team lead".to_owned()),
            ),
            Some(TeammateRole::Teammate) => {},
        }
        let content = match reason {
            Some(t) => t.to_owned(),
            None => "shutdown requested".to_owned(),
        };
        Ok(
            MailboxWrite {
                team_id: self.team_id.clone(),
                to_agent_id: target_slot_id.to_owned(),
                from_agent_id: from_slot_id.to_owned(),
                kind: MailboxMessageType::ShutdownRequest,
                content,
                summary: None,
                engagement_id: self.task_board.engagement_id(),
            },
        )
    }

    /// Notes that a slot completed a task in its current turn, so that the
    /// result can be taken from its last message when the turn ends.
    pub fn note_completion_for_result(&mut self, slot_id: &str, task_id: &str)
        ensures
            is_noted(
                old(self).pending_task_results@,
                slot_id@,
                task_id@,
                final(self).pending_task_results@,
            ),
            noted(final(self).pending_task_results@, slot_id@) == noted(
                old(self).pending_task_results@,
                slot_id@,
            ).push(task_id@),
            forall|other: Seq<char>|
                other != slot_id@ ==> #[trigger] noted(final(self).pending_task_results@, other)
                    == noted(old(self).pending_task_results@, other),
            final(self).team_id == old(self).team_id,
            final(self).process == old(self).process,
            final(self).slots == old(self).slots,
            final(self).task_board == old(self).task_board,
    {
        let ghost before = self.pending_task_results@;
        self.pending_task_results.push(
            Completion { slot_id: slot_id.to_owned(), task_id: task_id.to_owned() },
        );
        assert(self.pending_task_results@.drop_last() =~= before);
    }

    /// Hands out what a slot completed in its turn and forgets it; what the
    /// other slots completed stays.
    pub fn take_pending_task_results(&mut self, slot_id: &str) -> (r: Vec<String>)
        ensures
            are_taken(
                old(self).pending_task_results@,
                slot_id@,
                final(self).pending_task_results@,
                texts(r@),
            ),
            texts(r@) == noted(old(self).pending_task_results@, slot_id@),
            noted(final(self).pending_task_results@, slot_id@).len() == 0,
            forall|other: Seq<char>|
                other != slot_id@ ==> #[trigger] noted(final(self).pending_task_results@, other)
                    == noted(old(self).pending_task_results@, other),
            final(self).team_id == old(self).team_id,
            final(self).process == old(self).process,
            final(self).slots == old(self).slots,
            final(self).task_board == old(self).task_board,
    {
        let ghost all = self.pending_task_results@;
        let mut taken: Vec<String> = Vec::new();
        let mut rest: Vec<Completion> = Vec::new();
        let mut i: usize = 0;
        assert(texts(taken@) =~= Seq::<Seq<char>>::empty());
        while i < self.pending_task_results.len()
            invariant
                *self == *old(self),
                all == self.pending_task_results@,
                i <= all.len(),
                texts(taken@) == noted(all.take(i as int), slot_id@),
                noted(rest@, slot_id@).len() == 0,
                forall|other: Seq<char>|
                    other != slot_id@ ==> #[trigger] noted(rest@, other) == noted(
                        all.take(i as int),
                        other,
                    ),
            decreases all.len() - i,
        {
            let note = &self.pending_task_results[i];
            let ghost before = taken@;
            let ghost kept = rest@;
            proof {
                assert(all.take(i + 1).drop_last() =~= all.take(i as int));
                assert(all.take(i + 1).last() == *note);
            }
            if same_text(note.slot_id.as_str(), slot_id) {
                taken.push(note.task_id.clone());
                assert(texts(taken@) =~= texts(before).push(note.task_id@));
            } else {
                rest.push(
                    Completion { slot_id: note.slot_id.clone(), task_id: note.task_id.clone() },
                );
                assert(rest@.drop_last() =~= kept);
            }
            proof {
                assert forall|other: Seq<char>| other != slot_id@ implies #[trigger] noted(
                    rest@,
                    other,
                ) == noted(all.take(i + 1), other) by {
                    assert(noted(kept, other) == noted(all.take(i as int), other));
                }
            }
            i = i + 1;
        }
        assert(all.take(i as int) =~= all);
        self.pending_task_results = rest;
        taken
    }
}

proof fn lemma_new_task_is_not_busy(
    s: Scope,
    rows: Seq<RowView>,
    row: RowView,
    deps: Seq<Seq<char>>,
)
    requires
        one_at_a_time(s, rows),
        visible(s, row),
        row.status == TaskStatus::Pending.text(),
        !id_taken(rows, row.id),
        first_missing(s, rows, deps) is None,
    ensures
        one_at_a_time(s, linked(s, rows.push(row), deps, row.id)),
{
    let after = linked(s, rows.push(row), deps, row.id);
    law_create_stays_in_scope(s, rows, row, deps);
    law_created_task_is_found(s, rows, row, deps);
    lemma_linked_kept(s, rows.push(row), deps, row.id);
    assert forall|i: int, j: int|
        0 <= i < after.len() && 0 <= j < after.len() && busy(s, #[trigger] after[i]) && busy(
            s,
            #[trigger] after[j],
        ) implies after[i].id == after[j].id by {
        if row.status == TaskStatus::InProgress.text() {
            lemma_status_texts_differ(TaskStatus::Pending, TaskStatus::InProgress);
        }
        assert(i < rows.len() && j < rows.len());
        assert(busy(s, rows[i]) && busy(s, rows[j]));
    }
}

/// Where something is in progress that can be read, there is a first such row.
proof fn lemma_first_busy(s: Scope, rows: Seq<RowView>, j: int) -> (i: int)
    requires
        0 <= j < rows.len(),
        busy(s, rows[j]),
        busy_readable(s, rows),
    ensures
        first_in_progress(s, rows, i),
    decreases j,
{
    lemma_in_progress_readable(s, rows[j]);
    if forall|k: int| 0 <= k < j ==> !in_progress(s, #[trigger] rows[k]) {
        j
    } else {
        let k = choose|k: int| 0 <= k < j && in_progress(s, #[trigger] rows[k]);
        lemma_in_progress_busy(s, rows[k]);
        lemma_first_busy(s, rows, k)
    }
}

proof fn lemma_in_progress_readable(s: Scope, row: RowView)
    requires
        busy(s, row),
        readable(row),
    ensures
        in_progress(s, row),
{
}

proof fn lemma_in_progress_busy(s: Scope, row: RowView)
    requires
        in_progress(s, row),
    ensures
        busy(s, row),
{
}

/// A request to change a task names what its arguments name: the status of a text
/// that is one, no status where the text is none, and each other field as it was
/// given. It never names metadata.
pub proof fn law_request_names_what_was_asked(
    status: Option<&str>,
    description: Option<String>,
    owner: Option<String>,
    blocked_by: Option<Vec<String>>,
)
    ensures
        ({
            let u = requested(status, description, owner, blocked_by);
            &&& status is None ==> u.status is None
            &&& status is Some ==> {
                &&& u.status == Some(TaskStatus::Pending) <==> status->0@ == "pending"@
                &&& u.status == Some(TaskStatus::InProgress) <==> status->0@ == "in_progress"@
                &&& u.status == Some(TaskStatus::Completed) <==> status->0@ == "completed"@
                &&& u.status == Some(TaskStatus::Deleted) <==> status->0@ == "deleted"@
            }
            &&& description is Some ==> u.description == Some(description->0@)
            &&& description is None ==> u.description is None
            &&& owner is Some ==> u.owner == Some(owner->0@)
            &&& owner is None ==> u.owner is None
            &&& blocked_by is None ==> u.blocked_by is None
            &&& blocked_by is Some ==> u.blocked_by is Some && u.blocked_by->0.len()
                == blocked_by->0@.len() && forall|k: int|
                0 <= k < blocked_by->0@.len() ==> #[trigger] u.blocked_by->0[k]
                    == blocked_by->0@[k]@
            &&& u.metadata is None
        }),
{
    crate::task::law_statuses_have_their_names(Seq::empty());
    if let Some(t) = status {
        if exists|x: TaskStatus| t@ == #[trigger] x.text() {
            let x = choose|x: TaskStatus| t@ == #[trigger] x.text();
            assert forall|y: TaskStatus| t@ == #[trigger] y.text() implies x == y by {
                lemma_status_texts_differ(x, y);
            }
            assert(t@ == TaskStatus::Pending.text() ==> x == TaskStatus::Pending);
            assert(t@ == TaskStatus::InProgress.text() ==> x == TaskStatus::InProgress);
            assert(t@ == TaskStatus::Completed.text() ==> x == TaskStatus::Completed);
            assert(t@ == TaskStatus::Deleted.text() ==> x == TaskStatus::Deleted);
        } else {
            assert(t@ != TaskStatus::Pending.text());
            assert(t@ != TaskStatus::InProgress.text());
            assert(t@ != TaskStatus::Completed.text());
            assert(t@ != TaskStatus::Deleted.text());
        }
    }
}

/// A start is refused exactly in a team that works on one task at a time, where the
/// first task in progress that the board holds and can read is another one.
pub proof fn law_start_is_refused_while_another_runs(
    m: TeammateManager,
    rows: Seq<RowView>,
    id: Seq<char>,
    status: Option<&str>,
)
    ensures
        m.refuses(rows, id, status) <==> {
            &&& m.process == TaskProcess::Sequential
            &&& status is Some && status->0@ == "in_progress"@
            &&& exists|i: int|
                {
                    &&& 0 <= i < rows.len()
                    &&& held(m.scope(), #[trigger] rows[i])
                    &&& readable(rows[i])
                    &&& rows[i].status == "in_progress"@
                    &&& rows[i].id != id
                    &&& forall|j: int|
                        0 <= j < i && held(m.scope(), #[trigger] rows[j]) && readable(rows[j])
                            ==> rows[j].status != "in_progress"@
                }
        },
{
    let s = m.scope();
    law_request_names_what_was_asked(status, None, None, None);
    assert forall|i: int| 0 <= i < rows.len() implies in_progress(s, #[trigger] rows[i]) == (held(
        s,
        rows[i],
    ) && readable(rows[i]) && rows[i].status == "in_progress"@) by {
        crate::task::law_task_says_what_is_stored(rows[i]);
    }
    assert forall|i: int| 0 <= i < rows.len() implies #[trigger] busy_with(s, rows, id, i) == ({
        &&& held(s, rows[i])
        &&& readable(rows[i])
        &&& rows[i].status == "in_progress"@
        &&& rows[i].id != id
        &&& forall|j: int|
            0 <= j < i && held(s, #[trigger] rows[j]) && readable(rows[j]) ==> rows[j].status
                != "in_progress"@
    }) by {
        if busy_with(s, rows, id, i) {
            assert forall|j: int| 0 <= j < i && held(s, #[trigger] rows[j]) && readable(
                rows[j],
            ) implies rows[j].status != "in_progress"@ by {
                assert(!in_progress(s, rows[j]));
            }
        }
    }
    if exists|i: int| #[trigger] busy_with(s, rows, id, i) {
        let i = choose|i: int| #[trigger] busy_with(s, rows, id, i);
        assert(held(s, rows[i]));
    }
    if exists|i: int|
        {
            &&& 0 <= i < rows.len()
            &&& held(s, #[trigger] rows[i])
            &&& readable(rows[i])
            &&& rows[i].status == "in_progress"@
            &&& rows[i].id != id
            &&& forall|j: int|
                0 <= j < i && held(s, #[trigger] rows[j]) && readable(rows[j]) ==> rows[j].status
                    != "in_progress"@
        } {
        let i = choose|i: int|
            {
                &&& 0 <= i < rows.len()
                &&& held(s, #[trigger] rows[i])
                &&& readable(rows[i])
                &&& rows[i].status == "in_progress"@
                &&& rows[i].id != id
                &&& forall|j: int|
                    0 <= j < i && held(s, #[trigger] rows[j]) && readable(rows[j])
                        ==> rows[j].status != "in_progress"@
            };
        assert(busy_with(s, rows, id, i));
    }
}

/// The task that is next in line is pending and waits on nothing, and none that also
/// is and does was created before it.
pub proof fn law_next_in_line_is_the_oldest(s: Scope, rows: Seq<RowView>, i: int, j: int)
    requires
        oldest_startable(s, rows, i),
        0 <= j < rows.len(),
        held(s, rows[j]),
        readable(rows[j]),
        rows[j].status == "pending"@,
        json_ids(rows[j].blocked_by) == Some(Seq::<Seq<char>>::empty()),
    ensures
        held(s, rows[i]),
        readable(rows[i]),
        json_ids(rows[i].blocked_by) == Some(Seq::<Seq<char>>::empty()),
        rows[i].status != "in_progress"@ && rows[i].status != "completed"@ && rows[i].status
            != "deleted"@,
        rows[i].created_at < rows[j].created_at || (rows[i].created_at == rows[j].created_at && i
            <= j),
{
    crate::task::law_task_says_what_is_stored(rows[i]);
    crate::task::law_task_says_what_is_stored(rows[j]);
    assert(startable(s, rows[j]));
    assert(json_ids(rows[i].blocked_by)->0 =~= Seq::<Seq<char>>::empty());
}

/// The board lists every task that it holds and can read, and no other, in the order
/// in which they are stored.
pub proof fn law_board_lists_what_it_holds(s: Scope, rows: Seq<RowView>)
    ensures
        listed_tasks(s, rows) == rows.filter(
            |r: RowView| held(s, r) && readable(r),
        ).map_values(|r: RowView| task_of(r)),
        forall|i: int|
            0 <= i < rows.len() && held(s, #[trigger] rows[i]) && readable(rows[i])
                ==> listed_tasks(s, rows).contains(task_of(rows[i])),
        forall|k: int|
            0 <= k < listed_tasks(s, rows).len() ==> exists|i: int|
                0 <= i < rows.len() && held(s, #[trigger] rows[i]) && readable(rows[i])
                    && task_of(rows[i]) == #[trigger] listed_tasks(s, rows)[k],
{
    let p = |r: RowView| visible(s, r) && readable(r);
    let q = |r: RowView| held(s, r) && readable(r);
    crate::search::lemma_filter_same(rows, p, q);
    let kept = rows.filter(p);
    assert(listed_tasks(s, rows) =~= rows.filter(q).map_values(|r: RowView| task_of(r)));
    assert forall|i: int| 0 <= i < rows.len() && held(s, #[trigger] rows[i]) && readable(
        rows[i],
    ) implies listed_tasks(s, rows).contains(task_of(rows[i])) by {
        assert(rows.contains(rows[i]));
        lemma_filter_contains(rows, p, rows[i]);
        let k = choose|k: int| 0 <= k < kept.len() && kept[k] == rows[i];
        assert(listed_tasks(s, rows)[k] == task_of(rows[i]));
    }
    assert forall|k: int| 0 <= k < listed_tasks(s, rows).len() implies exists|i: int|
        0 <= i < rows.len() && held(s, #[trigger] rows[i]) && readable(rows[i]) && task_of(rows[i])
            == #[trigger] listed_tasks(s, rows)[k] by {
        assert(kept.contains(kept[k]));
        lemma_filter_contains(rows, p, kept[k]);
        let i = choose|i: int| 0 <= i < rows.len() && rows[i] == kept[k];
        assert(held(s, rows[i]));
    }
}

/// No slot has the id.
#[verifier::opaque]
pub open spec fn no_slot(m: TeammateManager, slot: Seq<char>) -> bool {
    forall|i: int| 0 <= i < m.slots@.len() ==> (#[trigger] m.slots@[i]).slot_id@ != slot
}

/// The slot has the role: it is the first one with that id, and has it.
#[verifier::opaque]
pub open spec fn has_role(m: TeammateManager, slot: Seq<char>, role: TeammateRole) -> bool {
    exists|i: int|
        {
            &&& 0 <= i < m.slots@.len()
            &&& (#[trigger] m.slots@[i]).slot_id@ == slot
            &&& m.slots@[i].role == role
            &&& forall|j: int| 0 <= j < i ==> (#[trigger] m.slots@[j]).slot_id@ != slot
        }
}

proof fn lemma_role_of(slots: Seq<Slot>, slot: Seq<char>)
    ensures
        match role_of(slots, slot) {
            Some(role) => exists|i: int|
                {
                    &&& 0 <= i < slots.len()
                    &&& (#[trigger] slots[i]).slot_id@ == slot
                    &&& slots[i].role == role
                    &&& forall|j: int| 0 <= j < i ==> (#[trigger] slots[j]).slot_id@ != slot
                },
            None => forall|j: int| 0 <= j < slots.len() ==> (#[trigger] slots[j]).slot_id@ != slot,
        },
    decreases slots.len(),
{
    if slots.len() > 0 {
        let rest = slots.drop_first();
        lemma_role_of(rest, slot);
        if slots[0].slot_id@ == slot {
            assert(slots[0].role == role_of(slots, slot)->0);
        } else {
            match role_of(slots, slot) {
                Some(role) => {
                    let i = choose|i: int|
                        {
                            &&& 0 <= i < rest.len()
                            &&& (#[trigger] rest[i]).slot_id@ == slot
                            &&& rest[i].role == role
                            &&& forall|j: int| 0 <= j < i ==> (#[trigger] rest[j]).slot_id@ != slot
                        };
                    assert(slots[i + 1] == rest[i]);
                    assert forall|j: int| 0 <= j < i + 1 implies (#[trigger] slots[j]).slot_id@
                        != slot by {
                        if j > 0 {
                            assert(slots[j] == rest[j - 1]);
                        }
                    }
                },
                None => {
                    assert forall|j: int| 0 <= j < slots.len() implies (#[trigger] slots[j]).slot_id@
                        != slot by {
                        if j > 0 {
                            assert(slots[j] == rest[j - 1]);
                        }
                    }
                },
            }
        }
    }
}

/// The lead, and nobody else, asks a teammate, and nobody else, to stop. The request
/// goes from the one to the other, with the reason that was given.
pub proof fn law_only_the_lead_stops_teammates(
    m: TeammateManager,
    from: Seq<char>,
    target: Seq<char>,
    reason: Option<Seq<char>>,
    r: Result<MailboxWrite, TeamError>,
)
    requires
        shutdown_outcome(m, from, target, reason, r),
    ensures
        r is Ok <==> has_role(m, from, TeammateRole::Lead) && has_role(
            m,
            target,
            TeammateRole::Teammate,
        ),
        r is Ok ==> {
            let w = r->Ok_0;
            &&& w.team_id@ == m.team_id@
            &&& w.to_agent_id@ == target
            &&& w.from_agent_id@ == from
            &&& w.kind == MailboxMessageType::ShutdownRequest
            &&& reason is Some ==> w.content@ == reason->0
            &&& reason is None ==> w.content@ == "shutdown requested"@
            &&& w.summary is None
            &&& opt_text(w.engagement_id) == m.task_board.engagement()
        },
        no_slot(m, from) ==> (r matches Err(TeamError::AgentNotFound(x)) && x@ == from),
        has_role(m, from, TeammateRole::Teammate) ==> (r matches Err(TeamError::InvalidRequest(x))
            && x@ == "only lead can shutdown agents"@),
        has_role(m, from, TeammateRole::Lead) && has_role(m, target, TeammateRole::Lead) ==> (
        r matches Err(TeamError::InvalidRequest(x)) && x@ == "cannot shutdown the team lead"@),
        has_role(m, from, TeammateRole::Lead) && no_slot(m, target) ==> (r matches Err(TeamError::AgentNotFound(x)) && x@ == target),
{
    lemma_has_role(m, from);
    lemma_has_role(m, target);
    if let Some(role) = role_of(m.slots@, from) {
        assert(role == TeammateRole::Lead || role == TeammateRole::Teammate);
    }
    if let Some(role) = role_of(m.slots@, target) {
        assert(role == TeammateRole::Lead || role == TeammateRole::Teammate);
    }
}

proof fn lemma_has_role(m: TeammateManager, slot: Seq<char>)
    ensures
        has_role(m, slot, TeammateRole::Lead) <==> role_of(m.slots@, slot) == Some(
            TeammateRole::Lead,
        ),
        has_role(m, slot, TeammateRole::Teammate) <==> role_of(m.slots@, slot) == Some(
            TeammateRole::Teammate,
        ),
        role_of(m.slots@, slot) is None <==> no_slot(m, slot),
{
    reveal(has_role);
    reveal(no_slot);
    lemma_role_of(m.slots@, slot);
    assert forall|role: TeammateRole| #[trigger] has_role(m, slot, role) implies role_of(
        m.slots@,
        slot,
    ) == Some(role) by {
        let i = choose|i: int|
            {
                &&& 0 <= i < m.slots@.len()
                &&& (#[trigger] m.slots@[i]).slot_id@ == slot
                &&& m.slots@[i].role == role
                &&& forall|j: int| 0 <= j < i ==> (#[trigger] m.slots@[j]).slot_id@ != slot
            };
        if let Some(found) = role_of(m.slots@, slot) {
            let k = choose|k: int|
                {
                    &&& 0 <= k < m.slots@.len()
                    &&& (#[trigger] m.slots@[k]).slot_id@ == slot
                    &&& m.slots@[k].role == found
                    &&& forall|j: int| 0 <= j < k ==> (#[trigger] m.slots@[j]).slot_id@ != slot
                };
            if i < k {
                assert(m.slots@[i].slot_id@ != slot);
            } else if k < i {
                assert(m.slots@[k].slot_id@ != slot);
            }
        } else {
            assert(m.slots@[i].slot_id@ != slot);
        }
    }
    if let Some(found) = role_of(m.slots@, slot) {
        assert(has_role(m, slot, found));
    }
}

/// What a slot completed is what was noted for it, in the order of the notes.
pub proof fn law_notes_keep_their_order(notes: Seq<Completion>, slot: Seq<char>)
    ensures
        noted(notes, slot) == notes.filter(|c: Completion| c.slot_id@ == slot).map_values(
            |c: Completion| c.task_id@,
        ),
    decreases notes.len(),
{
    reveal(Seq::filter);
    let p = |c: Completion| c.slot_id@ == slot;
    let f = |c: Completion| c.task_id@;
    if notes.len() > 0 {
        let front = notes.drop_last();
        law_notes_keep_their_order(front, slot);
        assert(front.filter(p).push(notes.last()).map_values(f) =~= front.filter(p).map_values(
            f,
        ).push(f(notes.last())));
    }
    assert(noted(notes, slot) =~= notes.filter(p).map_values(f));
}

/// One task at a time means that no two tasks of the board are in progress.
pub proof fn law_one_at_a_time_is_one_in_progress(s: Scope, rows: Seq<RowView>, id: Seq<char>)
    ensures
        one_at_a_time(s, rows) <==> forall|i: int, j: int|
            0 <= i < rows.len() && 0 <= j < rows.len() && held(s, #[trigger] rows[i]) && held(
                s,
                #[trigger] rows[j],
            ) && rows[i].status == "in_progress"@ && rows[j].status == "in_progress"@
                ==> rows[i].id == rows[j].id,
        another_is_busy(s, rows, id) <==> exists|i: int|
            0 <= i < rows.len() && held(s, #[trigger] rows[i]) && rows[i].status == "in_progress"@
                && rows[i].id != id,
{
    assert forall|i: int| 0 <= i < rows.len() implies busy(s, #[trigger] rows[i]) == (held(
        s,
        rows[i],
    ) && rows[i].status == "in_progress"@) by {}
    if another_is_busy(s, rows, id) {
        let i = choose|i: int| 0 <= i < rows.len() && busy(s, #[trigger] rows[i]) && rows[i].id != id;
        assert(held(s, rows[i]));
    }
    if exists|i: int|
        0 <= i < rows.len() && held(s, #[trigger] rows[i]) && rows[i].status == "in_progress"@
            && rows[i].id != id {
        let i = choose|i: int|
            0 <= i < rows.len() && held(s, #[trigger] rows[i]) && rows[i].status == "in_progress"@
                && rows[i].id != id;
        assert(busy(s, rows[i]));
    }
}

/// The slot has one more note, the last; every other slot has its notes of before.
pub open spec fn is_noted(
    before: Seq<Completion>,
    slot: Seq<char>,
    task: Seq<char>,
    after: Seq<Completion>,
) -> bool {
    &&& noted(after, slot) == noted(before, slot).push(task)
    &&& forall|other: Seq<char>|
        other != slot ==> #[trigger] noted(after, other) == noted(before, other)
}

/// The notes of the slot are handed out and gone; every other slot has its notes of
/// before.
pub open spec fn are_taken(
    before: Seq<Completion>,
    slot: Seq<char>,
    after: Seq<Completion>,
    r: Seq<Seq<char>>,
) -> bool {
    &&& r == noted(before, slot)
    &&& noted(after, slot).len() == 0
    &&& forall|other: Seq<char>|
        other != slot ==> #[trigger] noted(after, other) == noted(before, other)
}

/// What was noted for a slot is handed out once, in the order in which it was noted, and
/// to that slot alone: a second taking finds nothing, and what others noted waits for
/// them.
pub proof fn law_notes_are_taken_once(
    before: Seq<Completion>,
    slot: Seq<char>,
    task: Seq<char>,
    noted_now: Seq<Completion>,
    taken: Seq<Completion>,
    r: Seq<Seq<char>>,
    left: Seq<Completion>,
    again: Seq<Seq<char>>,
    other: Seq<char>,
)
    requires
        is_noted(before, slot, task, noted_now),
        are_taken(noted_now, slot, taken, r),
        are_taken(taken, slot, left, again),
        other != slot,
    ensures
        r == before.filter(|c: Completion| c.slot_id@ == slot).map_values(
            |c: Completion| c.task_id@,
        ).push(task),
        again.len() == 0,
        noted(left, other) == before.filter(|c: Completion| c.slot_id@ == other).map_values(
            |c: Completion| c.task_id@,
        ),
{
    law_notes_keep_their_order(before, slot);
    law_notes_keep_their_order(before, other);
    assert(noted(taken, other) == noted(noted_now, other));
    assert(noted(left, other) == noted(taken, other));
    assert(noted(noted_now, other) == noted(before, other));
}

} // verus!
