//! Binding a team to projects, and the members of its engagements.
use std::collections::HashSet;

use aionui_team::engagements::EngagementRow;
use aionui_team::membership::{
    ensure_engagement_members, find_or_create_engagement, missing_members, FreshEngagement,
    MintedMember,
};
use aionui_team::roster::{EngagementMember, TeamAgent};
use aionui_team::scheduler::{Slot, TaskProcess, TeammateManager, TeammateRole};
use aionui_team::sessions::TeamSessionService;
use aionui_team::task::TeamTask;
use aionui_team::task_board::{TaskBoard, TaskStore};
use aionui_team::teams::{engagement_key, new_team, Team};

fn agent(slot: &str, role: TeammateRole) -> TeamAgent {
    TeamAgent {
        slot_id: slot.to_string(),
        name: slot.to_string(),
        role,
        conversation_id: format!("conv-{slot}"),
        backend: "acp".to_string(),
        model: "m1".to_string(),
        assistant_id: None,
        status: None,
        conversation_type: None,
        cli_path: None,
    }
}

fn template() -> Vec<TeamAgent> {
    vec![agent("lead", TeammateRole::Lead), agent("worker", TeammateRole::Teammate)]
}

/// A store of engagements and their members, with ids of its own making.
struct Store {
    rows: Vec<EngagementRow>,
    members: Vec<EngagementMember>,
    next: usize,
}

impl Store {
    fn new() -> Store {
        Store { rows: Vec::new(), members: Vec::new(), next: 0 }
    }

    fn mint(&mut self, kind: &str) -> String {
        self.next += 1;
        format!("{kind}-{}", self.next)
    }

    fn engage(&mut self, team: &str, project: &str, workspace: &str) -> EngagementRow {
        let fresh = FreshEngagement {
            id: self.mint("engagement"),
            process: "hierarchical".to_string(),
            status: "active".to_string(),
        };
        find_or_create_engagement(&mut self.rows, team, project, workspace, &fresh)
    }

    fn ensure_members(&mut self, template: &[TeamAgent], engagement: &str) {
        let count = missing_members(template, &self.members, engagement).len();
        let minted: Vec<MintedMember> = (0..count)
            .map(|_| MintedMember {
                slot_id: self.mint("slot"),
                conversation_id: self.mint("conversation"),
            })
            .collect();
        ensure_engagement_members(&mut self.members, template, engagement, &minted);
    }

    fn ensure(&mut self, team: &Team, project: &str, workspace: &str) -> EngagementRow {
        let target =
            TeamSessionService::ensure_engagement(Some(team), &team.user_id, &team.id, project)
                .unwrap();
        let row = self.engage(&team.id, &target.project_id, workspace);
        self.ensure_members(&team.agents, &row.id);
        row
    }

    fn members_of(&self, engagement: &str) -> Vec<&EngagementMember> {
        self.members.iter().filter(|m| m.engagement_id == engagement).collect()
    }
}

fn team(user: &str) -> Team {
    new_team("team-1", user, "Isolated", "/tmp/team", template(), None, None, None, 1)
}

fn conversations(members: &[&EngagementMember]) -> HashSet<String> {
    members.iter().map(|m| m.conversation_id.clone()).collect()
}

fn slots(members: &[&EngagementMember]) -> HashSet<String> {
    members.iter().map(|m| m.slot_id.clone()).collect()
}

fn covered(members: &[&EngagementMember]) -> HashSet<String> {
    members.iter().map(|m| m.template_slot.clone()).collect()
}

#[test]
fn create_is_find_or_create_and_mints_distinct_per_project() {
    let mut store = Store::new();
    let team = team("user-api-create");
    let first = store.ensure(&team, "p1", "/tmp/p1");
    let members = store.members.clone();
    let again = store.ensure(&team, "p1", "/tmp/moved");
    assert_eq!(store.members.len(), members.len(), "nobody joins twice");
    let second_project = store.ensure(&team, "p2", "/tmp/p2");
    assert_eq!(first.id, again.id, "same (team, project) reuses one engagement");
    assert_ne!(first.id, second_project.id, "a different project mints a different engagement");
    assert_eq!(again.project_id, "p1");
    assert_eq!(again.team_id, team.id);
    assert_eq!(again.workspace, "/tmp/p1", "a found engagement keeps its workspace");
    assert!(
        !store.members_of(&first.id).is_empty(),
        "ensure_engagement materializes the engagement's members"
    );
    let list = TeamSessionService::list_engagements_for_team(
        Some(&team),
        &store.rows,
        "user-api-create",
        &team.id,
    )
    .unwrap();
    let for_p1 = list.iter().filter(|e| e.project_id == "p1").count();
    assert_eq!(for_p1, 1, "no duplicate engagement for the same project");
}

#[test]
fn two_concurrent_engagements_own_disjoint_workspace_bound_members() {
    let mut store = Store::new();
    let team = team("user-t5-iso");
    let eng1 = store.ensure(&team, "p1", "/tmp/p1");
    let eng2 = store.ensure(&team, "p2", "/tmp/p2");
    assert_ne!(eng1.id, eng2.id, "two projects mint two engagements");
    assert_ne!(eng1.id, team.id);
    assert_ne!(eng2.id, team.id);
    assert_eq!(eng1.workspace, "/tmp/p1", "engagement 1 is bound to P1's folder");
    assert_eq!(eng2.workspace, "/tmp/p2", "engagement 2 is bound to P2's folder");
    let members1 = store.members_of(&eng1.id);
    let members2 = store.members_of(&eng2.id);
    assert_eq!(members1.len(), 2, "both template slots materialized for P1");
    assert_eq!(members2.len(), 2, "both template slots materialized for P2");
    let template_slots: HashSet<String> = team.agents.iter().map(|a| a.slot_id.clone()).collect();
    assert_eq!(covered(&members1), template_slots, "engagement 1 covers exactly the template slots");
    assert_eq!(covered(&members2), template_slots, "engagement 2 covers exactly the template slots");
    assert!(conversations(&members1).is_disjoint(&conversations(&members2)));
    assert!(
        slots(&members1).is_disjoint(&slots(&members2)),
        "no runtime slot id is shared across engagements"
    );
    let shared: HashSet<String> = team.agents.iter().map(|a| a.conversation_id.clone()).collect();
    assert!(
        conversations(&members1).is_disjoint(&shared)
            && conversations(&members2).is_disjoint(&shared),
        "an engagement never reuses the shared template conversations"
    );
    let roles: Vec<&str> = members1.iter().map(|m| m.role.as_str()).collect();
    assert_eq!(roles, ["lead", "teammate"]);
}

#[test]
fn template_edit_does_not_retroactively_alter_a_running_engagement() {
    let mut store = Store::new();
    let mut team = team("user-t5-tpl");
    let eng1 = store.ensure(&team, "p1", "/tmp/p1");
    let eng2 = store.ensure(&team, "p2", "/tmp/p2");
    let before = conversations(&store.members_of(&eng1.id));
    assert_eq!(before.len(), 2);
    team.agents.push(agent("Bot3", TeammateRole::Teammate));
    store.ensure_members(&team.agents, &eng2.id);
    let members1 = store.members_of(&eng1.id);
    assert_eq!(members1.len(), 2, "template edit must not add a member to P1");
    assert_eq!(conversations(&members1), before, "P1's existing member conversations are the same rows");
    let members2 = store.members_of(&eng2.id);
    assert_eq!(members2.len(), 3, "the active engagement materializes the new member");
    let added = members2.iter().find(|m| m.template_slot == "Bot3").unwrap();
    assert!(
        members1.iter().all(|m| m.slot_id != added.slot_id),
        "the newly added runtime member must NOT exist in the untouched engagement"
    );
    let eng3 = store.ensure(&team, "p3", "/tmp/p3");
    let members3 = store.members_of(&eng3.id);
    assert_eq!(members3.len(), 3, "a new engagement sees the edited template");
    assert!(members3.iter().any(|m| m.template_slot == "Bot3"), "P3 materializes the new template slot");
    assert!(
        conversations(&members3).is_disjoint(&conversations(&store.members_of(&eng1.id))),
        "P3's member conversations are fresh, never P1's"
    );
}

fn scheduler(team: &str, engagement: &str) -> TeammateManager {
    TeammateManager {
        team_id: team.to_string(),
        process: TaskProcess::Hierarchical,
        slots: vec![Slot { slot_id: "lead-1".to_string(), role: TeammateRole::Lead }],
        task_board: TaskBoard::new_for_user("u1").with_engagement(engagement),
        pending_task_results: Vec::new(),
    }
}

fn task_ids(tasks: &[TeamTask]) -> Vec<&str> {
    tasks.iter().map(|t| t.id.as_str()).collect()
}

#[test]
fn two_projects_key_to_distinct_engagements() {
    let mut store = Store::new();
    let eng_a = store.engage("team-m", "proj-a", "/tmp/a").id;
    let eng_b = store.engage("team-m", "proj-b", "/tmp/b").id;
    assert_ne!(eng_a, eng_b);
    let domain = |project: &str| {
        let project = Some(project.to_string());
        new_team("team-m", "u1", "team-m", "", Vec::new(), None, project, None, 1)
    };
    let key_a = engagement_key(&domain("proj-a"), &store.engage("team-m", "proj-a", "").id);
    let key_b = engagement_key(&domain("proj-b"), &store.engage("team-m", "proj-b", "").id);
    assert_eq!(key_a, eng_a);
    assert_eq!(key_b, eng_b);
    assert_ne!(key_a, key_b);
    let mut tasks = TaskStore::new(Vec::new());
    let (sess_a, sess_b) = (scheduler("team-m", &key_a), scheduler("team-m", &key_b));
    let task_a = sess_a.create_task(&mut tasks, "task-a", 1, "A task", None, None, &[], None).unwrap();
    let task_b = sess_b.create_task(&mut tasks, "task-b", 2, "B task", None, None, &[], None).unwrap();
    let tasks_a = sess_a.task_board.list_tasks(&tasks, "team-m");
    let tasks_b = sess_b.task_board.list_tasks(&tasks, "team-m");
    assert_eq!(task_ids(&tasks_a), vec![task_a.id.as_str()]);
    assert_eq!(task_ids(&tasks_b), vec![task_b.id.as_str()]);
}
