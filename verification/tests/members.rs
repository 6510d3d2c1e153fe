//! Teams, their rosters, their engagements and their options.
use aionui_team::config::{
    global_mode_roster, mode_seeds, no_team_context, resolve_message_attachments, team_context,
    tool_team, Attachments, ConfigOption, TeamBinding, TeamToolErrorCode, TeamToolTransport,
};
use aionui_team::engagements::EngagementRow;
use aionui_team::error::TeamError;
use aionui_team::models::{reconcile_legacy_team_models, ModelFacts};
use aionui_team::roster::{
    added_runtime_agent, find_lead, kill_list, persist_member_model_selection,
    resolve_runtime_agent, EngagementMember, MemberKey, ModelPersistTrigger, TeamAgent,
};
use aionui_team::scheduler::{
    MailboxMessageType, Slot, TaskProcess, TeammateManager, TeammateRole,
};
use aionui_team::service::agents_with_assistant;
use aionui_team::sessions::TeamSessionService;
use aionui_team::task_board::TaskBoard;
use aionui_team::team_removal::TeamRemovalStep;
use aionui_team::teams::{
    engagement_key, needs_binding, new_team, resolve_project_workspace, ProjectEntry, Team,
    WorkspaceChoice,
};

fn agent(slot: &str, role: TeammateRole) -> TeamAgent {
    TeamAgent {
        slot_id: slot.to_string(),
        name: format!("Name {slot}"),
        role,
        conversation_id: format!("conv-{slot}"),
        backend: "acp".to_string(),
        model: "m1".to_string(),
        assistant_id: Some(format!("assistant-{slot}")),
        status: None,
        conversation_type: None,
        cli_path: None,
    }
}

fn template() -> Vec<TeamAgent> {
    vec![agent("lead", TeammateRole::Lead), agent("worker", TeammateRole::Teammate)]
}

fn member(slot: &str, template: &str) -> EngagementMember {
    EngagementMember {
        engagement_id: "e".to_string(),
        slot_id: slot.to_string(),
        template_slot: template.to_string(),
        role: "teammate".to_string(),
        conversation_id: format!("conv-{slot}"),
    }
}

fn strings(v: &[&str]) -> Vec<String> {
    v.iter().map(|s| s.to_string()).collect()
}

fn team(project: Option<&str>) -> Team {
    new_team("t", "u", "T", "/ws", template(), None, project.map(str::to_string), None, 3)
}

#[test]
fn members_decide_and_the_template_does_not_step_in() {
    let agents = template();
    let members = [member("rt-1", "worker")];
    let (a, m) =
        resolve_runtime_agent(&agents, Some(&members), MemberKey::Slot, "rt-1").unwrap();
    assert_eq!((a.slot_id.as_str(), a.conversation_id.as_str()), ("rt-1", "conv-rt-1"));
    assert_eq!(a.name, "Name worker");
    assert_eq!(m.unwrap().template_slot, "worker");
    let e = resolve_runtime_agent(&agents, Some(&members), MemberKey::Slot, "worker");
    assert!(matches!(e, Err(TeamError::AgentNotFound(ref x)) if x == "worker"));
    let (a, _) =
        resolve_runtime_agent(&agents, Some(&members), MemberKey::Conversation, "conv-rt-1").unwrap();
    assert_eq!(a.slot_id, "rt-1");
    let orphan = [member("rt-2", "gone")];
    let e = resolve_runtime_agent(&agents, Some(&orphan), MemberKey::Slot, "rt-2");
    assert!(matches!(e, Err(TeamError::AgentNotFound(ref x)) if x == "gone"));
}

#[test]
fn management_ops_fall_back_to_template_for_no_project_team() {
    let agents = template();
    for members in [None, Some(&[] as &[EngagementMember])] {
        let (a, m) = resolve_runtime_agent(&agents, members, MemberKey::Slot, "worker").unwrap();
        assert_eq!(a.conversation_id, "conv-worker");
        assert!(m.is_none());
        let e = resolve_runtime_agent(&agents, members, MemberKey::Conversation, "nope");
        assert!(matches!(e, Err(TeamError::AgentNotFound(ref x)) if x == "nope"));
    }
}

#[test]
fn an_added_agent_runs_as_the_member_made_from_it() {
    let a = agent("new", TeammateRole::Teammate);
    let r = added_runtime_agent(&a, &[member("rt-9", "other"), member("rt-8", "new")]);
    assert_eq!((r.slot_id.as_str(), r.conversation_id.as_str()), ("rt-8", "conv-rt-8"));
    assert_eq!(added_runtime_agent(&a, &[]).slot_id, "new");
}

#[test]
fn rename_agent_resolves_runtime_slot_from_active_engagement() {
    let team = team(None);
    let members = [member("rt-1", "worker")];
    let names = strings(&["name lead", "name worker"]);
    let rename = |user: &str, slot: &str, name: &str, normalized: &str| {
        TeamSessionService::rename_agent(
            Some(&team), user, "t", Some(&members), slot, name, normalized, &names,
        )
    };
    let agents = rename("u", "rt-1", "Renamed Bot", "renamed bot").unwrap();
    assert_eq!(agents[1].name, "Renamed Bot");
    assert_eq!(agents[0].name, "Name lead");
    let e = rename("u", "rt-1", "Name Lead", "name lead");
    assert!(matches!(e, Err(TeamError::DuplicateAgentName(ref x)) if x == "Name Lead"));
    let e = rename("u", "rt-1", " ", "");
    assert!(matches!(e, Err(TeamError::InvalidRequest(ref x))
        if x == "rename_agent.name is empty after normalization"));
    let e = rename("u", "x", "a", "a");
    assert!(matches!(e, Err(TeamError::AgentNotFound(ref x)) if x == "x"));
    // An agent may keep its own name.
    rename("u", "rt-1", "Name Worker", "name worker").unwrap();
    let e = rename("other-user", "rt-1", "Renamed Bot", "renamed bot");
    assert!(matches!(e, Err(TeamError::TeamNotFound(ref x)) if x == "t"));
}

#[test]
fn update_agent_model_persists_to_active_engagement_member_conversation() {
    let team = team(None);
    let members = [member("rt-1", "worker")];
    let update = |user: &str, model: &str| {
        TeamSessionService::update_agent_model(
            Some(&team), user, "t", Some(&members), "rt-1", model, &[],
        )
    };
    let stored = update("u", "gpt-5.6-sol").unwrap();
    assert_eq!(stored.conversation_id, "conv-rt-1");
    assert_eq!(stored.agents[1].model, "gpt-5.6-sol");
    let stored = update("u", " m2 ").unwrap();
    assert_eq!(stored.agents[1].model, "m2");
    assert_eq!(stored.agents[0].model, "m1");
    for user in ["u", "other-user"] {
        let e = update(user, " \n");
        assert!(matches!(e, Err(TeamError::InvalidRequest(ref x)) if x == "model must not be empty"));
    }
    let e = update("other-user", "m2");
    assert!(matches!(e, Err(TeamError::TeamNotFound(ref x)) if x == "t"));
}

#[test]
fn starting_member_blocks_only_its_config_and_model_updates() {
    let team = team(None);
    let starting = strings(&["worker"]);
    let options = [option("model", None), option("mode", None)];
    let set = |conversation: &str, id: &str, value: &str| {
        TeamSessionService::set_conversation_config_option(
            Some(&team), "u", "t", None, conversation, &options, id, value, None, &starting,
        )
    };
    let model =
        set("conv-lead", "model", "ready-slot-model").expect("a Ready slot remains configurable");
    assert_eq!(model.as_deref(), Some("ready-slot-model"));
    let e = set("conv-lead", "mode", "full_auto");
    assert!(matches!(e, Err(TeamError::MemberRuntimeStarting { ref slot_id, .. }) if slot_id == "worker"));
    let e = set("conv-worker", "model", "blocked-model");
    assert!(matches!(e, Err(TeamError::MemberRuntimeStarting { ref slot_id, .. }) if slot_id == "worker"));
    let update = |slot: &str, model: &str| {
        TeamSessionService::update_agent_model(
            Some(&team), "u", "t", None, slot, model, &starting,
        )
    };
    let e = update("worker", "blocked-model");
    assert!(matches!(e, Err(TeamError::MemberRuntimeStarting { ref slot_id, .. }) if slot_id == "worker"));
    let stored = update("lead", "m2").unwrap();
    assert_eq!((stored.agents[0].model.as_str(), stored.agents[1].model.as_str()), ("m2", "m1"));
    let confirm = |user: &str| {
        persist_member_model_selection(
            Some(&team),
            user,
            "t",
            None,
            "worker",
            "m3",
            ModelPersistTrigger::RuntimeConfirmed,
            &starting,
        )
    };
    assert_eq!(confirm("u").unwrap().agents[1].model, "m3");
    assert!(matches!(confirm("other-user"), Err(TeamError::TeamNotFound(ref x)) if x == "t"));
    let e = options_of(&team, "u", "conv-worker", &starting);
    assert!(matches!(e, Err(TeamError::MemberRuntimeStarting { .. })));
    assert_eq!(options_of(&team, "u", "conv-lead", &starting).unwrap().slot_id, "lead");
}

fn options_of(
    team: &Team,
    user: &str,
    conversation: &str,
    starting: &[String],
) -> Result<TeamAgent, TeamError> {
    TeamSessionService::get_conversation_config_options(
        Some(team), user, "t", None, conversation, starting,
    )
}

#[test]
fn triggers_have_their_names() {
    assert_eq!(ModelPersistTrigger::ExplicitRequest.as_str(), "explicit_request");
    assert_eq!(ModelPersistTrigger::RuntimeConfirmed.as_str(), "runtime_confirmed");
}

#[test]
fn config_options_reject_non_member_conversation() {
    let e = options_of(&team(None), "u", "other-conversation", &[]);
    assert!(matches!(e, Err(TeamError::AgentNotFound(ref c)) if c == "other-conversation"));
}

#[test]
fn config_options_reject_cross_user_access() {
    let lead = vec![agent("lead", TeammateRole::Lead)];
    let team = new_team("t", "user-test", "Team Config Owner", "", lead, None, None, None, 1);
    let e = options_of(&team, "other-user", "conv-lead", &[]);
    assert!(matches!(e, Err(TeamError::TeamNotFound(_))));
    let e = TeamSessionService::set_conversation_config_option(
        Some(&team), "other-user", "t", None, "conv-lead", &[], "model", "m2", None, &[],
    );
    assert!(matches!(e, Err(TeamError::TeamNotFound(_))));
    assert_eq!(options_of(&team, "user-test", "conv-lead", &[]).unwrap().slot_id, "lead");
}

fn option(id: &str, category: Option<&str>) -> ConfigOption {
    ConfigOption { id: id.to_string(), category: category.map(str::to_string) }
}

#[test]
fn a_mode_of_the_lead_waits_for_every_member() {
    let team = team(None);
    let options = [option("perm", Some("mode")), option("model", None), option("other", None)];
    let starting = strings(&["worker"]);
    let set = |conversation: &str, id: &str, value: &str, starting: &[String]| {
        TeamSessionService::set_conversation_config_option(
            Some(&team), "u", "t", None, conversation, &options, id, value, None, starting,
        )
    };
    let e = set("conv-lead", "perm", "x", &starting);
    assert!(matches!(e, Err(TeamError::MemberRuntimeStarting { ref slot_id, .. }) if slot_id == "worker"));
    assert_eq!(set("conv-lead", "perm", "x", &[]).unwrap(), None);
    // A member that is starting takes no option of its own.
    let e = set("conv-worker", "other", "x", &starting);
    assert!(matches!(e, Err(TeamError::MemberRuntimeStarting { ref slot_id, .. }) if slot_id == "worker"));
    assert_eq!(set("conv-worker", "perm", "x", &[]).unwrap(), None);
    assert_eq!(set("conv-lead", "model", " m9 ", &starting).unwrap().as_deref(), Some("m9"));
    assert_eq!(set("conv-lead", "model", "  ", &starting).unwrap(), None);
    assert_eq!(set("conv-lead", "other", "m9", &[]).unwrap(), None);
    let e = set("conv-other", "perm", "x", &[]);
    assert!(matches!(e, Err(TeamError::AgentNotFound(ref x)) if x == "conv-other"));
}

#[test]
fn session_mode_update_is_rejected_before_persistence_when_any_member_is_starting() {
    let team = team(None);
    let set = |user: &str, starting: &[String]| {
        TeamSessionService::set_session_mode(Some(&team), user, "t", None, starting)
    };
    match set("u", &strings(&["worker"])) {
        Err(TeamError::MemberRuntimeStarting { team_id, slot_id, conversation_id }) => {
            assert_eq!((team_id.as_str(), slot_id.as_str()), ("t", "worker"));
            assert_eq!(conversation_id, "conv-worker");
        }
        other => panic!("expected MemberRuntimeStarting, got {other:?}"),
    }
    assert!(set("u", &[]).is_ok());
    assert!(matches!(set("other-user", &[]), Err(TeamError::TeamNotFound(ref x)) if x == "t"));
}

#[test]
fn set_session_mode_refuses_while_engagement_member_runtime_is_starting() {
    let team = team(Some("proj-a"));
    let live = [agent("rt-lead", TeammateRole::Lead), agent("rt-worker", TeammateRole::Teammate)];
    let set = |live: Option<&[TeamAgent]>| {
        TeamSessionService::set_session_mode(Some(&team), "u", "t", live, &strings(&["rt-worker"]))
    };
    let e = set(Some(&live));
    assert!(
        matches!(e, Err(TeamError::MemberRuntimeStarting { ref slot_id, .. }) if slot_id == "rt-worker"),
        "the refusal must name the slot of the engagement, got {e:?}"
    );
    // The agents that the team stores have other slots.
    assert!(set(None).is_ok());
    let slots = |roster: &[TeamAgent]| -> Vec<String> {
        roster.iter().map(|a| a.slot_id.clone()).collect()
    };
    assert_eq!(slots(global_mode_roster(Some(&live), &team.agents)), ["rt-lead", "rt-worker"]);
    assert_eq!(slots(global_mode_roster(None, &team.agents)), ["lead", "worker"]);
}

#[test]
fn set_session_mode_does_not_persist_agent_seed_when_active_runtime_rejects_mode() {
    let roster = || {
        let mut accepts = agent("slot-accepts", TeammateRole::Lead);
        accepts.conversation_id = "conv-accepts".to_string();
        let mut rejects = agent("slot-rejects", TeammateRole::Teammate);
        rejects.conversation_id = "conv-rejects".to_string();
        vec![accepts, rejects]
    };
    let agents = roster();
    let team = new_team("t", "u", "T", "", roster(), None, None, None, 1);
    TeamSessionService::set_session_mode(Some(&team), "u", "t", Some(&agents), &[]).unwrap();
    assert_eq!(mode_seeds(&agents, &[Some(true), Some(false)]), ["conv-accepts"]);
}

#[test]
fn a_mode_is_stored_for_members_without_a_runtime() {
    assert_eq!(mode_seeds(&template(), &[None, Some(true)]), ["conv-lead", "conv-worker"]);
    assert!(mode_seeds(&[], &[]).is_empty());
}

#[test]
fn kill_list_keeps_template_order_and_appends_the_rest_once() {
    let live = strings(&["conv-worker", "rt-1", "conv-lead", "rt-1", "rt-2"]);
    assert_eq!(kill_list(&template(), &live), ["conv-lead", "conv-worker", "rt-1", "rt-2"]);
    assert_eq!(kill_list(&[], &[]), Vec::<String>::new());
}

#[test]
fn leases_skip_blank_conversations() {
    let mut team = team(None);
    team.agents[1].conversation_id = " ".to_string();
    let ids = TeamSessionService::renew_active_lease(Some(&team), "u", "t").unwrap();
    assert_eq!(ids, ["conv-lead"]);
    let e = TeamSessionService::renew_active_lease(Some(&team), "x", "t");
    assert!(matches!(e, Err(TeamError::TeamNotFound(_))));
}

#[test]
fn the_first_lead_leads() {
    assert_eq!(find_lead(&template()).unwrap().slot_id, "lead");
    assert!(find_lead(&[agent("w", TeammateRole::Teammate)]).is_none());
}

#[test]
fn assistants_are_found_in_the_roster() {
    let found = agents_with_assistant(&template(), "assistant-worker");
    assert_eq!(found.len(), 1);
    assert_eq!(found[0].slot_id, "worker");
}

#[test]
fn models_are_brought_in_line() {
    let facts = |confirmed: Option<&str>, seed: Option<&str>| ModelFacts {
        confirmed_model_id: confirmed.map(str::to_string),
        runtime_seed_model_id: seed.map(str::to_string),
    };
    let mut agents = template();
    agents.push(agent("third", TeammateRole::Teammate));
    agents.push(agent("fourth", TeammateRole::Teammate));
    let r = reconcile_legacy_team_models(
        &mut agents,
        &[
            facts(Some(" m2 "), Some("m2")),
            facts(Some("m1"), None),
            facts(Some("  "), Some("m9")),
            facts(Some("m1"), Some("m1")),
        ],
    );
    let models: Vec<&str> = agents.iter().map(|a| a.model.as_str()).collect();
    assert_eq!(models, ["m2", "m1", "m1", "m1"]);
    assert!(r.roster_changed);
    assert_eq!(r.seeds.len(), 1);
    assert_eq!((r.seeds[0].id.as_str(), r.seeds[0].model.as_str()), ("conv-worker", "m1"));
    let slots: Vec<&str> = r.repaired.iter().map(|f| f.id.as_str()).collect();
    assert_eq!(slots, ["lead", "worker"]);
    let again = reconcile_legacy_team_models(
        &mut agents,
        &[facts(Some("m2"), Some("m2")), facts(None, None), facts(None, None), facts(None, None)],
    );
    assert!(!again.roster_changed && again.repaired.is_empty());
}

#[test]
fn repairing_again_changes_nothing() {
    let facts = |confirmed: &str, seed: Option<&str>| ModelFacts {
        confirmed_model_id: Some(confirmed.to_string()),
        runtime_seed_model_id: seed.map(str::to_string),
    };
    let mut agents = template();
    let r = reconcile_legacy_team_models(&mut agents, &[facts(" m2 ", None), facts("m1", Some("m0"))]);
    let seeds: Vec<(&str, &str)> =
        r.seeds.iter().map(|s| (s.id.as_str(), s.model.as_str())).collect();
    assert_eq!(seeds, [("conv-lead", "m2"), ("conv-worker", "m1")]);
    // With those seeds stored, a second repair has nothing to do.
    let again = reconcile_legacy_team_models(
        &mut agents,
        &[facts(" m2 ", Some("m2")), facts("m1", Some("m1"))],
    );
    assert!(!again.roster_changed && again.seeds.is_empty() && again.repaired.is_empty());
    let models: Vec<&str> = agents.iter().map(|a| a.model.as_str()).collect();
    assert_eq!(models, ["m2", "m1"]);
}

#[test]
fn create_team_checks_its_request() {
    let none = |n: usize| -> Vec<Option<String>> { vec![None; n] };
    let e = TeamSessionService::create_team(&none(0), None, None);
    assert!(matches!(e, Err(TeamError::InvalidRequest(ref x)) if x == "at least one agent is required"));
    let ids = vec![None, Some("conv".to_string())];
    let e = TeamSessionService::create_team(&ids, None, None);
    assert!(matches!(e, Err(TeamError::InvalidRequest(ref x))
        if x == "creating Team agents from existing conversations are no longer supported; omit agents[].conversation_id"));
    let blank = vec![Some(" ".to_string())];
    let c = TeamSessionService::create_team(&blank, Some("p"), Some("/w")).unwrap();
    assert!(matches!(c, WorkspaceChoice::Project(ref p) if p == "p"));
    assert_eq!(c.as_str(), "project_derived");
    let c = TeamSessionService::create_team(&none(1), None, Some("/w")).unwrap();
    assert!(matches!(c, WorkspaceChoice::Path(ref p) if p == "/w"));
    assert_eq!(c.as_str(), "user_supplied");
    for w in [None, Some("")] {
        let c = TeamSessionService::create_team(&none(1), None, w).unwrap();
        assert_eq!(c.as_str(), "auto_from_leader");
    }
    let t = team(Some("p"));
    assert_eq!((t.workspace_mode.as_str(), t.agents_version.as_str()), ("shared", "1.0.1"));
    assert_eq!((t.created_at, t.updated_at), (3, 3));
}

#[test]
fn project_workspace_is_the_first_with_that_role() {
    let entry = |role: &str, id: &str| ProjectEntry {
        role: role.to_string(),
        folder_id: id.to_string(),
        resource_uri: String::new(),
    };
    let entries = [entry("docs", "1"), entry("workspace", "2"), entry("workspace", "3")];
    assert_eq!(resolve_project_workspace(&entries).unwrap(), 1);
    let e = resolve_project_workspace(&entries[..1]);
    assert!(matches!(e, Err(TeamError::InvalidRequest(ref x)) if x == "project has no workspace folder"));
}

#[test]
fn sentinel_request_lands_on_the_team_s_own_engagement() {
    let bound = team(Some("p1"));
    let t = TeamSessionService::ensure_engagement(Some(&bound), "u", "t", "__none__").unwrap();
    assert_eq!((t.project_id.as_str(), t.team_workspace), ("p1", None));
    let t = TeamSessionService::ensure_engagement(Some(&bound), "u", "t", "p2").unwrap();
    assert_eq!(t.project_id, "p2");
    let free = team(None);
    let t = TeamSessionService::ensure_engagement(Some(&free), "u", "t", "__none__").unwrap();
    assert_eq!((t.project_id.as_str(), t.team_workspace.as_deref()), ("__none__", Some("/ws")));
    let e = TeamSessionService::ensure_engagement(Some(&free), "x", "t", "p");
    assert!(matches!(e, Err(TeamError::TeamNotFound(_))));
    assert!(needs_binding(&free) && !needs_binding(&bound));
}

#[test]
fn legacy_no_project_team_resolves_to_team_id() {
    let legacy = new_team("team-legacy", "u1", "legacy", "", Vec::new(), None, None, None, 1);
    assert_eq!(engagement_key(&legacy, "e"), "team-legacy", "legacy team engagement key == team_id");
}

fn engagement(id: &str, team: &str) -> EngagementRow {
    EngagementRow {
        id: id.to_string(),
        team_id: team.to_string(),
        project_id: "p".to_string(),
        workspace: "/ws".to_string(),
        process: "hierarchical".to_string(),
        status: "active".to_string(),
    }
}

#[test]
fn patch_updates_process_and_archived_stays_listable() {
    let team = team(None);
    let mut rows = vec![engagement("e0", "other"), engagement("e1", "t")];
    let r = TeamSessionService::update_team_engagement(
        Some(&team), &mut rows, "u", "t", "e1", Some("sequential"), None,
    )
    .unwrap();
    assert_eq!(r.process, "sequential");
    let r = TeamSessionService::update_team_engagement(
        Some(&team), &mut rows, "u", "t", "e1", Some("hierarchical"), Some("archived"),
    )
    .unwrap();
    assert_eq!((r.process.as_str(), r.status.as_str()), ("hierarchical", "archived"));
    assert_eq!((rows[1].process.as_str(), rows[1].status.as_str()), ("hierarchical", "archived"));
    let list =
        TeamSessionService::list_engagements_for_team(Some(&team), &rows, "u", "t").unwrap();
    assert_eq!(list.len(), 1);
    assert_eq!((list[0].id.as_str(), list[0].status.as_str()), ("e1", "archived"));
}

#[test]
fn patch_engagement_from_other_team_is_not_found_and_unchanged() {
    let team = team(None);
    let mut rows = vec![engagement("e0", "other")];
    let e = TeamSessionService::update_team_engagement(
        Some(&team), &mut rows, "u", "t", "e0", Some("sequential"), None,
    );
    assert!(matches!(e, Err(TeamError::TeamNotFound(_))));
    assert_eq!(rows[0].process, "hierarchical");
}

#[test]
fn patch_engagement_you_do_not_own_is_not_found_and_unchanged() {
    let team = team(None);
    let mut rows = vec![engagement("e1", "t")];
    let e = TeamSessionService::update_team_engagement(
        Some(&team), &mut rows, "attacker", "t", "e1", Some("sequential"), None,
    );
    assert!(matches!(e, Err(TeamError::TeamNotFound(_))));
    assert_eq!(rows[0].process, "hierarchical");
}

#[test]
fn patch_invalid_process_is_bad_request() {
    let team = team(None);
    let mut rows = vec![engagement("e1", "t")];
    let e = TeamSessionService::update_team_engagement(
        Some(&team), &mut rows, "u", "t", "e1", Some("diagonal"), None,
    );
    assert!(matches!(e, Err(TeamError::InvalidRequest(_))));
    assert_eq!(rows[0].process, "hierarchical");
}

#[test]
fn patch_unknown_engagement_is_not_found() {
    let team = team(None);
    let mut rows = Vec::new();
    let e = TeamSessionService::update_team_engagement(
        Some(&team), &mut rows, "u", "t", "no-such-engagement", Some("sequential"), None,
    );
    assert!(matches!(e, Err(TeamError::TeamNotFound(_))));
}

#[test]
fn list_returns_callers_engagements_and_hides_unowned_team() {
    let team = team(None);
    let rows = [engagement("e1", "t")];
    let list = TeamSessionService::list_engagements_for_team(Some(&team), &rows, "u", "t").unwrap();
    assert!(list.iter().any(|e| e.id == "e1" && e.team_id == "t"));
    let e = TeamSessionService::list_engagements_for_team(Some(&team), &rows, "stranger", "t");
    assert!(matches!(e, Err(TeamError::TeamNotFound(_))));
}

fn manager() -> TeammateManager {
    TeammateManager {
        team_id: "t".to_string(),
        process: TaskProcess::Hierarchical,
        slots: vec![
            Slot { slot_id: "lead".to_string(), role: TeammateRole::Lead },
            Slot { slot_id: "worker".to_string(), role: TeammateRole::Teammate },
        ],
        task_board: TaskBoard::new().with_engagement("e"),
        pending_task_results: Vec::new(),
    }
}

#[test]
fn only_the_lead_asks_a_teammate_to_stop() {
    let m = manager();
    let w = m.request_shutdown_agent("lead", "worker", None).unwrap();
    assert_eq!(w.kind, MailboxMessageType::ShutdownRequest);
    assert_eq!((w.to_agent_id.as_str(), w.from_agent_id.as_str()), ("worker", "lead"));
    assert_eq!(w.content, "shutdown requested");
    assert_eq!((w.summary, w.engagement_id.as_deref()), (None, Some("e")));
    assert_eq!(m.request_shutdown_agent("lead", "worker", Some("done")).unwrap().content, "done");
    let text = |r: Result<_, TeamError>| match r {
        Err(TeamError::InvalidRequest(x)) => x,
        Err(TeamError::AgentNotFound(x)) => format!("missing {x}"),
        Err(other) => panic!("unexpected {other:?}"),
        Ok(_) => panic!("expected a refusal"),
    };
    assert_eq!(text(m.request_shutdown_agent("worker", "lead", None)), "only lead can shutdown agents");
    assert_eq!(text(m.request_shutdown_agent("lead", "lead", None)), "cannot shutdown the team lead");
    assert_eq!(text(m.request_shutdown_agent("x", "worker", None)), "missing x");
    assert_eq!(text(m.request_shutdown_agent("lead", "y", None)), "missing y");
}

#[test]
fn completions_are_handed_out_once_per_slot() {
    let mut m = manager();
    m.note_completion_for_result("worker", "t1");
    m.note_completion_for_result("lead", "t2");
    m.note_completion_for_result("worker", "t3");
    assert_eq!(m.take_pending_task_results("worker"), ["t1", "t3"]);
    assert!(m.take_pending_task_results("worker").is_empty());
    assert_eq!(m.take_pending_task_results("lead"), ["t2"]);
}

#[test]
fn tools_are_for_the_owner_of_the_conversation() {
    let binding = |user: &str, team: Option<&str>| {
        Ok(Some(TeamBinding {
            user_id: user.to_string(),
            team_id: team.map(str::to_string),
            slot_id: Some("worker".to_string()),
            role: Some("teammate".to_string()),
        }))
    };
    let resolve = |lookup| TeamSessionService::resolve_team_tool_context("u", lookup);
    let bound = resolve(binding("u", Some("t"))).unwrap().unwrap();
    assert_eq!(bound.team_id, "t");
    assert_eq!((bound.slot_id.as_deref(), bound.role.as_deref()), (Some("worker"), Some("teammate")));
    assert!(resolve(binding("u", None)).unwrap().is_none());
    let e = resolve(binding("x", Some("t"))).unwrap_err();
    assert_eq!(e.code, TeamToolErrorCode::PermissionDenied);
    let e = resolve(Ok(None)).unwrap_err();
    assert_eq!((e.code, e.message.as_str()), (TeamToolErrorCode::ConversationNotFound, "conversation not found"));
    let e = resolve(Err("down".to_string())).unwrap_err();
    assert_eq!((e.code, e.message.as_str()), (TeamToolErrorCode::RuntimeContextMissing, "down"));
}

#[test]
fn tools_run_for_the_agent_that_the_conversation_was_told_of() {
    let none = no_team_context("c");
    assert!(!none.response.in_team && none.response.team_id.is_none());
    assert_eq!(none.response.conversation_id, "c");
    assert!(none.context.is_none() && none.response.transport.is_none());
    assert!(none.response.allowed_tools.is_empty());
    let a = agent("worker", TeammateRole::Teammate);
    let tools = strings(&["team_send_message", "team_task_list"]);
    let c = team_context("u", "c", "t", Some("T"), &a, tools.clone()).unwrap();
    assert!(c.response.in_team);
    assert_eq!((c.response.team_id.as_deref(), c.response.team_name.as_deref()), (Some("t"), Some("T")));
    assert_eq!((c.response.slot_id.as_deref(), c.response.role), (Some("worker"), Some(TeammateRole::Teammate)));
    assert_eq!(c.response.agent_name.as_deref(), Some("Name worker"));
    assert_eq!(c.response.transport, Some(TeamToolTransport::CliAssumed));
    assert_eq!(c.response.allowed_tools, tools);
    let run = c.context.unwrap();
    assert_eq!((run.team_id.as_str(), run.caller_slot_id.as_str()), ("t", "worker"));
    assert_eq!((run.user_id.as_str(), run.conversation_id.as_str()), ("u", "c"));
    assert_eq!((run.caller_role, run.transport), (TeammateRole::Teammate, TeamToolTransport::CliAssumed));
    let e = team_context("u", "c", "t", None, &a, Vec::new()).unwrap_err();
    assert_eq!((e.code, e.message.as_str()), (TeamToolErrorCode::TeamNotFound, "team not found"));
    let t = team(None);
    assert_eq!(tool_team(Some(&t), "u", "t").unwrap().name, "T");
    for (found, user) in [(None, "u"), (Some(&t), "x")] {
        let e = tool_team(found, user, "t").unwrap_err();
        assert_eq!((e.code, e.message.as_str()), (TeamToolErrorCode::TeamNotFound, "team not found"));
    }
}

#[test]
fn attachments_need_a_project_only_where_there_are_any() {
    for files in [None, Some(0)] {
        let r = resolve_message_attachments("hi", files, false).unwrap();
        assert!(matches!(r, Attachments::Nothing(ref t) if t == "hi"));
    }
    assert!(matches!(resolve_message_attachments("hi", Some(1), true), Ok(Attachments::Resolve)));
    let e = resolve_message_attachments("hi", Some(1), false);
    assert!(matches!(e, Err(TeamError::InvalidRequest(ref x))
        if x == "project service unavailable; cannot resolve file attachments"));
}

#[test]
fn remove_team_tears_down_engagement_member_runtime_and_rows() {
    let team = team(None);
    let members = [member("rt-1", "worker")];
    let steps = TeamSessionService::remove_team(Some(&team), "u", "t", &members).unwrap();
    let deleted: Vec<&str> = steps
        .iter()
        .filter_map(|s| match s {
            TeamRemovalStep::DeleteConversation(id) => Some(id.as_str()),
            _ => None,
        })
        .collect();
    assert_eq!(deleted, ["conv-lead", "conv-worker", "conv-rt-1"]);
    assert!(matches!(steps[0], TeamRemovalStep::StopRuntime));
    let at = |p: fn(&TeamRemovalStep) -> bool| steps.iter().position(p).unwrap();
    assert!(
        at(|s| matches!(s, TeamRemovalStep::DeleteMembers))
            < at(|s| matches!(s, TeamRemovalStep::DeleteEngagements))
    );
    assert!(matches!(steps.last(), Some(TeamRemovalStep::Announce)));
    assert_eq!(steps.iter().filter(|s| s.is_required()).count(), 3);
    let e = TeamSessionService::remove_team(Some(&team), "x", "t", &members);
    assert!(matches!(e, Err(TeamError::TeamNotFound(_))));
}
