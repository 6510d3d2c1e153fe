//! Delegated tasks: their metadata, their messages and the way back.
use aionui_team::delegation::DelegatedTask;
use aionui_team::error::TeamError;
use aionui_team::result_delivery::{
    delegated_depth_from_metadata, delegated_engagement_id, delegated_reply_to,
    delegated_result_metadata, next_depth_from_metadata, DelegatedResultDelivery,
    NoopDelegatedResultDelivery, DELEGATE_DEPTH_KEY, DELEGATE_REPLY_TO_KEY, ENGAGEMENT_ID_KEY,
};
use aionui_team::roster::EngagementMember;
use aionui_team::scheduler::MailboxMessageType;
use aionui_team::sessions::TeamSessionService;
use aionui_team::task_board::TaskStore;
use aionui_team::teams::{
    inherit_team_workspace, new_team, stamp_envelope_correlation, try_inherit_team_workspace, Team,
};
use serde_json::Value;

fn object(entries: &[(&str, Value)]) -> Value {
    let mut map = serde_json::Map::new();
    for (key, value) in entries {
        map.insert(key.to_string(), value.clone());
    }
    Value::Object(map)
}

#[test]
fn metadata_holds_its_three_keys() {
    let m = delegated_result_metadata("conv-1", "eng-1", 2);
    assert_eq!(m[DELEGATE_REPLY_TO_KEY].as_str(), Some("conv-1"));
    assert_eq!(m[ENGAGEMENT_ID_KEY].as_str(), Some("eng-1"));
    assert_eq!(m[DELEGATE_DEPTH_KEY].as_u64(), Some(2));
    assert_eq!(m.as_object().unwrap().len(), 3);
}

#[test]
fn metadata_reads_back() {
    let m = delegated_result_metadata(" conv-1 ", "eng-1", 2);
    assert_eq!(delegated_reply_to(Some(&m)).as_deref(), Some("conv-1"));
    assert_eq!(delegated_engagement_id(Some(&m), "other"), "eng-1");
    assert_eq!(delegated_depth_from_metadata(Some(&m)), 2);
    assert_eq!(next_depth_from_metadata(Some(&m)), 3);
}

#[test]
fn depth_saturates() {
    let m = delegated_result_metadata("c", "e", u32::MAX);
    assert_eq!(next_depth_from_metadata(Some(&m)), u32::MAX);
    let m = object(&[(DELEGATE_DEPTH_KEY, Value::from(u64::MAX))]);
    assert_eq!(delegated_depth_from_metadata(Some(&m)), u32::MAX);
    assert_eq!(next_depth_from_metadata(Some(&m)), u32::MAX);
}

#[test]
fn absent_metadata_reads_as_an_ordinary_task() {
    assert_eq!(next_depth_from_metadata(None), 0);
    assert_eq!(delegated_depth_from_metadata(None), 0);
    assert_eq!(delegated_reply_to(None), None);
    assert_eq!(delegated_engagement_id(None, "fallback"), "fallback");
    let other = object(&[
        (DELEGATE_REPLY_TO_KEY, Value::from("  ")),
        (ENGAGEMENT_ID_KEY, Value::from("\t")),
        (DELEGATE_DEPTH_KEY, Value::from("3")),
    ]);
    assert_eq!(delegated_reply_to(Some(&other)), None);
    assert_eq!(delegated_engagement_id(Some(&other), "fallback"), "fallback");
    assert_eq!(next_depth_from_metadata(Some(&other)), 0);
    assert_eq!(delegated_reply_to(Some(&Value::from(7))), None);
}

#[test]
fn engagement_id_is_handed_out_untrimmed() {
    let m = object(&[(ENGAGEMENT_ID_KEY, Value::from(" e "))]);
    assert_eq!(delegated_engagement_id(Some(&m), "f"), " e ");
}

#[test]
fn noop_delivery_accepts_everything() {
    assert!(NoopDelegatedResultDelivery.deliver_result("u", "c", "e", "text").is_ok());
}

#[test]
fn stamp_goes_before_the_first_end_marker() {
    let payload = "[[AION_DELEGATE]]\nreply_to: c\n[[/AION_DELEGATE]]\nbody [[/AION_DELEGATE]]";
    assert_eq!(
        stamp_envelope_correlation(payload, "e1", "t1"),
        "[[AION_DELEGATE]]\nreply_to: c\nengagement_id: e1\nroot_task_id: t1\n[[/AION_DELEGATE]]\nbody [[/AION_DELEGATE]]"
    );
}

#[test]
fn payload_without_marker_is_unchanged() {
    assert_eq!(stamp_envelope_correlation("plain ünïcode", "e1", "t1"), "plain ünïcode");
    assert_eq!(stamp_envelope_correlation("", "e1", "t1"), "");
    let cut = "é[[/AION_DELEGATE]";
    assert_eq!(stamp_envelope_correlation(cut, "e1", "t1"), cut);
    assert_eq!(
        stamp_envelope_correlation("é[[/AION_DELEGATE]]", "e", "t"),
        "éengagement_id: e\nroot_task_id: t\n[[/AION_DELEGATE]]"
    );
}

#[test]
fn workspace_is_inherited_unless_blank() {
    let mut extra = object(&[("k", Value::from(1))]);
    inherit_team_workspace(&mut extra, "/ws");
    assert_eq!(extra["workspace"].as_str(), Some("/ws"));
    assert_eq!(extra["k"].as_u64(), Some(1));
    let mut extra = Value::Null;
    inherit_team_workspace(&mut extra, "  ");
    assert!(extra.is_null());
    assert!(try_inherit_team_workspace(&mut extra, "/ws"));
    assert_eq!(extra["workspace"].as_str(), Some("/ws"));
    let mut list = Value::Array(Vec::new());
    assert!(!try_inherit_team_workspace(&mut list, "/ws"));
    assert!(list.is_array());
}

fn team() -> Team {
    new_team("team", "owner", "Team", "/ws", Vec::new(), None, None, None, 1)
}

fn member(slot: &str, role: &str) -> EngagementMember {
    EngagementMember {
        engagement_id: "eng".to_string(),
        slot_id: slot.to_string(),
        template_slot: format!("template-{slot}"),
        role: role.to_string(),
        conversation_id: format!("conv-{slot}"),
    }
}

fn request<'a>(reply_to: Option<&'a str>) -> DelegatedTask<'a> {
    DelegatedTask {
        subject: "Build it",
        description: "all of it",
        expected_output: Some("a build"),
        envelope_payload: "[[AION_DELEGATE]]\n[[/AION_DELEGATE]]\nBuild it",
        reply_to,
        depth: 0,
    }
}

#[test]
fn convene_reuses_engagement_creates_lead_root_task_and_envelopes_mailbox() {
    let team = new_team("team", "u1", "Bridge Team", "/ws", Vec::new(), None, None, None, 1);
    let members = [member("worker", "teammate"), member("boss", "lead")];
    let envelope_text =
        "[[AION_DELEGATE]]\nenvelope_id: env-1\nreply_to: conv-9\n[[/AION_DELEGATE]]\n\ninvestigate";
    let mut store = TaskStore::new(Vec::new());
    let mut send = |root: &str, subject: &str, description: &str, expected: Option<&str>| {
        let task = DelegatedTask {
            subject,
            description,
            expected_output: expected,
            envelope_payload: envelope_text,
            reply_to: None,
            depth: 0,
        };
        TeamSessionService::convene_delegated_task(
            Some(&team), "u1", "team", "eng", &members, &mut store, root, 7, &task,
        )
        .unwrap()
    };
    let first = send("root-1", "subject one", "description one", Some("done when X"));
    let second = send("root-2", "subject two", "", None);
    assert_eq!(first.engagement_id, second.engagement_id);
    assert_ne!(first.root_task_id, second.root_task_id);
    assert_eq!(first.lead_slot_id, second.lead_slot_id);
    assert_eq!(first.lead_slot_id, "boss");
    let task = store.rows.iter().find(|r| r.id == first.root_task_id).unwrap();
    assert_eq!(task.engagement_id.as_deref(), Some("eng"));
    assert_eq!(task.subject, "subject one");
    assert_eq!(task.owner.as_deref(), Some("boss"));
    assert_eq!(task.expected_output.as_deref(), Some("done when X"));
    for convened in [&first, &second] {
        assert_eq!(convened.message.to_agent_id, "boss");
        // The envelope goes out whole, with the ids in front of its end.
        let stamped = stamp_envelope_correlation(envelope_text, "eng", &convened.root_task_id);
        assert_eq!(convened.message.content, stamped);
        assert!(stamped.starts_with("[[AION_DELEGATE]]\nenvelope_id: env-1\nreply_to: conv-9\n"));
        assert!(stamped.ends_with("[[/AION_DELEGATE]]\n\ninvestigate"));
    }
}

fn convene(
    team: Option<&Team>,
    user: &str,
    members: &[EngagementMember],
    store: &mut TaskStore,
    reply_to: Option<&str>,
) -> Result<aionui_team::delegation::Convened, TeamError> {
    TeamSessionService::convene_delegated_task(
        team, user, "team", "eng", members, store, "root", 7, &request(reply_to),
    )
}

#[test]
fn a_root_task_and_its_message_name_each_other() {
    let team = team();
    let members = [member("worker", "teammate"), member("boss", "lead")];
    let mut store = TaskStore::new(Vec::new());
    let c = convene(Some(&team), "owner", &members, &mut store, Some("caller-conv")).unwrap();
    assert_eq!(c.engagement_id, "eng");
    assert_eq!(c.root_task_id, "root");
    assert_eq!(c.lead_slot_id, "boss");
    let row = &store.rows[0];
    assert_eq!(row.owner.as_deref(), Some("boss"));
    assert_eq!(row.engagement_id.as_deref(), Some("eng"));
    assert_eq!(row.team_id, "team");
    assert_eq!(row.expected_output.as_deref(), Some("a build"));
    let metadata: Value = serde_json::from_str(row.metadata.as_ref().unwrap()).unwrap();
    assert_eq!(metadata["delegate_reply_to"].as_str(), Some("caller-conv"));
    assert_eq!(metadata["engagement_id"].as_str(), Some("eng"));
    assert_eq!(c.message.to_agent_id, "boss");
    assert_eq!(c.message.from_agent_id, "user");
    assert_eq!(c.message.kind, MailboxMessageType::Message);
    assert_eq!(c.message.summary.as_deref(), Some("Build it"));
    assert_eq!(c.message.engagement_id.as_deref(), Some("eng"));
    assert!(c.message.content.contains("engagement_id: eng\nroot_task_id: root\n[[/AION"));
    assert_eq!(store.events.len(), 1);
}

#[test]
fn convene_by_non_owner_is_rejected_without_side_effects() {
    let team = team();
    let members = [member("boss", "lead")];
    let mut store = TaskStore::new(Vec::new());
    let e = convene(Some(&team), "intruder", &members, &mut store, None);
    assert!(matches!(e, Err(TeamError::TeamNotFound(ref id)) if id == "team"));
    let e = convene(None, "owner", &members, &mut store, None);
    assert!(matches!(e, Err(TeamError::TeamNotFound(_))));
    assert!(store.rows.is_empty());
    assert!(store.events.is_empty());
}

#[test]
fn convene_without_a_lead_is_rejected() {
    let team = team();
    let mut store = TaskStore::new(Vec::new());
    match convene(Some(&team), "owner", &[member("w", "teammate")], &mut store, None) {
        Err(TeamError::InvalidRequest(text)) => assert_eq!(text, "engagement eng has no lead member"),
        other => panic!("expected InvalidRequest, got {other:?}"),
    }
}

#[test]
fn convene_without_reply_target_stamps_no_metadata() {
    let team = team();
    let mut store = TaskStore::new(Vec::new());
    convene(Some(&team), "owner", &[member("boss", "lead")], &mut store, None).unwrap();
    assert!(store.rows[0].metadata.is_none());
    let e = convene(Some(&team), "owner", &[member("boss", "lead")], &mut store, None);
    assert!(matches!(e, Err(TeamError::TaskIdTaken(_))));
}
