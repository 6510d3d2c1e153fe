//! The activity feed, its pages and the lists of tasks.
use aionui_team::activity::{
    activity_page, capped_task_ids, clamp_limit, newest_tasks, ActivityBody, ActivityKind,
    ActivityPage, MailboxMessageRow, PageDirection, TeamActivityCursor, DEFAULT_ACTIVITY_LIMIT,
    MAX_ACTIVITY_LIMIT, MAX_TASK_ID_LOOKUP,
};
use aionui_team::error::TeamError;
use aionui_team::sessions::TeamSessionService;
use aionui_team::task::TeamTaskRow;
use aionui_team::teams::new_team;

fn message(id: &str, at: i64) -> MailboxMessageRow {
    MailboxMessageRow {
        id: id.to_string(),
        team_id: "t".to_string(),
        to_agent_id: "worker".to_string(),
        from_agent_id: "lead".to_string(),
        msg_type: "message".to_string(),
        content: format!("mail {id}"),
        summary: None,
        files: None,
        read: false,
        created_at: at,
        engagement_id: Some("e1".to_string()),
    }
}

fn task(id: &str, at: i64) -> TeamTaskRow {
    TeamTaskRow {
        id: id.to_string(),
        team_id: "t".to_string(),
        subject: format!("task {id}"),
        description: None,
        status: "pending".to_string(),
        owner: None,
        blocked_by: "[]".to_string(),
        blocks: "[]".to_string(),
        metadata: None,
        created_at: at,
        updated_at: at,
        engagement_id: Some("e1".to_string()),
        expected_output: None,
        result: None,
        input_context: None,
    }
}

fn ids(page: &ActivityPage) -> Vec<&str> {
    page.items.iter().map(|i| i.id.as_str()).collect()
}

#[test]
fn engagement_activity_returns_only_its_engagement_merged_ordered() {
    let page = activity_page(
        ActivityKind::All,
        PageDirection::Desc,
        &[message("m-e1-2", 3000), message("m-e1-1", 1000)],
        &[task("k-e1-2", 4000), task("k-e1-1", 2000)],
        10,
    );
    assert_eq!(ids(&page), ["k-e1-2", "m-e1-2", "k-e1-1", "m-e1-1"]);
    assert!(!page.has_more);
    assert!(page.next_cursor.is_none());
    assert!(matches!(page.items[0].body, ActivityBody::Task(ref t) if t.subject == "task k-e1-2"));
    assert!(matches!(page.items[1].body, ActivityBody::Message(ref m) if m.content == "mail m-e1-2"));
    let page2 = activity_page(
        ActivityKind::All,
        PageDirection::Desc,
        &[message("m-e2-1", 5000)],
        &[task("k-e2-1", 6000)],
        10,
    );
    assert_eq!(ids(&page2), ["k-e2-1", "m-e2-1"], "e2 page returns ONLY e2's rows");
}

#[test]
fn engagement_activity_paginates_via_next_cursor_excluding_prior_page() {
    let page = activity_page(
        ActivityKind::All,
        PageDirection::Desc,
        &[message("m2", 3000), message("m1", 1000)],
        &[task("k2", 4000), task("k1", 2000)],
        3,
    );
    assert_eq!(ids(&page), ["k2", "m2", "k1"]);
    assert!(page.has_more);
    let c = page.next_cursor.expect("has_more implies a next cursor");
    assert_eq!((c.ts, c.id.as_str()), (2000, "k1"), "cursor is the last item's (ts, id)");
    let page2 =
        activity_page(ActivityKind::All, PageDirection::Desc, &[message("m1", 1000)], &[], 3);
    assert_eq!(ids(&page2), ["m1"], "second page excludes every page-1 id");
    assert!(!page2.has_more);
}

#[test]
fn engagement_activity_honors_kind_filter_and_direction() {
    let tasks = [task("k1", 2000)];
    let desc = [message("m2", 3000), message("m1", 1000)];
    let page = activity_page(ActivityKind::Task, PageDirection::Desc, &[], &tasks, 10);
    assert_eq!(ids(&page), ["k1"], "kind=task returns only tasks");
    let page = activity_page(ActivityKind::Message, PageDirection::Desc, &desc, &[], 10);
    assert_eq!(ids(&page), ["m2", "m1"], "kind=message returns only messages");
    let asc = [message("m1", 1000), message("m2", 3000)];
    let page = activity_page(ActivityKind::All, PageDirection::Asc, &asc, &tasks, 10);
    assert_eq!(ids(&page), ["m1", "k1", "m2"], "direction=asc orders oldest first");
}

#[test]
fn engagement_activity_empty_engagement_is_valid_empty_page() {
    let page = activity_page(ActivityKind::All, PageDirection::Desc, &[], &[], 10);
    assert!(page.items.is_empty());
    assert!(!page.has_more);
    assert!(page.next_cursor.is_none());
}

#[test]
fn ties_go_by_id() {
    let page = activity_page(
        ActivityKind::All,
        PageDirection::Asc,
        &[message("b", 5), message("é", 5)],
        &[task("a", 5), task("z", 5)],
        10,
    );
    assert_eq!(ids(&page), ["a", "b", "z", "é"]);
    let page = activity_page(
        ActivityKind::All,
        PageDirection::Desc,
        &[message("b", 5)],
        &[task("ba", 5), task("a", 5)],
        10,
    );
    assert_eq!(ids(&page), ["ba", "b", "a"]);
}

#[test]
fn a_full_stream_says_that_there_may_be_more() {
    let mut unreadable = task("k", 1);
    unreadable.blocks = "?".to_string();
    let page = activity_page(ActivityKind::Task, PageDirection::Desc, &[], &[unreadable], 1);
    assert!(page.items.is_empty());
    assert!(page.has_more, "the row was fetched, though it cannot be shown");
    assert!(page.next_cursor.is_none());
}

#[test]
fn limits_are_clamped() {
    assert_eq!(clamp_limit(-5), 1);
    assert_eq!(clamp_limit(0), 1);
    assert_eq!(clamp_limit(DEFAULT_ACTIVITY_LIMIT), 500);
    assert_eq!(clamp_limit(i64::MAX), MAX_ACTIVITY_LIMIT);
    assert_eq!(MAX_ACTIVITY_LIMIT, 1000);
}

#[test]
fn tasks_come_newest_first() {
    let rows = [task("a", 1), task("c", 2), task("b", 2)];
    let names = |n: i64| -> Vec<String> { newest_tasks(&rows, n).into_iter().map(|t| t.id).collect() };
    assert_eq!(names(10), ["c", "b", "a"]);
    assert_eq!(names(2), ["c", "b"]);
    assert_eq!(names(0), ["c"]);
}

#[test]
fn id_lookups_are_capped() {
    let many: Vec<String> = (0..250).map(|i| format!("{i}")).collect();
    let capped = capped_task_ids(&many);
    assert_eq!(capped.len(), MAX_TASK_ID_LOOKUP);
    assert_eq!(capped[199], "199");
    assert!(capped_task_ids(&[]).is_empty());
}

#[test]
fn engagement_activity_rejects_foreign_team_and_cross_user() {
    let team = new_team("t", "owner", "T", "", Vec::new(), None, None, None, 1);
    let read = |user: &str, id: &str| {
        TeamSessionService::list_team_activity(
            Some(&team),
            user,
            id,
            &[],
            &[task("k", 1)],
            PageDirection::Desc,
            ActivityKind::All,
            10,
        )
    };
    assert_eq!(ids(&read("owner", "t").unwrap()), ["k"]);
    assert!(matches!(read("attacker", "t"), Err(TeamError::TeamNotFound(ref x)) if x == "t"));
    assert!(matches!(read("owner", "other"), Err(TeamError::TeamNotFound(_))));
    let none = TeamSessionService::list_team_tasks(None, "owner", "t", &[], 10);
    assert!(matches!(none, Err(TeamError::TeamNotFound(_))));
    let tasks = TeamSessionService::list_team_tasks(Some(&team), "owner", "t", &[task("k", 1)], 10);
    assert_eq!(tasks.unwrap().len(), 1);
    assert_eq!(TeamSessionService::list_team_mailbox(Some(&team), "owner", "t", 0).unwrap(), 1);
    assert!(TeamSessionService::list_team_mailbox(Some(&team), "x", "t", 0).is_err());
    let ids = TeamSessionService::list_team_tasks_by_ids(Some(&team), "owner", "t", &["a".to_string()]);
    assert_eq!(ids.unwrap(), ["a"]);
}

/// Whether an item stands behind the cursor, from the newest back.
fn older(at: i64, id: &str, cursor: &Option<TeamActivityCursor>) -> bool {
    match cursor {
        Some(c) => at < c.ts || (at == c.ts && id < c.id.as_str()),
        None => true,
    }
}

#[test]
fn pages_read_one_after_the_other_show_the_whole_feed_once() {
    let messages: Vec<MailboxMessageRow> =
        [("m4", 700), ("m3", 500), ("m2", 500), ("m1", 100)].map(|(id, at)| message(id, at)).into();
    let tasks: Vec<TeamTaskRow> =
        [("k3", 600), ("k2", 500), ("k1", 200)].map(|(id, at)| task(id, at)).into();
    for limit in 1..9 {
        let mut seen: Vec<String> = Vec::new();
        let mut cursor: Option<TeamActivityCursor> = None;
        let mut pages = 0;
        loop {
            let fetched_messages: Vec<MailboxMessageRow> = messages
                .iter()
                .filter(|m| older(m.created_at, &m.id, &cursor))
                .take(limit as usize)
                .cloned()
                .collect();
            let fetched_tasks: Vec<TeamTaskRow> = tasks
                .iter()
                .filter(|t| older(t.created_at, &t.id, &cursor))
                .take(limit as usize)
                .cloned()
                .collect();
            let page = activity_page(
                ActivityKind::All,
                PageDirection::Desc,
                &fetched_messages,
                &fetched_tasks,
                limit,
            );
            seen.extend(page.items.iter().map(|i| i.id.clone()));
            pages += 1;
            assert!(pages <= 8, "the reading comes to an end");
            match page.next_cursor {
                Some(next) => cursor = Some(next),
                None => break,
            }
        }
        assert_eq!(seen, ["m4", "k3", "m3", "m2", "k2", "k1", "m1"], "limit {limit}");
    }
}
