//! The activity feed of a team: its messages and its tasks, page by page.
use crate::order::{
    first_of, in_order, is_order, law_sorted_in_order, law_sorted_keeps_values, law_sorted_merges,
    lemma_merged_take, lemma_sorted_map, sorted, stable_sort, Order,
};
use crate::task::{
    law_task_says_what_is_stored, readable, row_views, task_of, task_views, RowView, TaskView,
    TeamTask, TeamTaskRow,
};
use crate::task_board::lemma_filter_contains;
use crate::text::{before_text, copy_opt, lemma_text_order, text_before};
use vstd::prelude::*;

verus! {

/// How many items a page holds where the request does not say.
pub const DEFAULT_ACTIVITY_LIMIT: i64 = 500;

/// The largest number of items that a page may hold.
pub const MAX_ACTIVITY_LIMIT: i64 = 1000;

/// The largest number of tasks that one request may look up by id.
pub const MAX_TASK_ID_LOOKUP: usize = 200;

/// Which items the feed shows.
#[derive(Debug, Clone, Copy, PartialEq, Eq, Structural)]
pub enum ActivityKind {
    /// Messages and tasks.
    All,
    /// Messages only.
    Message,
    /// Tasks only.
    Task,
}

/// Whether a page runs from the newest item back or from the oldest item on.
#[derive(Debug, Clone, Copy, PartialEq, Eq, Structural)]
pub enum PageDirection {
    Asc,
    Desc,
}

/// A message as it is stored.
#[derive(Debug)]
pub struct MailboxMessageRow {
    pub id: String,
    pub team_id: String,
    pub to_agent_id: String,
    pub from_agent_id: String,
    pub msg_type: String,
    pub content: String,
    pub summary: Option<String>,
    pub files: Option<String>,
    pub read: bool,
    pub created_at: i64,
    pub engagement_id: Option<String>,
}

impl Clone for MailboxMessageRow {
    fn clone(&self) -> (r: Self)
        ensures
            r == *self,
    {
        MailboxMessageRow {
            id: self.id.clone(),
            team_id: self.team_id.clone(),
            to_agent_id: self.to_agent_id.clone(),
            from_agent_id: self.from_agent_id.clone(),
            msg_type: self.msg_type.clone(),
            content: self.content.clone(),
            summary: copy_opt(&self.summary),
            files: copy_opt(&self.files),
            read: self.read,
            created_at: self.created_at,
            engagement_id: copy_opt(&self.engagement_id),
        }
    }
}

/// What an item of the feed shows.
#[derive(Debug)]
pub enum ActivityBody {
    Message(MailboxMessageRow),
    Task(TeamTask),
}

/// An item of the feed.
#[derive(Debug)]
pub struct ActivityItem {
    pub id: String,
    pub created_at: i64,
    pub body: ActivityBody,
}

pub enum BodyView {
    Message(MailboxMessageRow),
    Task(TaskView),
}

pub struct ItemView {
    pub id: Seq<char>,
    pub created_at: int,
    pub body: BodyView,
}

impl View for ActivityItem {
    type V = ItemView;

    open spec fn view(&self) -> ItemView {
        ItemView {
            id: self.id@,
            created_at: self.created_at as int,
            body: match self.body {
                ActivityBody::Message(m) => BodyView::Message(m),
                ActivityBody::Task(t) => BodyView::Task(t@),
            },
        }
    }
}

pub open spec fn item_views(v: Seq<ActivityItem>) -> Seq<ItemView> {
    v.map_values(|i: ActivityItem| i@)
}

/// The last item of a page, after which the next page starts.
#[derive(Debug)]
pub struct TeamActivityCursor {
    pub ts: i64,
    pub id: String,
}

/// A page of the feed.
#[derive(Debug)]
pub struct ActivityPage {
    pub items: Vec<ActivityItem>,
    pub next_cursor: Option<TeamActivityCursor>,
    pub has_more: bool,
}

/// The page names its last item as the cursor of the next, where there may be
/// more and it has an item.
pub open spec fn names_cursor(page: ActivityPage) -> bool {
    match page.next_cursor {
        Some(c) => page.has_more && page.items@.len() > 0 && c.ts == page.items@.last().created_at
            && c.id@ == page.items@.last().id@,
        None => !page.has_more || page.items@.len() == 0,
    }
}

/// The limit of a page, brought into the range that is allowed.
pub open spec fn clamped(limit: int) -> int {
    if limit < 1 {
        1
    } else if limit > MAX_ACTIVITY_LIMIT {
        MAX_ACTIVITY_LIMIT as int
    } else {
        limit
    }
}

pub fn clamp_limit(limit: i64) -> (r: i64)
    ensures
        r == clamped(limit as int),
{
    if limit < 1 {
        1
    } else if limit > MAX_ACTIVITY_LIMIT {
        MAX_ACTIVITY_LIMIT
    } else {
        limit
    }
}

/// Older first; of two at the same time, the one with the lesser id.
pub open spec fn key_before(at: int, ai: Seq<char>, bt: int, bi: Seq<char>) -> bool {
    at < bt || (at == bt && text_before(ai, bi))
}

/// The order of the feed in a direction.
pub open spec fn feed_order(d: PageDirection) -> spec_fn(ItemView, ItemView) -> bool {
    match d {
        PageDirection::Asc => |a: ItemView, b: ItemView|
            key_before(a.created_at, a.id, b.created_at, b.id),
        PageDirection::Desc => |a: ItemView, b: ItemView|
            key_before(b.created_at, b.id, a.created_at, a.id),
    }
}

pub open spec fn message_item(m: MailboxMessageRow) -> ItemView {
    ItemView { id: m.id@, created_at: m.created_at as int, body: BodyView::Message(m) }
}

pub open spec fn task_item(r: RowView) -> ItemView {
    ItemView { id: r.id, created_at: r.created_at, body: BodyView::Task(task_of(r)) }
}

pub open spec fn message_items(v: Seq<MailboxMessageRow>) -> Seq<ItemView> {
    v.map_values(|m: MailboxMessageRow| message_item(m))
}

/// The items of the rows that can be read.
pub open spec fn task_items(v: Seq<RowView>) -> Seq<ItemView> {
    v.filter(|r: RowView| readable(r)).map_values(|r: RowView| task_item(r))
}

/// The items that are shown of what was fetched, before the page is cut.
pub open spec fn shown(
    kind: ActivityKind,
    d: PageDirection,
    messages: Seq<MailboxMessageRow>,
    tasks: Seq<RowView>,
) -> Seq<ItemView> {
    match kind {
        ActivityKind::Message => message_items(messages),
        ActivityKind::Task => task_items(tasks),
        ActivityKind::All => sorted(feed_order(d), message_items(messages) + task_items(tasks)),
    }
}

/// There may be more: a stream gave all it was asked for, or the page was cut.
pub open spec fn may_have_more(
    kind: ActivityKind,
    d: PageDirection,
    messages: Seq<MailboxMessageRow>,
    tasks: Seq<RowView>,
    limit: int,
) -> bool {
    ||| kind != ActivityKind::Task && messages.len() == limit
    ||| kind != ActivityKind::Message && tasks.len() == limit
    ||| shown(kind, d, messages, tasks).len() > limit
}

pub proof fn lemma_feed_order(d: PageDirection)
    ensures
        is_order(feed_order(d)),
{
    let f = feed_order(d);
    assert forall|a: ItemView, b: ItemView| #[trigger] f(a, b) implies !f(b, a) by {
        lemma_text_order(a.id, b.id, a.id);
        lemma_text_order(b.id, a.id, a.id);
    }
    assert forall|a: ItemView, b: ItemView, c: ItemView| #[trigger] f(a, b) && !#[trigger] f(
        c,
        b,
    ) implies f(a, c) by {
        lemma_text_order(a.id, b.id, c.id);
        // Read backwards, the same fact holds of the reversed order.
        lemma_text_order(b.id, a.id, c.id);
        lemma_text_order(c.id, a.id, b.id);
        lemma_text_order(a.id, c.id, b.id);
        lemma_text_order(b.id, c.id, a.id);
    }
}

/// The order of the feed in a direction, on the items themselves.
pub struct FeedOrder {
    pub direction: PageDirection,
}

fn key_is_before(at: i64, ai: &str, bt: i64, bi: &str) -> (r: bool)
    ensures
        r == key_before(at as int, ai@, bt as int, bi@),
{
    at < bt || (at == bt && before_text(ai, bi))
}

impl Order<ActivityItem> for FeedOrder {
    open spec fn before(&self, a: ActivityItem, b: ActivityItem) -> bool {
        feed_order(self.direction)(a@, b@)
    }

    fn is_before(&self, a: &ActivityItem, b: &ActivityItem) -> (r: bool) {
        match self.direction {
            PageDirection::Asc => key_is_before(
                a.created_at,
                a.id.as_str(),
                b.created_at,
                b.id.as_str(),
            ),
            PageDirection::Desc => key_is_before(
                b.created_at,
                b.id.as_str(),
                a.created_at,
                a.id.as_str(),
            ),
        }
    }
}

/// Appends the items of the messages.
fn add_messages(items: &mut Vec<ActivityItem>, messages: &[MailboxMessageRow])
    ensures
        item_views(final(items)@) == item_views(old(items)@) + message_items(messages@),
{
    let ghost start = item_views(items@);
    let mut i: usize = 0;
    assert(item_views(items@) =~= start + message_items(messages@.take(0)));
    while i < messages.len()
        invariant
            i <= messages@.len(),
            item_views(items@) == start + message_items(messages@.take(i as int)),
        decreases messages@.len() - i,
    {
        let m = &messages[i];
        let ghost before = items@;
        items.push(
            ActivityItem {
                id: m.id.clone(),
                created_at: m.created_at,
                body: ActivityBody::Message(m.clone()),
            },
        );
        proof {
            assert(item_views(items@) =~= item_views(before).push(message_item(*m)));
            assert(messages@.take(i + 1) =~= messages@.take(i as int).push(*m));
            assert(message_items(messages@.take(i + 1)) =~= message_items(
                messages@.take(i as int),
            ).push(message_item(*m)));
            assert(item_views(items@) =~= start + message_items(messages@.take(i + 1)));
        }
        i = i + 1;
    }
    assert(messages@.take(i as int) =~= messages@);
}

proof fn lemma_task_items_push(v: Seq<RowView>, r: RowView)
    ensures
        task_items(v.push(r)) == if readable(r) {
            task_items(v).push(task_item(r))
        } else {
            task_items(v)
        },
{
    reveal(Seq::filter);
    let keep = |r: RowView| readable(r);
    let f = |r: RowView| task_item(r);
    assert(v.push(r).drop_last() =~= v);
    assert(v.filter(keep).push(r).map_values(f) =~= v.filter(keep).map_values(f).push(f(r)));
}

/// Appends the items of the rows that can be read.
fn add_tasks(items: &mut Vec<ActivityItem>, tasks: &[TeamTaskRow])
    ensures
        item_views(final(items)@) == item_views(old(items)@) + task_items(row_views(tasks@)),
{
    let ghost start = item_views(items@);
    let ghost all = row_views(tasks@);
    let mut i: usize = 0;
    proof {
        reveal(Seq::filter);
        assert(all.take(0) =~= Seq::<RowView>::empty());
        assert(item_views(items@) =~= start + task_items(all.take(0)));
    }
    while i < tasks.len()
        invariant
            i <= tasks@.len(),
            all == row_views(tasks@),
            item_views(items@) == start + task_items(all.take(i as int)),
        decreases tasks@.len() - i,
    {
        let row = &tasks[i];
        let ghost before = items@;
        proof {
            assert(all.take(i + 1) =~= all.take(i as int).push(row@));
            lemma_task_items_push(all.take(i as int), row@);
        }
        if let Ok(task) = TeamTask::from_row(row) {
            items.push(
                ActivityItem {
                    id: row.id.clone(),
                    created_at: row.created_at,
                    body: ActivityBody::Task(task),
                },
            );
            proof {
                assert(item_views(items@) =~= item_views(before).push(task_item(row@)));
                assert(item_views(items@) =~= start + task_items(all.take(i + 1)));
            }
        }
        i = i + 1;
    }
    assert(all.take(i as int) =~= all);
}

/// One page of the feed, from what was fetched of each stream for it.
pub fn activity_page(
    kind: ActivityKind,
    direction: PageDirection,
    messages: &[MailboxMessageRow],
    tasks: &[TeamTaskRow],
    limit: i64,
) -> (r: ActivityPage)
    ensures
        item_views(r.items@) == first_of(
            shown(kind, direction, messages@, row_views(tasks@)),
            clamped(limit as int),
        ),
        r.has_more == may_have_more(
            kind,
            direction,
            messages@,
            row_views(tasks@),
            clamped(limit as int),
        ),
        names_cursor(r),
        forall|n: int|
            0 <= n < r.items@.len() ==> match (#[trigger] r.items@[n]).body {
                ActivityBody::Message(m) => messages@.contains(m) && r.items@[n].id@ == m.id@
                    && r.items@[n].created_at == m.created_at,
                ActivityBody::Task(t) => r.items@[n].id@ == t.id@ && r.items@[n].created_at
                    == t.created_at,
            },
{
    let limit: usize = clamp_limit(limit) as usize;
    let mut items: Vec<ActivityItem> = Vec::new();
    let ghost ms = message_items(messages@);
    let ghost ts = task_items(row_views(tasks@));
    assert(item_views(items@) =~= Seq::<ItemView>::empty());
    assert(Seq::<ItemView>::empty() + ms =~= ms);
    assert(Seq::<ItemView>::empty() + ts =~= ts);
    match kind {
        ActivityKind::Message => add_messages(&mut items, messages),
        ActivityKind::Task => add_tasks(&mut items, tasks),
        ActivityKind::All => {
            add_messages(&mut items, messages);
            add_tasks(&mut items, tasks);
            let order = FeedOrder { direction };
            proof {
                let f = |i: ActivityItem| i@;
                let b = |x: ActivityItem, y: ActivityItem| order.before(x, y);
                lemma_sorted_map(b, feed_order(direction), f, items@);
            }
            items = stable_sort(&order, items);
        },
    }
    let mailbox_full = kind != ActivityKind::Task && messages.len() == limit;
    let tasks_full = kind != ActivityKind::Message && tasks.len() == limit;
    let truncated = items.len() > limit;
    let ghost before = items@;
    if truncated {
        items.truncate(limit);
        assert(items@ =~= before.take(limit as int));
    }
    assert(item_views(items@) =~= first_of(item_views(before), limit as int));
    proof {
        let rows = row_views(tasks@);
        let all = shown(kind, direction, messages@, rows);
        assert forall|n: int| 0 <= n < items@.len() implies match (#[trigger] items@[n]).body {
            ActivityBody::Message(m) => messages@.contains(m) && items@[n].id@ == m.id@
                && items@[n].created_at == m.created_at,
            ActivityBody::Task(t) => items@[n].id@ == t.id@ && items@[n].created_at
                == t.created_at,
        } by {
            assert(item_views(items@)[n] == items@[n]@);
            assert(items@[n]@ == all[n]);
            law_items_bear_the_time_of_their_rows(kind, direction, messages@, rows, n);
        }
    }
    let has_more = mailbox_full || tasks_full || truncated;
    let next_cursor = if has_more && items.len() > 0 {
        let last = &items[items.len() - 1];
        Some(TeamActivityCursor { ts: last.created_at, id: last.id.clone() })
    } else {
        None
    };
    ActivityPage { items, next_cursor, has_more }
}

/// The item shows a stored message or task, under its id and its time of creation.
pub open spec fn shows_a_row(
    item: ItemView,
    messages: Seq<MailboxMessageRow>,
    tasks: Seq<RowView>,
) -> bool {
    match item.body {
        BodyView::Message(m) => exists|k: int|
            0 <= k < messages.len() && #[trigger] messages[k] == m && item.id == m.id@
                && item.created_at == m.created_at,
        BodyView::Task(t) => exists|k: int|
            0 <= k < tasks.len() && readable(#[trigger] tasks[k]) && t == task_of(tasks[k])
                && item.id == tasks[k].id && item.created_at == tasks[k].created_at,
    }
}

/// Every item of the feed shows a message or a task that was fetched, of the kind
/// that was asked for, under the id and the time of creation of the stored row. A
/// task on the feed bears its own time of creation, not that of a later change.
pub proof fn law_items_bear_the_time_of_their_rows(
    kind: ActivityKind,
    d: PageDirection,
    messages: Seq<MailboxMessageRow>,
    tasks: Seq<RowView>,
    n: int,
)
    requires
        0 <= n < shown(kind, d, messages, tasks).len(),
    ensures
        shows_a_row(shown(kind, d, messages, tasks)[n], messages, tasks),
        kind == ActivityKind::Message ==> shown(kind, d, messages, tasks)[n].body is Message,
        kind == ActivityKind::Task ==> shown(kind, d, messages, tasks)[n].body is Task,
        shown(kind, d, messages, tasks)[n].body matches BodyView::Task(t) ==> t.created_at
            == shown(kind, d, messages, tasks)[n].created_at && t.id == shown(
            kind,
            d,
            messages,
            tasks,
        )[n].id,
        shown(kind, d, messages, tasks)[n].body matches BodyView::Message(m) ==> m.created_at
            == shown(kind, d, messages, tasks)[n].created_at && m.id@ == shown(
            kind,
            d,
            messages,
            tasks,
        )[n].id,
{
    let all = shown(kind, d, messages, tasks);
    let item = all[n];
    let ms = message_items(messages);
    let ts = task_items(tasks);
    let raw = match kind {
        ActivityKind::Message => ms,
        ActivityKind::Task => ts,
        ActivityKind::All => ms + ts,
    };
    if kind == ActivityKind::All {
        lemma_sorted_contains(feed_order(d), raw, item);
    }
    assert(all.contains(item));
    let p = choose|p: int| 0 <= p < raw.len() && raw[p] == item;
    if kind == ActivityKind::Message || (kind == ActivityKind::All && p < ms.len()) {
        assert(messages[p] == messages[p]);
        assert(item == message_item(messages[p]));
    } else {
        let q = if kind == ActivityKind::All {
            p - ms.len()
        } else {
            p
        };
        let kept = tasks.filter(|r: RowView| readable(r));
        assert(ts[q] == task_item(kept[q]));
        assert(kept.contains(kept[q]));
        lemma_filter_contains(tasks, |r: RowView| readable(r), kept[q]);
        let k = choose|k: int| 0 <= k < tasks.len() && tasks[k] == kept[q];
        assert(readable(tasks[k]));
        law_task_says_what_is_stored(tasks[k]);
    }
}

/// The feed leaves out no row of the kind that was asked for: every message is
/// shown, and every task that can be read, and there is no item beyond them.
pub proof fn law_every_row_is_shown(
    kind: ActivityKind,
    d: PageDirection,
    messages: Seq<MailboxMessageRow>,
    tasks: Seq<RowView>,
)
    ensures
        kind != ActivityKind::Task ==> forall|k: int|
            0 <= k < messages.len() ==> shown(kind, d, messages, tasks).contains(
                (ItemView {
                    id: (#[trigger] messages[k]).id@,
                    created_at: messages[k].created_at as int,
                    body: BodyView::Message(messages[k]),
                }),
            ),
        kind != ActivityKind::Message ==> forall|k: int|
            0 <= k < tasks.len() && readable(#[trigger] tasks[k]) ==> shown(
                kind,
                d,
                messages,
                tasks,
            ).contains(
                (ItemView {
                    id: tasks[k].id,
                    created_at: tasks[k].created_at,
                    body: BodyView::Task(task_of(tasks[k])),
                }),
            ),
        shown(kind, d, messages, tasks).len() == (if kind == ActivityKind::Task {
            0
        } else {
            messages.len()
        }) + (if kind == ActivityKind::Message {
            0
        } else {
            tasks.filter(|r: RowView| readable(r)).len()
        }),
{
    let all = shown(kind, d, messages, tasks);
    let ms = message_items(messages);
    let ts = task_items(tasks);
    law_sorted_keeps_values(feed_order(d), ms + ts);
    if kind != ActivityKind::Task {
        assert forall|k: int| 0 <= k < messages.len() implies all.contains(
            (ItemView {
                id: (#[trigger] messages[k]).id@,
                created_at: messages[k].created_at as int,
                body: BodyView::Message(messages[k]),
            }),
        ) by {
            let item = message_item(messages[k]);
            assert(ms[k] == item);
            assert((ms + ts)[k] == item);
            lemma_sorted_contains(feed_order(d), ms + ts, item);
        }
    }
    if kind != ActivityKind::Message {
        assert forall|k: int| 0 <= k < tasks.len() && readable(
            #[trigger] tasks[k],
        ) implies all.contains(
            (ItemView {
                id: tasks[k].id,
                created_at: tasks[k].created_at,
                body: BodyView::Task(task_of(tasks[k])),
            }),
        ) by {
            let keep = |r: RowView| readable(r);
            let item = task_item(tasks[k]);
            assert(tasks.contains(tasks[k]));
            lemma_filter_contains(tasks, keep, tasks[k]);
            let kept = tasks.filter(keep);
            let q = choose|q: int| 0 <= q < kept.len() && kept[q] == tasks[k];
            assert(ts[q] == item);
            assert((ms + ts)[ms.len() + q] == item);
            lemma_sorted_contains(feed_order(d), ms + ts, item);
        }
    }
}

/// A merged feed runs by the times of creation, and by the ids of what was created
/// at the same time: upwards from the oldest, or downwards from the newest.
pub proof fn law_merged_feed_runs_by_creation(
    d: PageDirection,
    messages: Seq<MailboxMessageRow>,
    tasks: Seq<RowView>,
    i: int,
    j: int,
)
    requires
        0 <= i < j < shown(ActivityKind::All, d, messages, tasks).len(),
    ensures
        ({
            let a = shown(ActivityKind::All, d, messages, tasks)[i];
            let b = shown(ActivityKind::All, d, messages, tasks)[j];
            match d {
                PageDirection::Asc => a.created_at < b.created_at || (a.created_at == b.created_at
                    && !text_before(b.id, a.id)),
                PageDirection::Desc => a.created_at > b.created_at || (a.created_at
                    == b.created_at && !text_before(a.id, b.id)),
            }
        }),
{
    lemma_feed_order(d);
    law_sorted_in_order(feed_order(d), message_items(messages) + task_items(tasks));
    let all = shown(ActivityKind::All, d, messages, tasks);
    assert(!feed_order(d)(all[j], all[i]));
}

/// Messages alone, or tasks alone, are shown in the order in which they were
/// fetched.
pub proof fn law_one_stream_keeps_its_order(
    d: PageDirection,
    messages: Seq<MailboxMessageRow>,
    tasks: Seq<RowView>,
)
    ensures
        forall|k: int|
            0 <= k < messages.len() ==> (#[trigger] shown(
                ActivityKind::Message,
                d,
                messages,
                tasks,
            )[k]).body == BodyView::Message(messages[k]),
        forall|k: int|
            0 <= k < tasks.filter(|r: RowView| readable(r)).len() ==> (#[trigger] shown(
                ActivityKind::Task,
                d,
                messages,
                tasks,
            )[k]).body == BodyView::Task(task_of(tasks.filter(|r: RowView| readable(r))[k])),
{
}

/// A page holds as many items as asked for, from one to a thousand, or all there
/// are; where either stream gave all that was asked of it, or some items did not
/// fit, there may be more.
pub proof fn law_page_size(
    kind: ActivityKind,
    d: PageDirection,
    messages: Seq<MailboxMessageRow>,
    tasks: Seq<RowView>,
    limit: int,
)
    ensures
        1 <= limit <= 1000 ==> clamped(limit) == limit,
        limit < 1 ==> clamped(limit) == 1,
        limit > 1000 ==> clamped(limit) == 1000,
        kind == ActivityKind::All ==> (may_have_more(kind, d, messages, tasks, limit) <==> {
            ||| messages.len() == limit
            ||| tasks.len() == limit
            ||| messages.len() + tasks.filter(|r: RowView| readable(r)).len() > limit
        }),
        kind == ActivityKind::Message ==> (may_have_more(kind, d, messages, tasks, limit)
            <==> messages.len() >= limit),
        kind == ActivityKind::Task ==> (may_have_more(kind, d, messages, tasks, limit) <==> {
            ||| tasks.len() == limit
            ||| tasks.filter(|r: RowView| readable(r)).len() > limit
        }),
{
    law_every_row_is_shown(kind, d, messages, tasks);
}

/// Sorting neither adds nor loses a value.
pub(crate) proof fn lemma_sorted_contains<T>(before: spec_fn(T, T) -> bool, s: Seq<T>, x: T)
    ensures
        sorted(before, s).contains(x) <==> s.contains(x),
{
    broadcast use vstd::seq_lib::group_to_multiset_ensures;

    law_sorted_keeps_values(before, s);
    let a = sorted(before, s);
    assert(a.contains(x) <==> a.to_multiset().count(x) > 0);
    assert(s.contains(x) <==> s.to_multiset().count(x) > 0);
}

/// A merged page is complete: where each stream was fetched up to the limit, it
/// holds the first items of all that the two streams have.
pub proof fn law_merged_page_is_complete(
    d: PageDirection,
    messages: Seq<ItemView>,
    tasks: Seq<ItemView>,
    limit: int,
)
    requires
        limit > 0,
        in_order(feed_order(d), messages),
        in_order(feed_order(d), tasks),
    ensures
        first_of(
            sorted(feed_order(d), first_of(messages, limit) + first_of(tasks, limit)),
            limit,
        ) == first_of(sorted(feed_order(d), messages + tasks), limit),
{
    let f = feed_order(d);
    lemma_feed_order(d);
    let p = if messages.len() <= limit {
        messages.len() as int
    } else {
        limit
    };
    let q = if tasks.len() <= limit {
        tasks.len() as int
    } else {
        limit
    };
    assert(first_of(messages, limit) =~= messages.take(p));
    assert(first_of(tasks, limit) =~= tasks.take(q));
    assert(in_order(f, messages.take(p)));
    assert(in_order(f, tasks.take(q)));
    law_sorted_merges(f, messages, tasks);
    law_sorted_merges(f, messages.take(p), tasks.take(q));
    lemma_merged_take(f, messages, tasks, p, q, limit);
}

/// A page that promises nothing more leaves nothing out: each stream ended
/// before the limit, and every item that can be shown is on it.
pub proof fn law_last_page_leaves_nothing_out(
    kind: ActivityKind,
    d: PageDirection,
    messages: Seq<MailboxMessageRow>,
    tasks: Seq<RowView>,
    limit: int,
)
    requires
        limit > 0,
        !may_have_more(kind, d, first_of(messages, limit), first_of(tasks, limit), limit),
    ensures
        kind != ActivityKind::Task ==> messages.len() < limit,
        kind != ActivityKind::Message ==> tasks.len() < limit,
        first_of(shown(kind, d, first_of(messages, limit), first_of(tasks, limit)), limit) == shown(
            kind,
            d,
            messages,
            tasks,
        ),
{
}

/// A page that runs in order ends with its cursor: no item on it stands behind
/// the cursor, so that the page after the cursor repeats none.
pub proof fn law_cursor_ends_the_page(d: PageDirection, items: Seq<ItemView>, i: int)
    requires
        in_order(feed_order(d), items),
        0 <= i < items.len(),
    ensures
        !feed_order(d)(items.last(), items[i]),
{
    lemma_feed_order(d);
    if i == items.len() - 1 {
        let f = feed_order(d);
        assert(f(items[i], items[i]) ==> !f(items[i], items[i]));
    }
}

/// A merged page runs in the order of its direction.
pub proof fn law_merged_page_in_order(
    d: PageDirection,
    messages: Seq<MailboxMessageRow>,
    tasks: Seq<RowView>,
    limit: int,
)
    requires
        limit > 0,
    ensures
        in_order(
            feed_order(d),
            first_of(shown(ActivityKind::All, d, messages, tasks), limit),
        ),
{
    lemma_feed_order(d);
    law_sorted_in_order(feed_order(d), message_items(messages) + task_items(tasks));
}

/// From the newest task to the oldest; of two at the same time, the one with
/// the greater id first.
pub open spec fn newest_first() -> spec_fn(TaskView, TaskView) -> bool {
    |a: TaskView, b: TaskView| key_before(b.created_at, b.id, a.created_at, a.id)
}

pub struct NewestFirst {}

impl Order<TeamTask> for NewestFirst {
    open spec fn before(&self, a: TeamTask, b: TeamTask) -> bool {
        newest_first()(a@, b@)
    }

    fn is_before(&self, a: &TeamTask, b: &TeamTask) -> (r: bool) {
        key_is_before(b.created_at, b.id.as_str(), a.created_at, a.id.as_str())
    }
}

/// The rows that can be read, as tasks.
pub open spec fn readable_tasks(rows: Seq<RowView>) -> Seq<TaskView> {
    rows.filter(|r: RowView| readable(r)).map_values(|r: RowView| task_of(r))
}

/// Reads the rows; one that cannot be read is left out.
pub fn read_tasks(rows: &[TeamTaskRow]) -> (r: Vec<TeamTask>)
    ensures
        task_views(r@) == readable_tasks(row_views(rows@)),
{
    let ghost all = row_views(rows@);
    let ghost keep = |r: RowView| readable(r);
    let ghost f = |r: RowView| task_of(r);
    let mut r: Vec<TeamTask> = Vec::new();
    let mut i: usize = 0;
    proof {
        reveal(Seq::filter);
        assert(all.take(0).filter(keep) =~= Seq::<RowView>::empty());
        assert(task_views(r@) =~= readable_tasks(all.take(0)));
    }
    while i < rows.len()
        invariant
            i <= rows@.len(),
            all == row_views(rows@),
            keep == (|r: RowView| readable(r)),
            f == (|r: RowView| task_of(r)),
            task_views(r@) == readable_tasks(all.take(i as int)),
        decreases rows@.len() - i,
    {
        let row = &rows[i];
        let ghost done = task_views(r@);
        let ghost low = all.take(i as int).filter(keep);
        proof {
            reveal(Seq::filter);
            assert(all.take(i + 1).drop_last() =~= all.take(i as int));
            assert(all.take(i + 1).last() == row@);
            assert(low.push(row@).map_values(f) =~= low.map_values(f).push(f(row@)));
        }
        if let Ok(task) = TeamTask::from_row(row) {
            r.push(task);
            assert(task_views(r@) =~= done.push(task@));
        }
        i = i + 1;
    }
    assert(all.take(i as int) =~= all);
    r
}

/// The newest tasks of a team, up to the limit.
pub fn newest_tasks(rows: &[TeamTaskRow], limit: i64) -> (r: Vec<TeamTask>)
    ensures
        task_views(r@) == first_of(
            sorted(newest_first(), readable_tasks(row_views(rows@))),
            clamped(limit as int),
        ),
{
    let limit: usize = clamp_limit(limit) as usize;
    let tasks = read_tasks(rows);
    proof {
        let order = NewestFirst {  };
        let f = |t: TeamTask| t@;
        let b = |x: TeamTask, y: TeamTask| order.before(x, y);
        lemma_sorted_map(b, newest_first(), f, tasks@);
    }
    let mut r = stable_sort(&NewestFirst {  }, tasks);
    let ghost before = r@;
    if r.len() > limit {
        r.truncate(limit);
        assert(r@ =~= before.take(limit as int));
    }
    assert(task_views(r@) =~= first_of(task_views(before), limit as int));
    r
}

/// The newest tasks come newest first, those created at the same time with the
/// greater id first; they are as many as asked for or all that can be read; each
/// is a stored task, and none that was left out is newer.
pub proof fn law_newest_tasks_come_first(rows: Seq<RowView>, limit: int)
    requires
        limit > 0,
    ensures
        ({
            let told = first_of(sorted(newest_first(), readable_tasks(rows)), limit);
            &&& told.len() == if rows.filter(|r: RowView| readable(r)).len() <= limit {
                rows.filter(|r: RowView| readable(r)).len() as int
            } else {
                limit
            }
            &&& forall|i: int, j: int|
                0 <= i < j < told.len() ==> (#[trigger] told[i]).created_at > (
                #[trigger] told[j]).created_at || (told[i].created_at == told[j].created_at
                    && !text_before(told[i].id, told[j].id))
            &&& forall|i: int|
                0 <= i < told.len() ==> exists|k: int|
                    0 <= k < rows.len() && readable(#[trigger] rows[k]) && task_of(rows[k])
                        == #[trigger] told[i]
            &&& forall|k: int, i: int|
                0 <= k < rows.len() && readable(#[trigger] rows[k]) && !told.contains(
                    task_of(rows[k]),
                ) && 0 <= i < told.len() ==> (#[trigger] told[i]).created_at > rows[k].created_at
                    || (told[i].created_at == rows[k].created_at && !text_before(
                    told[i].id,
                    rows[k].id,
                ))
        }),
{
    let keep = |r: RowView| readable(r);
    let f = newest_first();
    let read = readable_tasks(rows);
    let all = sorted(f, read);
    let told = first_of(all, limit);
    law_sorted_keeps_values(f, read);
    lemma_newest_first();
    law_sorted_in_order(f, read);
    assert forall|i: int, j: int| 0 <= i < j < told.len() implies (#[trigger] told[i]).created_at
        > (#[trigger] told[j]).created_at || (told[i].created_at == told[j].created_at
        && !text_before(told[i].id, told[j].id)) by {
        assert(!f(all[j], all[i]));
    }
    assert forall|i: int| 0 <= i < told.len() implies exists|k: int|
        0 <= k < rows.len() && readable(#[trigger] rows[k]) && task_of(rows[k])
            == #[trigger] told[i] by {
        assert(all.contains(told[i])) by {
            assert(all[i] == told[i]);
        }
        lemma_sorted_contains(f, read, told[i]);
        let q = choose|q: int| 0 <= q < read.len() && read[q] == told[i];
        let kept = rows.filter(keep);
        assert(kept.contains(kept[q]));
        lemma_filter_contains(rows, keep, kept[q]);
        let k = choose|k: int| 0 <= k < rows.len() && rows[k] == kept[q];
        assert(readable(rows[k]) && task_of(rows[k]) == told[i]);
    }
    assert forall|k: int, i: int|
        0 <= k < rows.len() && readable(#[trigger] rows[k]) && !told.contains(task_of(rows[k]))
            && 0 <= i < told.len() implies (#[trigger] told[i]).created_at > rows[k].created_at || (
    told[i].created_at == rows[k].created_at && !text_before(told[i].id, rows[k].id)) by {
        let t = task_of(rows[k]);
        assert(rows.contains(rows[k]));
        lemma_filter_contains(rows, keep, rows[k]);
        let kept = rows.filter(keep);
        let q = choose|q: int| 0 <= q < kept.len() && kept[q] == rows[k];
        assert(read[q] == t);
        lemma_sorted_contains(f, read, t);
        let p = choose|p: int| 0 <= p < all.len() && all[p] == t;
        if p < told.len() {
            assert(told[p] == t);
        }
        assert(!f(all[p], all[i]));
        law_task_says_what_is_stored(rows[k]);
    }
}

proof fn lemma_newest_first()
    ensures
        is_order(newest_first()),
{
    let f = newest_first();
    assert forall|a: TaskView, b: TaskView| #[trigger] f(a, b) implies !f(b, a) by {
        lemma_text_order(a.id, b.id, a.id);
        lemma_text_order(b.id, a.id, a.id);
    }
    assert forall|a: TaskView, b: TaskView, c: TaskView| #[trigger] f(a, b) && !#[trigger] f(
        c,
        b,
    ) implies f(a, c) by {
        lemma_text_order(b.id, a.id, c.id);
        lemma_text_order(c.id, a.id, b.id);
        lemma_text_order(b.id, c.id, a.id);
    }
}

/// The ids that one request looks up: the first ones, up to the bound.
pub fn capped_task_ids(ids: &[String]) -> (r: Vec<String>)
    ensures
        r@ == first_of(ids@, MAX_TASK_ID_LOOKUP as int),
{
    let mut r: Vec<String> = Vec::new();
    let mut i: usize = 0;
    while i < ids.len() && i < MAX_TASK_ID_LOOKUP
        invariant
            i <= ids@.len(),
            i <= MAX_TASK_ID_LOOKUP,
            r@ == ids@.take(i as int),
        decreases ids@.len() - i,
    {
        r.push(ids[i].clone());
        i = i + 1;
        assert(r@ =~= ids@.take(i as int));
    }
    assert(r@ =~= first_of(ids@, MAX_TASK_ID_LOOKUP as int));
    r
}

/// The cursor of a page is its last item, and is there exactly where more may follow.
pub proof fn law_cursor_names_the_last_item(page: ActivityPage)
    requires
        names_cursor(page),
    ensures
        page.next_cursor is Some <==> page.has_more && page.items@.len() > 0,
        page.next_cursor matches Some(c) ==> c.id@ == page.items@[page.items@.len() - 1].id@
            && c.ts == page.items@[page.items@.len() - 1].created_at,
{
}

/// At most two hundred tasks are looked up at once: the first of those that were named.
pub proof fn law_lookup_is_capped(ids: Seq<String>)
    ensures
        first_of(ids, MAX_TASK_ID_LOOKUP as int).len() <= 200,
        ids.len() <= 200 ==> first_of(ids, MAX_TASK_ID_LOOKUP as int) == ids,
        ids.len() > 200 ==> first_of(ids, MAX_TASK_ID_LOOKUP as int) == ids.take(200),
{
}

/// An item shows what it holds: its id, its time, and the message or the task.
pub proof fn law_item_shows_its_fields(items: Seq<ActivityItem>, i: int)
    requires
        0 <= i < items.len(),
    ensures
        item_views(items).len() == items.len(),
        item_views(items)[i].id == items[i].id@,
        item_views(items)[i].created_at == items[i].created_at,
        items[i].body matches ActivityBody::Message(m) ==> item_views(items)[i].body
            == BodyView::Message(m),
        items[i].body matches ActivityBody::Task(t) ==> item_views(items)[i].body
            == BodyView::Task(t@),
{
}

} // verus!
