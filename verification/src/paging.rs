//! Reading the activity feed to its end, page after page.
use crate::activity::{
    feed_order, item_views, key_before, names_cursor, law_merged_page_is_complete, lemma_feed_order,
    may_have_more, message_item, message_items, shown, task_item, task_items, ActivityKind,
    ActivityPage, ItemView, MailboxMessageRow, PageDirection,
};
use crate::order::{
    first_of, in_order, law_sorted_in_order, law_sorted_keeps_values, lemma_filter_all,
    lemma_filter_in_order, lemma_filter_is_suffix, lemma_filter_map, lemma_sorted_filter,
};
use crate::task::{readable, RowView};
use crate::text::lemma_text_order;
use vstd::prelude::*;

verus! {

/// Where an item stands in the feed.
pub struct FeedKey {
    pub ts: int,
    pub id: Seq<char>,
}

pub open spec fn key_of(i: ItemView) -> FeedKey {
    FeedKey { ts: i.created_at, id: i.id }
}

/// The item stands behind the cursor, in the direction of the page; without a
/// cursor every item does.
pub open spec fn beyond(d: PageDirection, cursor: Option<FeedKey>) -> spec_fn(ItemView) -> bool {
    |i: ItemView|
        match cursor {
            None => true,
            Some(k) => match d {
                PageDirection::Asc => key_before(k.ts, k.id, i.created_at, i.id),
                PageDirection::Desc => key_before(i.created_at, i.id, k.ts, k.id),
            },
        }
}

/// All that a team has, and how its feed is read.
pub struct Feed {
    pub kind: ActivityKind,
    pub direction: PageDirection,
    pub messages: Seq<MailboxMessageRow>,
    pub tasks: Seq<RowView>,
    pub limit: int,
}

impl Feed {
    /// The whole feed.
    pub open spec fn items(self) -> Seq<ItemView> {
        shown(self.kind, self.direction, self.messages, self.tasks)
    }

    /// The messages that are fetched for the page behind the cursor.
    pub open spec fn fetched_messages(self, cursor: Option<FeedKey>) -> Seq<MailboxMessageRow> {
        first_of(
            self.messages.filter(
                |m: MailboxMessageRow| beyond(self.direction, cursor)(message_item(m)),
            ),
            self.limit,
        )
    }

    /// The tasks that are fetched for the page behind the cursor.
    pub open spec fn fetched_tasks(self, cursor: Option<FeedKey>) -> Seq<RowView> {
        first_of(
            self.tasks.filter(|r: RowView| beyond(self.direction, cursor)(task_item(r))),
            self.limit,
        )
    }

    /// The page behind the cursor.
    pub open spec fn page(self, cursor: Option<FeedKey>) -> Seq<ItemView> {
        first_of(
            shown(
                self.kind,
                self.direction,
                self.fetched_messages(cursor),
                self.fetched_tasks(cursor),
            ),
            self.limit,
        )
    }

    /// The page behind the cursor names a cursor for the next one.
    pub open spec fn goes_on(self, cursor: Option<FeedKey>) -> bool {
        self.page(cursor).len() > 0 && may_have_more(
            self.kind,
            self.direction,
            self.fetched_messages(cursor),
            self.fetched_tasks(cursor),
            self.limit,
        )
    }

    /// What a reader has seen who follows the cursors over so many pages.
    pub open spec fn walk(self, cursor: Option<FeedKey>, pages: nat) -> Seq<ItemView>
        decreases pages,
    {
        if pages == 0 {
            Seq::empty()
        } else if self.goes_on(cursor) {
            self.page(cursor) + self.walk(
                Some(key_of(self.page(cursor).last())),
                (pages - 1) as nat,
            )
        } else {
            self.page(cursor)
        }
    }

    /// One of so many pages is the last: it names no cursor.
    pub open spec fn ends(self, cursor: Option<FeedKey>, pages: nat) -> bool
        decreases pages,
    {
        pages > 0 && (self.goes_on(cursor) ==> self.ends(
            Some(key_of(self.page(cursor).last())),
            (pages - 1) as nat,
        ))
    }

    /// The rows come in the order of the feed, no two items of the feed share
    /// their time and id, and every task that it shows can be read.
    pub open spec fn well_kept(self) -> bool {
        let f = feed_order(self.direction);
        &&& self.limit > 0
        &&& self.kind != ActivityKind::Task ==> in_order(f, message_items(self.messages))
        &&& self.kind != ActivityKind::Message ==> in_order(f, task_items(self.tasks)) && forall|
            i: int,
        |
            0 <= i < self.tasks.len() ==> readable(#[trigger] self.tasks[i])
        &&& forall|i: int, j: int|
            0 <= i < j < self.items().len() ==> key_of(#[trigger] self.items()[i]) != key_of(
                #[trigger] self.items()[j],
            )
    }
}

/// A page that was made of what is fetched behind a cursor names its last item
/// as the next cursor, exactly where the reading goes on.
pub proof fn law_cursor_leads_to_the_next_page(
    q: Feed,
    cursor: Option<FeedKey>,
    page: ActivityPage,
)
    requires
        item_views(page.items@) == q.page(cursor),
        page.has_more == may_have_more(
            q.kind,
            q.direction,
            q.fetched_messages(cursor),
            q.fetched_tasks(cursor),
            q.limit,
        ),
        names_cursor(page),
    ensures
        page.next_cursor is Some <==> q.goes_on(cursor),
        page.next_cursor matches Some(c) ==> (FeedKey { ts: c.ts as int, id: c.id@ }) == key_of(
            q.page(cursor).last(),
        ),
{
    assert(item_views(page.items@).len() == page.items@.len());
}

/// The tasks of rows that can all be read, behind a cursor.
proof fn lemma_task_items_beyond(v: Seq<RowView>, b: spec_fn(ItemView) -> bool, n: int)
    requires
        n > 0,
        forall|i: int| 0 <= i < v.len() ==> readable(#[trigger] v[i]),
    ensures
        task_items(first_of(v.filter(|r: RowView| b(task_item(r))), n)) == first_of(
            task_items(v).filter(b),
            n,
        ),
{
    let keep = |r: RowView| readable(r);
    let g = |r: RowView| task_item(r);
    let pb = |r: RowView| b(task_item(r));
    lemma_filter_all(v, keep);
    lemma_filter_map(v, g, b);
    assert((|r: RowView| b(g(r))) =~= pb);
    let left = v.filter(pb);
    let cut = first_of(left, n);
    lemma_filtered_from(v, pb);
    assert forall|i: int| 0 <= i < cut.len() implies keep(#[trigger] cut[i]) by {
        assert(cut[i] == left[i]);
    }
    lemma_filter_all(cut, keep);
    assert(cut.map_values(g) =~= first_of(left.map_values(g), n));
}

proof fn lemma_filtered_from(v: Seq<RowView>, p: spec_fn(RowView) -> bool)
    requires
        forall|i: int| 0 <= i < v.len() ==> readable(#[trigger] v[i]),
    ensures
        forall|i: int| 0 <= i < v.filter(p).len() ==> readable(#[trigger] v.filter(p)[i]),
    decreases v.len(),
{
    reveal(Seq::filter);
    if v.len() > 0 {
        let front = v.drop_last();
        assert forall|i: int| 0 <= i < front.len() implies readable(#[trigger] front[i]) by {
            assert(front[i] == v[i]);
        }
        lemma_filtered_from(front, p);
        assert forall|i: int| 0 <= i < v.filter(p).len() implies readable(
            #[trigger] v.filter(p)[i],
        ) by {
            if i < front.filter(p).len() {
                assert(v.filter(p)[i] == front.filter(p)[i]);
            } else {
                assert(v.filter(p)[i] == v[v.len() - 1]);
            }
        }
    }
}

proof fn lemma_message_items_beyond(
    v: Seq<MailboxMessageRow>,
    b: spec_fn(ItemView) -> bool,
    n: int,
)
    requires
        n > 0,
    ensures
        message_items(first_of(v.filter(|m: MailboxMessageRow| b(message_item(m))), n)) == first_of(
            message_items(v).filter(b),
            n,
        ),
{
    let g = |m: MailboxMessageRow| message_item(m);
    let pb = |m: MailboxMessageRow| b(message_item(m));
    lemma_filter_map(v, g, b);
    assert((|m: MailboxMessageRow| b(g(m))) =~= pb);
    let left = v.filter(pb);
    assert(first_of(left, n).map_values(g) =~= first_of(left.map_values(g), n));
}

/// The page behind a cursor holds the first of all items that stand behind it,
/// and one that goes on nowhere holds all of them.
pub proof fn law_page_is_the_next_stretch(q: Feed, cursor: Option<FeedKey>)
    requires
        q.well_kept(),
    ensures
        q.page(cursor) == first_of(q.items().filter(beyond(q.direction, cursor)), q.limit),
        !q.goes_on(cursor) ==> q.page(cursor) == q.items().filter(beyond(q.direction, cursor)),
{
    let f = feed_order(q.direction);
    let b = beyond(q.direction, cursor);
    let ms = message_items(q.messages);
    let ts = task_items(q.tasks);
    let fm = q.fetched_messages(cursor);
    let ft = q.fetched_tasks(cursor);
    let rest = q.items().filter(b);
    lemma_feed_order(q.direction);
    if q.kind != ActivityKind::Task {
        lemma_message_items_beyond(q.messages, b, q.limit);
    }
    if q.kind != ActivityKind::Message {
        lemma_task_items_beyond(q.tasks, b, q.limit);
        lemma_task_len(ft, q.tasks, b, q.limit);
    }
    match q.kind {
        ActivityKind::Message => {
            assert(fm.len() == message_items(fm).len());
        },
        ActivityKind::Task => {},
        ActivityKind::All => {
            assert(fm.len() == message_items(fm).len());
            lemma_filter_in_order(f, ms, b);
            lemma_filter_in_order(f, ts, b);
            law_merged_page_is_complete(q.direction, ms.filter(b), ts.filter(b), q.limit);
            lemma_filter_sum(ms, ts, b);
            lemma_sorted_filter(f, ms + ts, b);
            law_sorted_keeps_values(f, message_items(fm) + task_items(ft));
        },
    }
}

proof fn lemma_filter_sum(x: Seq<ItemView>, y: Seq<ItemView>, b: spec_fn(ItemView) -> bool)
    ensures
        (x + y).filter(b) == x.filter(b) + y.filter(b),
    decreases y.len(),
{
    reveal(Seq::filter);
    if y.len() == 0 {
        assert(x + y =~= x);
        assert(x.filter(b) + y.filter(b) =~= x.filter(b));
    } else {
        assert((x + y).drop_last() =~= x + y.drop_last());
        lemma_filter_sum(x, y.drop_last(), b);
        assert((x + y).filter(b) =~= x.filter(b) + y.filter(b));
    }
}

/// As many rows were fetched as their items are.
proof fn lemma_task_len(
    ft: Seq<RowView>,
    tasks: Seq<RowView>,
    b: spec_fn(ItemView) -> bool,
    n: int,
)
    requires
        n > 0,
        forall|i: int| 0 <= i < tasks.len() ==> readable(#[trigger] tasks[i]),
        ft == first_of(tasks.filter(|r: RowView| b(task_item(r))), n),
    ensures
        ft.len() == task_items(ft).len(),
{
    let pb = |r: RowView| b(task_item(r));
    lemma_filtered_from(tasks, pb);
    assert forall|i: int| 0 <= i < ft.len() implies readable(#[trigger] ft[i]) by {
        assert(ft[i] == tasks.filter(pb)[i]);
    }
    lemma_filter_all(ft, |r: RowView| readable(r));
}

/// Of two items that do not share time and id, one stands before the other.
proof fn lemma_feed_total(d: PageDirection, a: ItemView, b: ItemView)
    requires
        key_of(a) != key_of(b),
    ensures
        feed_order(d)(a, b) || feed_order(d)(b, a),
{
    lemma_text_order(a.id, b.id, a.id);
    lemma_text_order(b.id, a.id, a.id);
}

proof fn lemma_items_in_order(q: Feed)
    requires
        q.well_kept(),
    ensures
        in_order(feed_order(q.direction), q.items()),
        forall|i: int, j: int|
            0 <= i < j < q.items().len() ==> feed_order(q.direction)(
                #[trigger] q.items()[i],
                #[trigger] q.items()[j],
            ),
{
    let f = feed_order(q.direction);
    let s = q.items();
    lemma_feed_order(q.direction);
    if q.kind == ActivityKind::All {
        law_sorted_in_order(f, message_items(q.messages) + task_items(q.tasks));
    }
    assert forall|i: int, j: int| 0 <= i < j < s.len() implies f(
        #[trigger] s[i],
        #[trigger] s[j],
    ) by {
        lemma_feed_total(q.direction, s[i], s[j]);
    }
}

/// The cursor behind the first `p` items.
spec fn cursor_at(q: Feed, p: int) -> Option<FeedKey> {
    if p == 0 {
        None
    } else {
        Some(key_of(q.items()[p - 1]))
    }
}

proof fn lemma_behind(q: Feed, p: int)
    requires
        q.well_kept(),
        0 <= p <= q.items().len(),
    ensures
        q.items().filter(beyond(q.direction, cursor_at(q, p))) == q.items().skip(p),
{
    let s = q.items();
    let f = feed_order(q.direction);
    let b = beyond(q.direction, cursor_at(q, p));
    lemma_items_in_order(q);
    lemma_feed_order(q.direction);
    assert forall|i: int| 0 <= i < p implies !b(#[trigger] s[i]) by {
        assert(b(s[i]) == f(s[p - 1], s[i]));
        if i < p - 1 {
            assert(f(s[i], s[p - 1]));
        } else {
            assert(f(s[i], s[i]) ==> !f(s[i], s[i]));
        }
    }
    assert forall|i: int| p <= i < s.len() implies b(#[trigger] s[i]) by {
        if p > 0 {
            assert(f(s[p - 1], s[i]));
        }
    }
    lemma_filter_is_suffix(s, b, p);
}

proof fn lemma_walk(q: Feed, p: int, pages: nat)
    requires
        q.well_kept(),
        0 <= p <= q.items().len(),
        pages > q.items().len() - p,
    ensures
        q.walk(cursor_at(q, p), pages) == q.items().skip(p),
        q.ends(cursor_at(q, p), pages),
    decreases pages,
{
    let s = q.items();
    let c = cursor_at(q, p);
    law_page_is_the_next_stretch(q, c);
    lemma_behind(q, p);
    let here = q.page(c);
    if q.goes_on(c) {
        let n = here.len() as int;
        assert(here.last() == s[p + n - 1]);
        assert(Some(key_of(here.last())) == cursor_at(q, p + n));
        lemma_walk(q, p + n, (pages - 1) as nat);
        assert(here + s.skip(p + n) =~= s.skip(p));
    }
}

/// A reader who follows the cursors from the first page on comes to an end, and
/// has then seen the whole feed, each item once and in order.
pub proof fn law_pages_cover_the_feed(q: Feed, pages: nat)
    requires
        q.well_kept(),
        pages > q.items().len(),
    ensures
        q.walk(None, pages) == q.items(),
        q.ends(None, pages),
{
    lemma_walk(q, 0, pages);
    assert(q.items().skip(0) =~= q.items());
}

} // verus!
