//! Stopping teams that have nothing left to do.
use crate::runtime::{SessionStatus, StatusText, TeamSessionStatus};
use crate::search::lemma_filter_same;
use crate::sessions::{at, SessionInfo, TeamSessionService};
use crate::text::{same_text, text_listed, texts};
use vstd::prelude::*;

verus! {

/// What the runtime of a conversation is doing.
#[derive(Debug, Clone, Copy, PartialEq, Eq, Structural)]
pub enum ConversationStatus {
    Pending,
    Running,
    Finished,
}

/// The running task of a member.
#[derive(Debug, Clone, Copy)]
pub struct MemberTask {
    pub status: Option<ConversationStatus>,
    pub last_activity_at: i64,
}

/// The difference, kept within the numbers of the type.
pub open spec fn elapsed(now: int, then: int) -> int {
    if now - then > i64::MAX {
        i64::MAX as int
    } else if now - then < i64::MIN {
        i64::MIN as int
    } else {
        now - then
    }
}

/// The task does nothing, and has done nothing for longer than the threshold.
pub open spec fn collectable(task: MemberTask, now: int, threshold: int) -> bool {
    &&& task.status != Some(ConversationStatus::Running)
    &&& elapsed(now, task.last_activity_at as int) > threshold
}

pub fn is_idle_collectable_team_member(task: &MemberTask, now: i64, idle_threshold_ms: i64) -> (r:
    bool)
    ensures
        r == collectable(*task, now as int, idle_threshold_ms as int),
{
    match task.status {
        Some(ConversationStatus::Running) => false,
        _ => {
            let diff: i128 = now as i128 - task.last_activity_at as i128;
            let capped: i128 = if diff > i64::MAX as i128 {
                i64::MAX as i128
            } else if diff < i64::MIN as i128 {
                i64::MIN as i128
            } else {
                diff
            };
            capped > idle_threshold_ms as i128
        },
    }
}

/// A member of a running session: its conversation, whether somebody holds a
/// lease on it, and its task if it has one.
#[derive(Debug)]
pub struct MemberActivity {
    pub conversation_id: String,
    pub leased: bool,
    pub task: Option<MemberTask>,
}

/// What a running session is doing.
#[derive(Debug)]
pub struct SessionActivity {
    pub session: SessionInfo,
    pub run_active: bool,
    pub members: Vec<MemberActivity>,
}

/// The session has a member with that conversation.
pub open spec fn has_conversation(s: SessionActivity, id: Seq<char>) -> bool {
    exists|i: int| 0 <= i < s.members@.len() && (#[trigger] s.members@[i]).conversation_id@ == id
}

/// One of the idle conversations belongs to the session.
pub open spec fn concerned(s: SessionActivity, idle: Seq<Seq<char>>) -> bool {
    exists|i: int|
        0 <= i < s.members@.len() && idle.contains((#[trigger] s.members@[i]).conversation_id@)
}

/// The member holds nothing up: no lease, and no task but an idle one.
pub open spec fn at_rest(m: MemberActivity, now: int, threshold: int) -> bool {
    !m.leased && (m.task matches Some(t) ==> collectable(t, now, threshold))
}

/// The session is stopped: an idle conversation is one of its own, no run is
/// active, and all its members are at rest.
pub open spec fn to_stop(s: SessionActivity, idle: Seq<Seq<char>>, now: int, threshold: int) -> bool {
    &&& concerned(s, idle)
    &&& !s.run_active
    &&& forall|i: int|
        0 <= i < s.members@.len() ==> at_rest(#[trigger] s.members@[i], now, threshold)
}

/// Some session with an idle conversation answers for the conversation.
pub open spec fn handled(all: Seq<SessionActivity>, idle: Seq<Seq<char>>, id: Seq<char>) -> bool {
    exists|i: int|
        0 <= i < all.len() && concerned(#[trigger] all[i], idle) && has_conversation(all[i], id)
}

/// The positions, in order, of the sessions to stop.
pub open spec fn stop_list(
    all: Seq<SessionActivity>,
    idle: Seq<Seq<char>>,
    now: int,
    threshold: int,
) -> Seq<int>
    decreases all.len(),
{
    if all.len() == 0 {
        Seq::empty()
    } else {
        let front = stop_list(all.drop_last(), idle, now, threshold);
        if to_stop(all.last(), idle, now, threshold) {
            front.push(all.len() - 1)
        } else {
            front
        }
    }
}

/// A session that was stopped.
#[derive(Debug)]
pub struct StoppedTeam {
    /// Where it stands in what was looked at.
    pub position: usize,
    /// The session that was taken down, whose owner hears of it; `None` where none
    /// ran any more.
    pub session: Option<SessionInfo>,
    /// What its owner hears.
    pub status: SessionStatus,
    /// The conversations of all its members, whose processes end.
    pub conversations: Vec<String>,
}

/// The sessions that were stopped, and the idle conversations that no session
/// answers for.
#[derive(Debug)]
pub struct IdleCleanup {
    pub stopped: Vec<StoppedTeam>,
    pub unhandled: Vec<String>,
}

pub open spec fn positions(v: Seq<StoppedTeam>) -> Seq<int> {
    v.map_values(|t: StoppedTeam| t.position as int)
}

/// The status of a session that was stopped.
pub open spec fn stopped_for_good() -> SessionStatus {
    SessionStatus {
        status: TeamSessionStatus::Stopped,
        phase: None,
        text: StatusText::Nothing,
        server_count: None,
    }
}

/// The conversations of all members of a session, in the order of its roster.
pub open spec fn conversations_in(s: SessionActivity) -> Seq<Seq<char>> {
    s.members@.map_values(|m: MemberActivity| m.conversation_id@)
}

fn all_conversations(s: &SessionActivity) -> (r: Vec<String>)
    ensures
        texts(r@) == conversations_in(*s),
{
    let mut r: Vec<String> = Vec::new();
    let mut i: usize = 0;
    while i < s.members.len()
        invariant
            i <= s.members@.len(),
            r@.len() == i,
            forall|k: int| 0 <= k < i ==> (#[trigger] r@[k])@ == s.members@[k].conversation_id@,
        decreases s.members@.len() - i,
    {
        r.push(s.members[i].conversation_id.clone());
        i = i + 1;
    }
    assert(texts(r@) =~= conversations_in(*s));
    r
}

/// What is done about the `k`th of the sessions that were stopped: what runs
/// under its engagement by then is taken down and announced as stopped, and the
/// processes of all its members end.
pub open spec fn is_ended(
    t: StoppedTeam,
    before: Map<Seq<char>, SessionInfo>,
    all: Seq<SessionActivity>,
    order: Seq<int>,
    k: int,
) -> bool {
    let seen = all[order[k]];
    &&& t.position == order[k]
    &&& t.session == at(
        without_positions(before, all, order.take(k)),
        seen.session.engagement_id@,
    )
    &&& t.status == stopped_for_good()
    &&& texts(t.conversations@) == conversations_in(seen)
}

fn is_concerned(s: &SessionActivity, idle: &[String]) -> (r: bool)
    ensures
        r == concerned(*s, texts(idle@)),
{
    let mut i: usize = 0;
    while i < s.members.len()
        invariant
            i <= s.members@.len(),
            forall|k: int|
                0 <= k < i ==> !texts(idle@).contains((#[trigger] s.members@[k]).conversation_id@),
        decreases s.members@.len() - i,
    {
        if text_listed(idle, s.members[i].conversation_id.as_str()) {
            return true;
        }
        i = i + 1;
    }
    false
}

fn is_at_rest(m: &MemberActivity, now: i64, threshold: i64) -> (r: bool)
    ensures
        r == at_rest(*m, now as int, threshold as int),
{
    !m.leased && match &m.task {
        Some(t) => is_idle_collectable_team_member(t, now, threshold),
        None => true,
    }
}

fn stops(s: &SessionActivity, idle: &[String], now: i64, threshold: i64) -> (r: bool)
    ensures
        r == to_stop(*s, texts(idle@), now as int, threshold as int),
{
    if !is_concerned(s, idle) || s.run_active {
        return false;
    }
    let mut i: usize = 0;
    while i < s.members.len()
        invariant
            i <= s.members@.len(),
            forall|k: int|
                0 <= k < i ==> at_rest(#[trigger] s.members@[k], now as int, threshold as int),
        decreases s.members@.len() - i,
    {
        if !is_at_rest(&s.members[i], now, threshold) {
            return false;
        }
        i = i + 1;
    }
    true
}

fn holds_conversation(s: &SessionActivity, id: &str) -> (r: bool)
    ensures
        r == has_conversation(*s, id@),
{
    let mut i: usize = 0;
    while i < s.members.len()
        invariant
            i <= s.members@.len(),
            forall|k: int| 0 <= k < i ==> (#[trigger] s.members@[k]).conversation_id@ != id@,
        decreases s.members@.len() - i,
    {
        if same_text(s.members[i].conversation_id.as_str(), id) {
            return true;
        }
        i = i + 1;
    }
    false
}

fn is_handled(all: &[SessionActivity], idle: &[String], id: &str) -> (r: bool)
    ensures
        r == handled(all@, texts(idle@), id@),
{
    let mut i: usize = 0;
    while i < all.len()
        invariant
            i <= all@.len(),
            forall|k: int|
                0 <= k < i ==> !(concerned(#[trigger] all@[k], texts(idle@)) && has_conversation(
                    all@[k],
                    id@,
                )),
        decreases all@.len() - i,
    {
        if is_concerned(&all[i], idle) && holds_conversation(&all[i], id) {
            return true;
        }
        i = i + 1;
    }
    false
}

fn unhandled_ids(all: &[SessionActivity], idle: &[String]) -> (r: Vec<String>)
    ensures
        texts(r@) == texts(idle@).filter(|id: Seq<char>| !handled(all@, texts(idle@), id)),
{
    let ghost ids = texts(idle@);
    let ghost keep = |id: Seq<char>| !handled(all@, texts(idle@), id);
    let mut r: Vec<String> = Vec::new();
    let mut i: usize = 0;
    proof {
        reveal(Seq::filter);
        assert(ids.take(0).filter(keep) =~= Seq::<Seq<char>>::empty());
        assert(texts(r@) =~= Seq::<Seq<char>>::empty());
    }
    while i < idle.len()
        invariant
            i <= idle@.len(),
            ids == texts(idle@),
            keep == (|id: Seq<char>| !handled(all@, texts(idle@), id)),
            texts(r@) == ids.take(i as int).filter(keep),
        decreases idle@.len() - i,
    {
        proof {
            reveal(Seq::filter);
            assert(ids.take(i + 1).drop_last() =~= ids.take(i as int));
            assert(ids.take(i + 1).last() == idle@[i as int]@);
        }
        if !is_handled(all, idle, idle[i].as_str()) {
            let ghost before = texts(r@);
            r.push(idle[i].clone());
            assert(texts(r@) =~= before.push(idle@[i as int]@));
        }
        i = i + 1;
    }
    assert(ids.take(i as int) =~= ids);
    r
}

/// The keys of the sessions at those positions, taken out of the map.
pub open spec fn without_positions(
    m: Map<Seq<char>, SessionInfo>,
    all: Seq<SessionActivity>,
    at: Seq<int>,
) -> Map<Seq<char>, SessionInfo>
    decreases at.len(),
{
    if at.len() == 0 {
        m
    } else {
        without_positions(m, all, at.drop_last()).remove(all[at.last()].session.engagement_id@)
    }
}

proof fn lemma_stop_list_range(
    all: Seq<SessionActivity>,
    idle: Seq<Seq<char>>,
    now: int,
    threshold: int,
)
    ensures
        forall|k: int|
            0 <= k < stop_list(all, idle, now, threshold).len() ==> 0 <= #[trigger] stop_list(
                all,
                idle,
                now,
                threshold,
            )[k] < all.len() && to_stop(
                all[stop_list(all, idle, now, threshold)[k]],
                idle,
                now,
                threshold,
            ),
    decreases all.len(),
{
    if all.len() > 0 {
        lemma_stop_list_range(all.drop_last(), idle, now, threshold);
        let front = stop_list(all.drop_last(), idle, now, threshold);
        let s = stop_list(all, idle, now, threshold);
        assert forall|k: int| 0 <= k < s.len() implies 0 <= #[trigger] s[k] < all.len() && to_stop(
            all[s[k]],
            idle,
            now,
            threshold,
        ) by {
            if k < front.len() {
                assert(s[k] == front[k]);
                assert(all.drop_last()[front[k]] == all[front[k]]);
            }
        }
    }
}

impl TeamSessionService {
    /// Stops the sessions of which a conversation is idle and that have
    /// nothing left to do. An idle conversation of a session that runs on is
    /// left to that session; what belongs to no session is handed back.
    pub fn cleanup_idle_team_runtime_tasks(
        &mut self,
        idle_conversation_ids: &[String],
        activity: &[SessionActivity],
        now: i64,
        idle_threshold_ms: i64,
    ) -> (r: IdleCleanup)
        ensures
            positions(r.stopped@) == stop_list(
                activity@,
                texts(idle_conversation_ids@),
                now as int,
                idle_threshold_ms as int,
            ),
            final(self).sessions() == without_positions(
                old(self).sessions(),
                activity@,
                positions(r.stopped@),
            ),
            forall|k: int|
                0 <= k < r.stopped@.len() ==> is_ended(
                    #[trigger] r.stopped@[k],
                    old(self).sessions(),
                    activity@,
                    positions(r.stopped@),
                    k,
                ),
            texts(r.unhandled@) == texts(idle_conversation_ids@).filter(
                |id: Seq<char>| !handled(activity@, texts(idle_conversation_ids@), id),
            ),
            forall|i: int|
                0 <= i < activity@.len() ==> ((exists|k: int|
                    0 <= k < r.stopped@.len() && (#[trigger] r.stopped@[k]).position == i)
                    <==> nothing_left(
                    #[trigger] activity@[i],
                    texts(idle_conversation_ids@),
                    now as int,
                    idle_threshold_ms as int,
                )),
            forall|i: int|
                0 <= i < activity@.len() && nothing_left(
                    #[trigger] activity@[i],
                    texts(idle_conversation_ids@),
                    now as int,
                    idle_threshold_ms as int,
                ) ==> !final(self).sessions().dom().contains(activity@[i].session.engagement_id@),
    {
        let ghost idle = texts(idle_conversation_ids@);
        let ghost m = self.sessions();
        let mut stopped: Vec<StoppedTeam> = Vec::new();
        let mut i: usize = 0;
        assert(positions(stopped@) =~= Seq::<int>::empty());
        while i < activity.len()
            invariant
                i <= activity@.len(),
                idle == texts(idle_conversation_ids@),
                positions(stopped@) == stop_list(
                    activity@.take(i as int),
                    idle,
                    now as int,
                    idle_threshold_ms as int,
                ),
                self.sessions() == without_positions(m, activity@, positions(stopped@)),
                forall|k: int|
                    0 <= k < stopped@.len() ==> is_ended(
                        #[trigger] stopped@[k],
                        m,
                        activity@,
                        positions(stopped@),
                        k,
                    ),
            decreases activity@.len() - i,
        {
            proof {
                assert(activity@.take(i + 1).drop_last() =~= activity@.take(i as int));
                assert(activity@.take(i + 1).last() == activity@[i as int]);
            }
            if stops(&activity[i], idle_conversation_ids, now, idle_threshold_ms) {
                let ghost before = positions(stopped@);
                let ghost so_far = stopped@;
                let session = self.stop_session_unchecked(
                    activity[i].session.engagement_id.as_str(),
                );
                let status = SessionStatus {
                    status: TeamSessionStatus::Stopped,
                    phase: None,
                    text: StatusText::Nothing,
                    server_count: None,
                };
                let conversations = all_conversations(&activity[i]);
                stopped.push(StoppedTeam { position: i, session, status, conversations });
                proof {
                    let order = positions(stopped@);
                    assert(order =~= before.push(i as int));
                    assert(before.push(i as int).drop_last() =~= before);
                    assert forall|k: int| 0 <= k < stopped@.len() implies is_ended(
                        #[trigger] stopped@[k],
                        m,
                        activity@,
                        order,
                        k,
                    ) by {
                        assert(order.take(k) =~= before.take(k));
                        if k < so_far.len() {
                            assert(stopped@[k] == so_far[k]);
                            assert(order[k] == before[k]);
                        } else {
                            assert(before.take(k) =~= before);
                        }
                    }
                }
            }
            i = i + 1;
        }
        assert(activity@.take(i as int) =~= activity@);
        let unhandled = unhandled_ids(activity, idle_conversation_ids);
        proof {
            let order = positions(stopped@);
            assert forall|i: int| 0 <= i < activity@.len() implies ((exists|k: int|
                0 <= k < stopped@.len() && (#[trigger] stopped@[k]).position == i)
                <==> nothing_left(
                #[trigger] activity@[i],
                idle,
                now as int,
                idle_threshold_ms as int,
            )) && (nothing_left(activity@[i], idle, now as int, idle_threshold_ms as int)
                ==> !self.sessions().dom().contains(activity@[i].session.engagement_id@)) by {
                law_sweep_stops_all_at_rest(
                    activity@,
                    idle,
                    now as int,
                    idle_threshold_ms as int,
                    i,
                );
                if order.contains(i) {
                    let k = choose|k: int| 0 <= k < order.len() && order[k] == i;
                    assert(stopped@[k].position == i);
                    law_swept_sessions_are_gone(
                        m,
                        activity@,
                        order,
                        activity@[i].session.engagement_id@,
                    );
                }
                if exists|k: int|
                    0 <= k < stopped@.len() && (#[trigger] stopped@[k]).position == i {
                    let k = choose|k: int|
                        0 <= k < stopped@.len() && (#[trigger] stopped@[k]).position == i;
                    assert(order[k] == i);
                }
            }
        }
        IdleCleanup { stopped, unhandled }
    }
}

/// Nothing is left to do in a session with an idle conversation: no run is active,
/// nobody holds a lease on a member, and each member that has a task has let more
/// time pass than the threshold without running. Time is counted up to the largest
/// number of its type, which no threshold can be exceeded by.
pub open spec fn nothing_left(
    s: SessionActivity,
    idle: Seq<Seq<char>>,
    now: int,
    threshold: int,
) -> bool {
    &&& exists|i: int|
        0 <= i < s.members@.len() && idle.contains((#[trigger] s.members@[i]).conversation_id@)
    &&& !s.run_active
    &&& forall|i: int|
        0 <= i < s.members@.len() ==> !(#[trigger] s.members@[i]).leased && (
        s.members@[i].task matches Some(t) ==> {
            &&& t.status != Some(ConversationStatus::Running)
            &&& now - t.last_activity_at > threshold
            &&& threshold < i64::MAX
        })
}

/// One sweep stops every session in which nothing is left to do, and no other; it
/// goes through them in the order in which they were looked at, each once.
pub proof fn law_sweep_stops_all_at_rest(
    all: Seq<SessionActivity>,
    idle: Seq<Seq<char>>,
    now: int,
    threshold: int,
    i: int,
)
    requires
        0 <= i < all.len(),
        i64::MIN <= now <= i64::MAX,
        i64::MIN <= threshold <= i64::MAX,
    ensures
        stop_list(all, idle, now, threshold).contains(i) <==> nothing_left(
            all[i],
            idle,
            now,
            threshold,
        ),
        forall|k: int, l: int|
            0 <= k < l < stop_list(all, idle, now, threshold).len() ==> #[trigger] stop_list(
                all,
                idle,
                now,
                threshold,
            )[k] < #[trigger] stop_list(all, idle, now, threshold)[l],
    decreases all.len(),
{
    let list = stop_list(all, idle, now, threshold);
    let front = stop_list(all.drop_last(), idle, now, threshold);
    let last = all.len() - 1;
    lemma_stop_list_range(all.drop_last(), idle, now, threshold);
    assert(to_stop(all[i], idle, now, threshold) <==> nothing_left(
        all[i],
        idle,
        now,
        threshold,
    )) by {
        assert forall|k: int| 0 <= k < all[i].members@.len() implies at_rest(
            #[trigger] all[i].members@[k],
            now,
            threshold,
        ) == (!all[i].members@[k].leased && (all[i].members@[k].task matches Some(t) ==> {
            &&& t.status != Some(ConversationStatus::Running)
            &&& now - t.last_activity_at > threshold
            &&& threshold < i64::MAX
        })) by {}
    }
    if all.len() > 1 {
        let j = if i < last {
            i
        } else {
            0
        };
        law_sweep_stops_all_at_rest(all.drop_last(), idle, now, threshold, j);
        assert(all.drop_last()[j] == all[j]);
    }
    if i < last {
        if front.contains(i) {
            let k = choose|k: int| 0 <= k < front.len() && front[k] == i;
            assert(list[k] == i);
        }
        if list.contains(i) {
            let k = choose|k: int| 0 <= k < list.len() && list[k] == i;
            assert(front[k] == i);
        }
    } else {
        if to_stop(all[i], idle, now, threshold) {
            assert(list[front.len() as int] == i);
        }
        if list.contains(i) && !to_stop(all[i], idle, now, threshold) {
            let k = choose|k: int| 0 <= k < list.len() && list[k] == i;
            assert(front[k] == i);
        }
    }
    assert forall|k: int, l: int| 0 <= k < l < list.len() implies #[trigger] list[k]
        < #[trigger] list[l] by {
        assert(list[k] == front[k]);
        if l < front.len() {
            assert(list[l] == front[l]);
        }
    }
}

/// After a sweep, the engagement of a session that was stopped runs no session, and
/// every other engagement runs what it ran.
pub proof fn law_swept_sessions_are_gone(
    m: Map<Seq<char>, SessionInfo>,
    all: Seq<SessionActivity>,
    swept: Seq<int>,
    engagement: Seq<char>,
)
    ensures
        ({
            let left = without_positions(m, all, swept);
            let hit = exists|k: int|
                0 <= k < swept.len() && all[#[trigger] swept[k]].session.engagement_id@
                    == engagement;
            &&& hit ==> !left.dom().contains(engagement)
            &&& !hit ==> left.dom().contains(engagement) == m.dom().contains(engagement) && (
            m.dom().contains(engagement) ==> left[engagement] == m[engagement])
        }),
    decreases swept.len(),
{
    if swept.len() > 0 {
        let front = swept.drop_last();
        law_swept_sessions_are_gone(m, all, front, engagement);
        let hit = exists|k: int|
            0 <= k < swept.len() && all[#[trigger] swept[k]].session.engagement_id@ == engagement;
        let hit_before = exists|k: int|
            0 <= k < front.len() && all[#[trigger] front[k]].session.engagement_id@ == engagement;
        if hit_before {
            let k = choose|k: int|
                0 <= k < front.len() && all[#[trigger] front[k]].session.engagement_id@
                    == engagement;
            assert(all[swept[k]].session.engagement_id@ == engagement);
        }
        if hit {
            let k = choose|k: int|
                0 <= k < swept.len() && all[#[trigger] swept[k]].session.engagement_id@
                    == engagement;
            if k < front.len() {
                assert(all[front[k]].session.engagement_id@ == engagement);
            }
        } else {
            assert(all[swept[swept.len() - 1]].session.engagement_id@ != engagement);
        }
    }
}

/// Of a stopped session, the one that ran under its engagement is taken down,
/// unless one that was stopped earlier in the sweep had that engagement; its owner
/// hears that it stopped, and each member's process ends, in the order of the
/// roster.
pub proof fn law_stopped_team_is_ended(
    t: StoppedTeam,
    before: Map<Seq<char>, SessionInfo>,
    all: Seq<SessionActivity>,
    order: Seq<int>,
    k: int,
)
    requires
        is_ended(t, before, all, order, k),
        0 <= k < order.len(),
    ensures
        ({
            let seen = all[order[k]];
            let engagement = seen.session.engagement_id@;
            &&& (exists|j: int|
                0 <= j < k && all[#[trigger] order[j]].session.engagement_id@ == engagement)
                ==> t.session is None
            &&& !(exists|j: int|
                0 <= j < k && all[#[trigger] order[j]].session.engagement_id@ == engagement)
                ==> (before.dom().contains(engagement) ==> t.session == Some(before[engagement]))
                && (!before.dom().contains(engagement) ==> t.session is None)
            &&& t.status.status == TeamSessionStatus::Stopped
            &&& t.status.phase is None
            &&& t.status.text == StatusText::Nothing
            &&& t.status.server_count is None
            &&& t.conversations@.len() == seen.members@.len()
            &&& forall|n: int|
                0 <= n < seen.members@.len() ==> (#[trigger] t.conversations@[n])@
                    == seen.members@[n].conversation_id@
        }),
{
    let seen = all[order[k]];
    let engagement = seen.session.engagement_id@;
    let front = order.take(k);
    law_swept_sessions_are_gone(before, all, front, engagement);
    if exists|j: int| 0 <= j < k && all[#[trigger] order[j]].session.engagement_id@ == engagement {
        let j = choose|j: int|
            0 <= j < k && all[#[trigger] order[j]].session.engagement_id@ == engagement;
        assert(all[front[j]].session.engagement_id@ == engagement);
    } else {
        assert forall|j: int| 0 <= j < front.len() implies all[#[trigger] front[j]]
            .session.engagement_id@ != engagement by {
            assert(front[j] == order[j]);
        }
    }
    assert(texts(t.conversations@).len() == conversations_in(seen).len());
    assert forall|n: int| 0 <= n < seen.members@.len() implies (#[trigger] t.conversations@[n])@
        == seen.members@[n].conversation_id@ by {
        assert(texts(t.conversations@)[n] == conversations_in(seen)[n]);
    }
}

/// Of the idle conversations, exactly those are handed back that no member of any
/// session has, in their order.
pub proof fn law_conversations_of_no_session_are_handed_back(
    all: Seq<SessionActivity>,
    idle: Seq<Seq<char>>,
)
    ensures
        idle.filter(|id: Seq<char>| !handled(all, idle, id)) == idle.filter(
            |id: Seq<char>|
                forall|i: int, k: int|
                    0 <= i < all.len() && 0 <= k < all[i].members@.len()
                        ==> (#[trigger] all[i].members@[k]).conversation_id@ != id,
        ),
{
    let p = |id: Seq<char>| !handled(all, idle, id);
    let q = |id: Seq<char>|
        forall|i: int, k: int|
            0 <= i < all.len() && 0 <= k < all[i].members@.len()
                ==> (#[trigger] all[i].members@[k]).conversation_id@ != id;
    assert forall|n: int| 0 <= n < idle.len() implies p(#[trigger] idle[n]) == q(idle[n]) by {
        let id = idle[n];
        assert(idle.contains(id));
        if handled(all, idle, id) {
            let i = choose|i: int|
                0 <= i < all.len() && concerned(#[trigger] all[i], idle) && has_conversation(
                    all[i],
                    id,
                );
            let k = choose|k: int|
                0 <= k < all[i].members@.len() && (#[trigger] all[i].members@[k]).conversation_id@
                    == id;
            assert(all[i].members@[k].conversation_id@ == id);
            assert(!q(id));
        } else {
            assert forall|i: int, k: int|
                0 <= i < all.len() && 0 <= k < all[i].members@.len() implies (
            #[trigger] all[i].members@[k]).conversation_id@ != id by {
                if all[i].members@[k].conversation_id@ == id {
                    assert(concerned(all[i], idle));
                    assert(has_conversation(all[i], id));
                }
            }
        }
    }
    lemma_filter_same(idle, p, q);
}

/// Where a session is stopped, the processes of all its members end: none of
/// its conversations is left out.
pub proof fn law_stopped_team_keeps_no_process(
    t: StoppedTeam,
    before: Map<Seq<char>, SessionInfo>,
    all: Seq<SessionActivity>,
    order: Seq<int>,
    k: int,
    id: Seq<char>,
)
    requires
        is_ended(t, before, all, order, k),
    ensures
        texts(t.conversations@).contains(id) <==> has_conversation(all[order[k]], id),
{
    let s = all[order[k]];
    if has_conversation(s, id) {
        let i = choose|i: int|
            0 <= i < s.members@.len() && (#[trigger] s.members@[i]).conversation_id@ == id;
        assert(conversations_in(s)[i] == id);
    }
    if conversations_in(s).contains(id) {
        let i = choose|i: int| 0 <= i < s.members@.len() && conversations_in(s)[i] == id;
        assert(s.members@[i].conversation_id@ == id);
    }
}

/// A session with an active run, a leased member or a busy member is never
/// stopped.
pub proof fn law_busy_session_runs_on(
    s: SessionActivity,
    idle: Seq<Seq<char>>,
    now: int,
    threshold: int,
    i: int,
)
    requires
        s.run_active || (0 <= i < s.members@.len() && (s.members@[i].leased || (
        s.members@[i].task matches Some(t) && !collectable(t, now, threshold)))),
    ensures
        !to_stop(s, idle, now, threshold),
{
    if 0 <= i < s.members@.len() {
        assert(!at_rest(s.members@[i], now, threshold) || s.run_active);
    }
}

/// Every session on the list of those to stop deserves it: an idle
/// conversation is its own, and everything in it is at rest.
pub proof fn law_stopped_sessions_are_at_rest(
    all: Seq<SessionActivity>,
    idle: Seq<Seq<char>>,
    now: int,
    threshold: int,
    k: int,
)
    requires
        0 <= k < stop_list(all, idle, now, threshold).len(),
    ensures
        0 <= stop_list(all, idle, now, threshold)[k] < all.len(),
        to_stop(all[stop_list(all, idle, now, threshold)[k]], idle, now, threshold),
{
    lemma_stop_list_range(all, idle, now, threshold);
    let s = stop_list(all, idle, now, threshold);
    assert(0 <= s[k] < all.len());
}

/// A conversation that is handed back belongs to no running session.
pub proof fn law_handed_back_belongs_to_none(
    all: Seq<SessionActivity>,
    idle: Seq<Seq<char>>,
    id: Seq<char>,
    i: int,
)
    requires
        idle.contains(id),
        !handled(all, idle, id),
        0 <= i < all.len(),
    ensures
        !has_conversation(all[i], id),
{
    if has_conversation(all[i], id) {
        assert(concerned(all[i], idle));
    }
}

/// Without idle conversations nothing is stopped.
pub proof fn law_nothing_idle_stops_nothing(
    all: Seq<SessionActivity>,
    now: int,
    threshold: int,
)
    ensures
        stop_list(all, Seq::<Seq<char>>::empty(), now, threshold).len() == 0,
    decreases all.len(),
{
    if all.len() > 0 {
        law_nothing_idle_stops_nothing(all.drop_last(), now, threshold);
    }
}

} // verus!
