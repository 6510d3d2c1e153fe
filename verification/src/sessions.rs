//! The sessions that are running, by engagement.
use crate::error::TeamError;
use crate::text::same_text;
use dashmap::DashMap;
use vstd::prelude::*;

verus! {

/// A running session. The generation tells it from any other session that ran
/// or will run under the same engagement.
#[derive(Debug)]
pub struct SessionInfo {
    pub generation: u64,
    pub user_id: String,
    pub team_id: String,
    pub engagement_id: String,
}

impl Clone for SessionInfo {
    fn clone(&self) -> (r: Self)
        ensures
            r == *self,
    {
        SessionInfo {
            generation: self.generation,
            user_id: self.user_id.clone(),
            team_id: self.team_id.clone(),
            engagement_id: self.engagement_id.clone(),
        }
    }
}

/// A session and the key under which it is published.
#[derive(Debug)]
pub struct SessionEntry {
    pub key: String,
    pub session: SessionInfo,
}

/// `dashmap::DashMap`. What one of sessions holds is `published`.
#[verifier::external_type_specification]
#[verifier::external_body]
#[verifier::reject_recursive_types(K)]
#[verifier::reject_recursive_types(V)]
#[verifier::reject_recursive_types(S)]
pub struct ExDashMap<K, V, S>(DashMap<K, V, S>);

/// The sessions that a map holds, by their keys.
pub uninterp spec fn published(m: DashMap<String, SessionInfo>) -> Map<Seq<char>, SessionInfo>;

/// The entries list what the map holds, each key once, in any order.
pub open spec fn lists_all(v: Seq<SessionEntry>, m: Map<Seq<char>, SessionInfo>) -> bool {
    &&& forall|i: int|
        0 <= i < v.len() ==> m.dom().contains((#[trigger] v[i]).key@) && m[v[i].key@]
            == v[i].session
    &&& forall|i: int, j: int|
        0 <= i < j < v.len() ==> (#[trigger] v[i]).key@ != (#[trigger] v[j]).key@
    &&& forall|k: Seq<char>| #[trigger]
        m.dom().contains(k) ==> exists|i: int| 0 <= i < v.len() && (#[trigger] v[i]).key@ == k
}

/// The value under a key.
pub open spec fn at(m: Map<Seq<char>, SessionInfo>, key: Seq<char>) -> Option<SessionInfo> {
    if m.dom().contains(key) {
        Some(m[key])
    } else {
        None
    }
}

pub open spec fn no_sessions() -> Map<Seq<char>, SessionInfo> {
    Map::empty()
}

/// Wraps `DashMap::new`: an empty map.
#[verifier::external_body]
fn new_map() -> (r: DashMap<String, SessionInfo>)
    ensures
        published(r) == no_sessions(),
{
    DashMap::new()
}

/// Wraps `DashMap::insert`: the key holds the value afterwards; what it held
/// before is returned.
#[verifier::external_body]
fn map_insert(m: &mut DashMap<String, SessionInfo>, key: String, value: SessionInfo) -> (r: Option<
    SessionInfo,
>)
    ensures
        published(*final(m)) == published(*old(m)).insert(key@, value),
        r == at(published(*old(m)), key@),
{
    m.insert(key, value)
}

/// Wraps `DashMap::remove`: the key holds nothing afterwards; what it held
/// before is returned.
#[verifier::external_body]
fn map_remove(m: &mut DashMap<String, SessionInfo>, key: &str) -> (r: Option<SessionInfo>)
    ensures
        published(*final(m)) == published(*old(m)).remove(key@),
        r == at(published(*old(m)), key@),
{
    m.remove(key).map(|entry| entry.1)
}

/// Wraps `DashMap::get`: a copy of what the key holds.
#[verifier::external_body]
fn map_get(m: &DashMap<String, SessionInfo>, key: &str) -> (r: Option<SessionInfo>)
    ensures
        r == at(published(*m), key@),
{
    m.get(key).map(|entry| entry.value().clone())
}

/// Wraps `DashMap::iter`: copies of all entries, each once. In which order they
/// come is left open.
#[verifier::external_body]
fn map_entries(m: &DashMap<String, SessionInfo>) -> (r: Vec<SessionEntry>)
    ensures
        lists_all(r@, published(*m)),
{
    m.iter()
        .map(|entry| SessionEntry { key: entry.key().clone(), session: entry.value().clone() })
        .collect()
}

/// The sessions that do not have the property.
pub open spec fn without_where(
    m: Map<Seq<char>, SessionInfo>,
    p: spec_fn(SessionInfo) -> bool,
) -> Map<Seq<char>, SessionInfo> {
    Map::new(|k: Seq<char>| m.dom().contains(k) && !p(m[k]), |k: Seq<char>| m[k])
}

/// The entries list the sessions with the property, each once, in any order.
pub open spec fn lists_where(
    v: Seq<SessionEntry>,
    m: Map<Seq<char>, SessionInfo>,
    p: spec_fn(SessionInfo) -> bool,
) -> bool {
    &&& forall|i: int|
        0 <= i < v.len() ==> m.dom().contains((#[trigger] v[i]).key@) && m[v[i].key@]
            == v[i].session && p(v[i].session)
    &&& forall|i: int, j: int|
        0 <= i < j < v.len() ==> (#[trigger] v[i]).key@ != (#[trigger] v[j]).key@
    &&& forall|k: Seq<char>| #[trigger]
        m.dom().contains(k) && p(m[k]) ==> exists|i: int|
            0 <= i < v.len() && (#[trigger] v[i]).key@ == k
}

/// The keys of the sessions with the property.
pub open spec fn keys_where(
    m: Map<Seq<char>, SessionInfo>,
    p: spec_fn(SessionInfo) -> bool,
) -> Set<Seq<char>> {
    Set::new(|k: Seq<char>| m.dom().contains(k) && p(m[k]))
}

/// Entries that list the sessions with the property are as many as they.
proof fn lemma_listed_once(
    v: Seq<SessionEntry>,
    m: Map<Seq<char>, SessionInfo>,
    p: spec_fn(SessionInfo) -> bool,
)
    requires
        lists_where(v, m, p),
    ensures
        keys_where(m, p).finite(),
        keys_where(m, p).len() == v.len(),
{
    let keys = Seq::new(v.len(), |i: int| v[i].key@);
    assert(keys.no_duplicates());
    keys.unique_seq_to_set();
    assert forall|k: Seq<char>| keys.to_set().contains(k) <==> keys_where(m, p).contains(k) by {
        if keys.to_set().contains(k) {
            let i = choose|i: int| 0 <= i < keys.len() && keys[i] == k;
            assert(v[i].key@ == k);
        }
        if keys_where(m, p).contains(k) {
            let i = choose|i: int| 0 <= i < v.len() && (#[trigger] v[i]).key@ == k;
            assert(keys[i] == k);
        }
    }
    assert(keys.to_set() =~= keys_where(m, p));
}

/// The session belongs to the user.
pub open spec fn of_user(user: Seq<char>) -> spec_fn(SessionInfo) -> bool {
    |s: SessionInfo| s.user_id@ == user
}

/// The session belongs to the team.
pub open spec fn of_team(team: Seq<char>) -> spec_fn(SessionInfo) -> bool {
    |s: SessionInfo| s.team_id@ == team
}

/// Whose sessions are meant.
#[derive(Debug, Clone, Copy, PartialEq, Eq, Structural)]
enum Belongs {
    ToUser,
    ToTeam,
}

spec fn belongs(by: Belongs, id: Seq<char>) -> spec_fn(SessionInfo) -> bool {
    match by {
        Belongs::ToUser => of_user(id),
        Belongs::ToTeam => of_team(id),
    }
}

/// The sessions of all teams. At most one runs for each engagement.
pub struct TeamSessionService {
    sessions: DashMap<String, SessionInfo>,
}

impl TeamSessionService {
    /// The published sessions, by engagement.
    pub closed spec fn sessions(self) -> Map<Seq<char>, SessionInfo> {
        published(self.sessions)
    }

    pub fn new() -> (r: TeamSessionService)
        ensures
            r.sessions() == no_sessions(),
    {
        TeamSessionService { sessions: new_map() }
    }

    /// Publishes a session under its engagement, in place of the one that was
    /// there.
    pub fn publish_session(&mut self, session: &SessionInfo) -> (r: Option<SessionInfo>)
        ensures
            final(self).sessions() == old(self).sessions().insert(
                session.engagement_id@,
                *session,
            ),
            r == at(old(self).sessions(), session.engagement_id@),
            takes_its_place(old(self).sessions(), *session, final(self).sessions(), r),
    {
        map_insert(&mut self.sessions, session.engagement_id.clone(), session.clone())
    }

    /// The session of an engagement.
    pub fn session_of(&self, engagement_id: &str) -> (r: Option<SessionInfo>)
        ensures
            r == at(self.sessions(), engagement_id@),
    {
        map_get(&self.sessions, engagement_id)
    }

    /// The session, if it is still the one that is published for its
    /// engagement.
    pub fn capture_published_session(&self, expected: &SessionInfo) -> (r: Option<SessionInfo>)
        ensures
            match at(self.sessions(), expected.engagement_id@) {
                Some(s) if s.generation == expected.generation => r == Some(s),
                _ => r is None,
            },
            is_captured(self.sessions(), *expected, r),
    {
        match map_get(&self.sessions, expected.engagement_id.as_str()) {
            Some(s) => if s.generation == expected.generation {
                Some(s)
            } else {
                None
            },
            None => None,
        }
    }

    /// A session of the team.
    pub fn published_session(&self, team_id: &str) -> (r: Result<SessionInfo, TeamError>)
        ensures
            match r {
                Ok(s) => of_team(team_id@)(s) && exists|k: Seq<char>| #[trigger]
                    self.sessions().dom().contains(k) && self.sessions()[k] == s,
                Err(e) => (e matches TeamError::SessionNotFound(x) && x@ == team_id@)
                    && forall|k: Seq<char>| #[trigger]
                    self.sessions().dom().contains(k) ==> !of_team(team_id@)(self.sessions()[k]),
            },
    {
        let found = self.entries_of(Belongs::ToTeam, team_id);
        if found.len() > 0 {
            assert(self.sessions().dom().contains(found@[0].key@));
            Ok(found[0].session.clone())
        } else {
            Err(TeamError::SessionNotFound(team_id.to_owned()))
        }
    }

    /// The user whose session of the team runs.
    pub fn get_session_user_id(&self, team_id: &str) -> (r: Option<String>)
        ensures
            match r {
                Some(u) => exists|k: Seq<char>| #[trigger]
                    self.sessions().dom().contains(k) && of_team(team_id@)(self.sessions()[k])
                        && self.sessions()[k].user_id@ == u@,
                None => forall|k: Seq<char>| #[trigger]
                    self.sessions().dom().contains(k) ==> !of_team(team_id@)(self.sessions()[k]),
            },
    {
        match self.published_session(team_id) {
            Ok(s) => Some(s.user_id),
            Err(_) => None,
        }
    }

    fn entries_of(&self, by: Belongs, id: &str) -> (r: Vec<SessionEntry>)
        ensures
            lists_where(r@, self.sessions(), belongs(by, id@)),
    {
        let all = map_entries(&self.sessions);
        let ghost p = belongs(by, id@);
        let ghost m = self.sessions();
        let mut r: Vec<SessionEntry> = Vec::new();
        let mut i: usize = 0;
        while i < all.len()
            invariant
                i <= all@.len(),
                p == belongs(by, id@),
                m == self.sessions(),
                lists_all(all@, m),
                forall|a: int|
                    0 <= a < r@.len() ==> m.dom().contains((#[trigger] r@[a]).key@)
                        && m[r@[a].key@] == r@[a].session && p(r@[a].session) && exists|j: int|
                        0 <= j < i && (#[trigger] all@[j]).key@ == r@[a].key@,
                forall|a: int, b: int|
                    0 <= a < b < r@.len() ==> (#[trigger] r@[a]).key@ != (#[trigger] r@[b]).key@,
                forall|j: int|
                    0 <= j < i && p((#[trigger] all@[j]).session) ==> exists|a: int|
                        0 <= a < r@.len() && (#[trigger] r@[a]).key@ == all@[j].key@,
            decreases all@.len() - i,
        {
            let here = match by {
                Belongs::ToUser => same_text(all[i].session.user_id.as_str(), id),
                Belongs::ToTeam => same_text(all[i].session.team_id.as_str(), id),
            };
            let ghost before = r@;
            if here {
                r.push(SessionEntry { key: all[i].key.clone(), session: all[i].session.clone() });
            }
            proof {
                assert forall|j: int| 0 <= j < i + 1 && p(
                    (#[trigger] all@[j]).session,
                ) implies exists|a: int|
                    0 <= a < r@.len() && (#[trigger] r@[a]).key@ == all@[j].key@ by {
                    if j < i {
                        let a = choose|a: int|
                            0 <= a < before.len() && (#[trigger] before[a]).key@ == all@[j].key@;
                        assert(r@[a] == before[a]);
                    } else {
                        assert(r@[before.len() as int].key@ == all@[j].key@);
                    }
                }
                assert forall|a: int| 0 <= a < r@.len() implies m.dom().contains(
                    (#[trigger] r@[a]).key@,
                ) && m[r@[a].key@] == r@[a].session && p(r@[a].session) && exists|j: int|
                    0 <= j < i + 1 && (#[trigger] all@[j]).key@ == r@[a].key@ by {
                    if a < before.len() {
                        assert(r@[a] == before[a]);
                        let j = choose|j: int|
                            0 <= j < i && (#[trigger] all@[j]).key@ == before[a].key@;
                        assert(all@[j].key@ == r@[a].key@);
                    } else {
                        assert(all@[i as int].key@ == r@[a].key@);
                    }
                }
                assert forall|a: int, b: int| 0 <= a < b < r@.len() implies (#[trigger] r@[a]).key@
                    != (#[trigger] r@[b]).key@ by {
                    assert(r@[a] == before[a]);
                    if b < before.len() {
                        assert(r@[b] == before[b]);
                    } else {
                        let j = choose|j: int|
                            0 <= j < i && (#[trigger] all@[j]).key@ == before[a].key@;
                        assert(all@[j].key@ != all@[i as int].key@);
                    }
                }
            }
            i = i + 1;
        }
        proof {
            assert forall|k: Seq<char>| #[trigger] m.dom().contains(k) && p(
                m[k],
            ) implies exists|a: int| 0 <= a < r@.len() && (#[trigger] r@[a]).key@ == k by {
                let j = choose|j: int| 0 <= j < all@.len() && (#[trigger] all@[j]).key@ == k;
                assert(p(all@[j].session));
                let a = choose|a: int|
                    0 <= a < r@.len() && (#[trigger] r@[a]).key@ == all@[j].key@;
                assert(r@[a].key@ == k);
            }
        }
        r
    }

    /// Takes the session of an engagement down.
    pub fn stop_session_unchecked(&mut self, engagement_id: &str) -> (r: Option<SessionInfo>)
        ensures
            final(self).sessions() == old(self).sessions().remove(engagement_id@),
            r == at(old(self).sessions(), engagement_id@),
            gives_up_its_place(old(self).sessions(), engagement_id@, final(self).sessions(), r),
    {
        map_remove(&mut self.sessions, engagement_id)
    }

    fn stop_all(&mut self, by: Belongs, id: &str) -> (r: Vec<SessionEntry>)
        ensures
            final(self).sessions() == without_where(old(self).sessions(), belongs(by, id@)),
            lists_where(r@, old(self).sessions(), belongs(by, id@)),
    {
        let stopped = self.entries_of(by, id);
        let ghost m = self.sessions();
        let ghost p = belongs(by, id@);
        let mut i: usize = 0;
        while i < stopped.len()
            invariant
                i <= stopped@.len(),
                lists_where(stopped@, m, p),
                forall|k: Seq<char>| #[trigger]
                    self.sessions().dom().contains(k) <==> m.dom().contains(k) && !exists|j: int|
                        0 <= j < i && (#[trigger] stopped@[j]).key@ == k,
                forall|k: Seq<char>| #[trigger]
                    self.sessions().dom().contains(k) ==> self.sessions()[k] == m[k],
            decreases stopped@.len() - i,
        {
            let ghost before = self.sessions();
            let _ = self.stop_session_unchecked(stopped[i].key.as_str());
            proof {
                assert forall|k: Seq<char>| #[trigger] self.sessions().dom().contains(k)
                    <==> m.dom().contains(k) && !exists|j: int|
                    0 <= j < i + 1 && (#[trigger] stopped@[j]).key@ == k by {
                    if k == stopped@[i as int].key@ {
                        assert(stopped@[i as int].key@ == k);
                    }
                    assert(self.sessions().dom().contains(k) <==> before.dom().contains(k) && k
                        != stopped@[i as int].key@);
                }
            }
            i = i + 1;
        }
        proof {
            let end = without_where(m, p);
            assert forall|k: Seq<char>| #[trigger] self.sessions().dom().contains(k)
                <==> end.dom().contains(k) by {
                if m.dom().contains(k) && !p(m[k]) {
                    assert(!exists|j: int|
                        0 <= j < stopped@.len() && (#[trigger] stopped@[j]).key@ == k);
                }
            }
            assert(self.sessions() =~= end);
        }
        stopped
    }

    /// Stops the sessions of a user; those of other users run on. Says how many
    /// were stopped.
    pub fn stop_sessions_for_user(&mut self, user_id: &str) -> (r: usize)
        ensures
            final(self).sessions() == without_where(old(self).sessions(), of_user(user_id@)),
            r == keys_where(old(self).sessions(), of_user(user_id@)).len(),
    {
        let stopped = self.stop_all(Belongs::ToUser, user_id);
        proof {
            lemma_listed_once(stopped@, old(self).sessions(), of_user(user_id@));
        }
        stopped.len()
    }

    /// Stops the sessions of a team, of all its engagements. Hands out what was
    /// stopped.
    pub fn stop_sessions_for_team(&mut self, team_id: &str) -> (r: Vec<SessionEntry>)
        ensures
            final(self).sessions() == without_where(old(self).sessions(), of_team(team_id@)),
            lists_where(r@, old(self).sessions(), of_team(team_id@)),
    {
        self.stop_all(Belongs::ToTeam, team_id)
    }

    /// The sessions of a user, in any order.
    pub fn sessions_for_user(&self, user_id: &str) -> (r: Vec<SessionEntry>)
        ensures
            lists_where(r@, self.sessions(), of_user(user_id@)),
    {
        self.entries_of(Belongs::ToUser, user_id)
    }

    /// All published sessions, in any order.
    pub fn all_sessions(&self) -> (r: Vec<SessionEntry>)
        ensures
            lists_all(r@, self.sessions()),
    {
        map_entries(&self.sessions)
    }
}

/// The session stands under its engagement afterwards, in place of `r`.
pub open spec fn takes_its_place(
    before: Map<Seq<char>, SessionInfo>,
    session: SessionInfo,
    after: Map<Seq<char>, SessionInfo>,
    r: Option<SessionInfo>,
) -> bool {
    &&& after == before.insert(session.engagement_id@, session)
    &&& r == at(before, session.engagement_id@)
}

/// No session stands under the engagement afterwards; `r` did.
pub open spec fn gives_up_its_place(
    before: Map<Seq<char>, SessionInfo>,
    engagement: Seq<char>,
    after: Map<Seq<char>, SessionInfo>,
    r: Option<SessionInfo>,
) -> bool {
    &&& after == before.remove(engagement)
    &&& r == at(before, engagement)
}

/// `r` is the session that stands under the engagement, if it is of the generation that
/// was expected.
pub open spec fn is_captured(
    m: Map<Seq<char>, SessionInfo>,
    expected: SessionInfo,
    r: Option<SessionInfo>,
) -> bool {
    r == match at(m, expected.engagement_id@) {
        Some(s) if s.generation == expected.generation => Some(s),
        _ => None,
    }
}

/// A session that was published is the one that is found for its engagement, and a
/// session that was stopped is found no more; the sessions of other engagements stay.
pub proof fn law_published_session_is_found(
    before: Map<Seq<char>, SessionInfo>,
    session: SessionInfo,
    published: Map<Seq<char>, SessionInfo>,
    replaced: Option<SessionInfo>,
    stopped: Map<Seq<char>, SessionInfo>,
    r: Option<SessionInfo>,
    other: Seq<char>,
)
    requires
        takes_its_place(before, session, published, replaced),
        gives_up_its_place(published, session.engagement_id@, stopped, r),
    ensures
        published.dom().contains(session.engagement_id@),
        published[session.engagement_id@] == session,
        r == Some(session),
        replaced is Some <==> before.dom().contains(session.engagement_id@),
        replaced is Some ==> replaced->0 == before[session.engagement_id@],
        !stopped.dom().contains(session.engagement_id@),
        other != session.engagement_id@ ==> {
            &&& published.dom().contains(other) <==> before.dom().contains(other)
            &&& stopped.dom().contains(other) <==> before.dom().contains(other)
            &&& before.dom().contains(other) ==> published[other] == before[other]
                && stopped[other] == before[other]
        },
{
}

/// A session is captured exactly where the one under its engagement is of the same
/// generation; one that took its place is not captured for it.
pub proof fn law_only_the_same_generation_is_captured(
    m: Map<Seq<char>, SessionInfo>,
    expected: SessionInfo,
    r: Option<SessionInfo>,
)
    requires
        is_captured(m, expected, r),
    ensures
        r is Some <==> m.dom().contains(expected.engagement_id@)
            && m[expected.engagement_id@].generation == expected.generation,
        r is Some ==> r->0 == m[expected.engagement_id@],
{
}

/// Sessions of one team for two engagements do not stand in each other's way:
/// publishing or stopping one leaves the other as it is.
pub proof fn law_engagements_do_not_collide(
    m: Map<Seq<char>, SessionInfo>,
    s: SessionInfo,
    other: Seq<char>,
)
    requires
        s.engagement_id@ != other,
    ensures
        at(m.insert(s.engagement_id@, s), other) == at(m, other),
        at(m.remove(s.engagement_id@), other) == at(m, other),
        at(m.insert(s.engagement_id@, s), s.engagement_id@) == Some(s),
        at(m.remove(s.engagement_id@), s.engagement_id@) is None,
{
}

/// Stopping the sessions of one user, or of one team, keeps every other
/// session and none of theirs.
pub proof fn law_stopping_keeps_the_others(
    m: Map<Seq<char>, SessionInfo>,
    p: spec_fn(SessionInfo) -> bool,
    key: Seq<char>,
)
    ensures
        at(without_where(m, p), key) == match at(m, key) {
            Some(s) if !p(s) => Some(s),
            _ => None,
        },
{
}

/// Stopping the sessions of a user leaves exactly those of other users, and stopping
/// those of a team leaves exactly those of other teams.
pub proof fn law_only_the_sessions_meant_stop(
    m: Map<Seq<char>, SessionInfo>,
    id: Seq<char>,
    key: Seq<char>,
)
    requires
        m.dom().contains(key),
    ensures
        without_where(m, of_user(id)).dom().contains(key) <==> m[key].user_id@ != id,
        without_where(m, of_team(id)).dom().contains(key) <==> m[key].team_id@ != id,
        m[key].user_id@ != id ==> without_where(m, of_user(id))[key] == m[key],
        m[key].team_id@ != id ==> without_where(m, of_team(id))[key] == m[key],
        keys_where(m, of_user(id)).contains(key) <==> m[key].user_id@ == id,
{
}

/// The sessions that are listed for a user are all of theirs, each once, and no others;
/// those for a team are all of its own.
pub proof fn law_every_session_is_listed(
    v: Seq<SessionEntry>,
    m: Map<Seq<char>, SessionInfo>,
    id: Seq<char>,
    key: Seq<char>,
)
    requires
        m.dom().contains(key),
    ensures
        lists_where(v, m, of_user(id)) ==> (m[key].user_id@ == id <==> exists|i: int|
            0 <= i < v.len() && (#[trigger] v[i]).key@ == key && v[i].session == m[key]),
        lists_where(v, m, of_team(id)) ==> (m[key].team_id@ == id <==> exists|i: int|
            0 <= i < v.len() && (#[trigger] v[i]).key@ == key && v[i].session == m[key]),
        lists_where(v, m, of_user(id)) || lists_where(v, m, of_team(id)) ==> forall|i: int, j: int|
            0 <= i < j < v.len() ==> (#[trigger] v[i]).key@ != (#[trigger] v[j]).key@,
        lists_all(v, m) ==> exists|i: int|
            0 <= i < v.len() && (#[trigger] v[i]).key@ == key && v[i].session == m[key],
{
}

} // verus!
