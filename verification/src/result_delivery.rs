//! How the result of a delegated task finds its way back to the conversation
//! that delegated it.
use crate::error::TeamError;
use crate::json::{
    empty_object, flat, member_count, member_text, members, no_members, set_count, set_text,
    takes_members, JsonView, Member,
};
use crate::text::{blank, is_blank, lemma_trimmed_empty, opt_text, trim, trimmed};
use vstd::prelude::*;

verus! {

/// Metadata key of the conversation that waits for the result. A task is the
/// root of a delegated engagement exactly when its metadata has this key.
pub const DELEGATE_REPLY_TO_KEY: &'static str = "delegate_reply_to";

/// Metadata key of the engagement that the root task belongs to.
pub const ENGAGEMENT_ID_KEY: &'static str = "engagement_id";

/// Metadata key of the depth of the delegation chain at which the task was
/// convened.
pub const DELEGATE_DEPTH_KEY: &'static str = "delegate_depth";

/// The members of the metadata of a delegated root task.
pub open spec fn root_metadata(reply_to: Seq<char>, engagement: Seq<char>, depth: u32) -> Map<
    Seq<char>,
    Member,
> {
    no_members().insert("delegate_reply_to"@, Member::Text(reply_to)).insert(
        "engagement_id"@,
        Member::Text(engagement),
    ).insert("delegate_depth"@, Member::Count(depth as u64))
}

/// The string under a key.
pub open spec fn text_at(m: Option<Map<Seq<char>, Member>>, key: Seq<char>) -> Option<Seq<char>> {
    match m {
        Some(m) => if m.dom().contains(key) && m[key] is Text {
            Some(m[key]->Text_0)
        } else {
            None
        },
        None => None,
    }
}

/// The whole number under a key.
pub open spec fn count_at(m: Option<Map<Seq<char>, Member>>, key: Seq<char>) -> Option<u64> {
    match m {
        Some(m) => if m.dom().contains(key) && m[key] is Count {
            Some(m[key]->Count_0)
        } else {
            None
        },
        None => None,
    }
}

/// The depth at which a task was convened; 0 where its metadata has none.
pub open spec fn stored_depth(m: Option<Map<Seq<char>, Member>>) -> int {
    match count_at(m, "delegate_depth"@) {
        Some(n) => if n < u32::MAX {
            n as int
        } else {
            u32::MAX as int
        },
        None => 0,
    }
}

/// The depth of the next hop: one more than the stored one, up to the largest
/// number; 0 where the metadata has no depth.
pub open spec fn next_depth(m: Option<Map<Seq<char>, Member>>) -> int {
    if count_at(m, "delegate_depth"@) is None {
        0
    } else if stored_depth(m) < u32::MAX {
        stored_depth(m) + 1
    } else {
        u32::MAX as int
    }
}

/// The conversation that waits for the result, without surrounding white
/// space; `None` where the key is absent or blank.
pub open spec fn reply_to_of(m: Option<Map<Seq<char>, Member>>) -> Option<Seq<char>> {
    match text_at(m, "delegate_reply_to"@) {
        Some(t) if !is_blank(t) => Some(trimmed(t)),
        _ => None,
    }
}

/// The engagement of the task, as it is stored; the fallback where the key is
/// absent or blank.
pub open spec fn engagement_of(m: Option<Map<Seq<char>, Member>>, fallback: Seq<char>) -> Seq<
    char,
> {
    match text_at(m, "engagement_id"@) {
        Some(t) if !is_blank(t) => t,
        _ => fallback,
    }
}

/// The members of what the metadata of a task says.
pub open spec fn metadata_members(m: Option<JsonView>) -> Option<Map<Seq<char>, Member>> {
    match m {
        Some(j) => Some(j.members),
        None => None,
    }
}

/// The members of optional metadata.
pub open spec fn opt_members(v: Option<&serde_json::Value>) -> Option<Map<Seq<char>, Member>> {
    match v {
        Some(v) => Some(members(*v)),
        None => None,
    }
}

proof fn lemma_keys_differ()
    ensures
        "delegate_reply_to"@ != "engagement_id"@,
        "delegate_reply_to"@ != "delegate_depth"@,
        "engagement_id"@ != "delegate_depth"@,
{
    reveal_strlit("delegate_reply_to");
    reveal_strlit("engagement_id");
    reveal_strlit("delegate_depth");
    assert("delegate_reply_to"@.len() == 17);
    assert("engagement_id"@.len() == 13);
    assert("delegate_depth"@.len() == 14);
}

/// The metadata of a root task: where its result goes, and how deep in the
/// chain of delegations it stands.
pub fn delegated_result_metadata(reply_to: &str, engagement_id: &str, depth: u32) -> (r:
    serde_json::Value)
    ensures
        takes_members(r),
        members(r) == root_metadata(reply_to@, engagement_id@, depth),
        flat(r),
{
    let mut v = empty_object();
    set_text(&mut v, DELEGATE_REPLY_TO_KEY, reply_to);
    set_text(&mut v, ENGAGEMENT_ID_KEY, engagement_id);
    set_count(&mut v, DELEGATE_DEPTH_KEY, depth as u64);
    v
}

fn depth_count(metadata: Option<&serde_json::Value>) -> (r: Option<u64>)
    ensures
        r == count_at(opt_members(metadata), "delegate_depth"@),
{
    match metadata {
        Some(v) => member_count(v, DELEGATE_DEPTH_KEY),
        None => None,
    }
}

/// The depth to pass to the next hop.
pub fn next_depth_from_metadata(metadata: Option<&serde_json::Value>) -> (r: u32)
    ensures
        r == next_depth(opt_members(metadata)),
{
    match depth_count(metadata) {
        Some(n) => if n < u32::MAX as u64 {
            n as u32 + 1
        } else {
            u32::MAX
        },
        None => 0,
    }
}

/// The depth at which the task was convened.
pub fn delegated_depth_from_metadata(metadata: Option<&serde_json::Value>) -> (r: u32)
    ensures
        r == stored_depth(opt_members(metadata)),
{
    match depth_count(metadata) {
        Some(n) => if n < u32::MAX as u64 {
            n as u32
        } else {
            u32::MAX
        },
        None => 0,
    }
}

/// The conversation that waits for the result of a task.
pub fn delegated_reply_to(metadata: Option<&serde_json::Value>) -> (r: Option<String>)
    ensures
        opt_text(r) == reply_to_of(opt_members(metadata)),
{
    let v = match metadata {
        Some(v) => v,
        None => return None,
    };
    match member_text(v, DELEGATE_REPLY_TO_KEY) {
        Some(text) => {
            let value = trim(text.as_str());
            proof {
                lemma_trimmed_empty(text@);
            }
            if value.is_empty() {
                None
            } else {
                Some(value.to_owned())
            }
        },
        None => None,
    }
}

/// The engagement of a root task.
pub fn delegated_engagement_id(metadata: Option<&serde_json::Value>, fallback: &str) -> (r: String)
    ensures
        r@ == engagement_of(opt_members(metadata), fallback@),
{
    if let Some(v) = metadata {
        if let Some(text) = member_text(v, ENGAGEMENT_ID_KEY) {
            if !blank(text.as_str()) {
                return text;
            }
        }
    }
    fallback.to_owned()
}

/// What was written on a root task is read back from it: the conversation that
/// waits, the engagement and the depth; the next hop stands one deeper.
pub proof fn law_metadata_reads_back(
    reply_to: Seq<char>,
    engagement: Seq<char>,
    depth: u32,
    fallback: Seq<char>,
)
    ensures
        reply_to_of(Some(root_metadata(reply_to, engagement, depth))) == if is_blank(reply_to) {
            None
        } else {
            Some(trimmed(reply_to))
        },
        engagement_of(Some(root_metadata(reply_to, engagement, depth)), fallback) == if is_blank(
            engagement,
        ) {
            fallback
        } else {
            engagement
        },
        stored_depth(Some(root_metadata(reply_to, engagement, depth))) == depth,
        next_depth(Some(root_metadata(reply_to, engagement, depth))) == if depth < u32::MAX {
            depth + 1
        } else {
            u32::MAX as int
        },
{
    lemma_keys_differ();
}

/// A task without delegation metadata waits for no conversation and stands at
/// the root of the chain.
pub proof fn law_ordinary_task_has_no_reply(m: Option<Map<Seq<char>, Member>>)
    requires
        m matches Some(m) ==> !m.dom().contains("delegate_reply_to"@) && !m.dom().contains(
            "delegate_depth"@,
        ),
    ensures
        reply_to_of(m) is None,
        stored_depth(m) == 0,
        next_depth(m) == 0,
{
}

/// Brings the result of a delegated root task to the conversation that waits
/// for it. A conversation that is missing or belongs to another user gets
/// nothing.
pub trait DelegatedResultDelivery {
    fn deliver_result(
        &self,
        user_id: &str,
        caller_conversation_id: &str,
        engagement_id: &str,
        text: &str,
    ) -> (r: Result<(), TeamError>);
}

/// Accepts every result and brings it nowhere.
pub struct NoopDelegatedResultDelivery;

impl DelegatedResultDelivery for NoopDelegatedResultDelivery {
    fn deliver_result(
        &self,
        _user_id: &str,
        _caller_conversation_id: &str,
        _engagement_id: &str,
        _text: &str,
    ) -> (r: Result<(), TeamError>)
        ensures
            r is Ok,
    {
        Ok(())
    }
}

/// What the metadata of a task says of its delegation is what stands under the three
/// keys: the conversation that waits, without white space around it, unless it is
/// blank; the engagement as it stands, unless it is blank; the depth, and one more for
/// the next hop, neither beyond the largest number.
pub proof fn law_delegation_is_read_from_its_keys(
    m: Map<Seq<char>, Member>,
    fallback: Seq<char>,
    reply_to: Seq<char>,
    engagement: Seq<char>,
    depth: u64,
)
    ensures
        m.dom().contains("delegate_reply_to"@) && m["delegate_reply_to"@] == Member::Text(reply_to)
            && !is_blank(reply_to) ==> reply_to_of(Some(m)) == Some(trimmed(reply_to)),
        m.dom().contains("delegate_reply_to"@) && m["delegate_reply_to"@] == Member::Text(reply_to)
            && is_blank(reply_to) ==> reply_to_of(Some(m)) is None,
        !m.dom().contains("delegate_reply_to"@) || !(m["delegate_reply_to"@] is Text)
            ==> reply_to_of(Some(m)) is None,
        m.dom().contains("engagement_id"@) && m["engagement_id"@] == Member::Text(engagement)
            && !is_blank(engagement) ==> engagement_of(Some(m), fallback) == engagement,
        !m.dom().contains("engagement_id"@) || !(m["engagement_id"@] is Text) || (
        m["engagement_id"@] == Member::Text(engagement) && is_blank(engagement)) ==> engagement_of(
            Some(m),
            fallback,
        ) == fallback,
        m.dom().contains("delegate_depth"@) && m["delegate_depth"@] == Member::Count(depth) ==> {
            &&& depth < u32::MAX ==> stored_depth(Some(m)) == depth && next_depth(Some(m)) == depth
                + 1
            &&& depth >= u32::MAX ==> stored_depth(Some(m)) == u32::MAX && next_depth(Some(m))
                == u32::MAX
        },
        !m.dom().contains("delegate_depth"@) || !(m["delegate_depth"@] is Count) ==> stored_depth(
            Some(m),
        ) == 0 && next_depth(Some(m)) == 0,
        reply_to_of(None) is None,
        engagement_of(None, fallback) == fallback,
        stored_depth(None) == 0,
        next_depth(None) == 0,
{
}

/// The metadata of a root task has the three keys and nothing else.
pub proof fn law_root_metadata_has_its_keys(reply_to: Seq<char>, engagement: Seq<char>, depth: u32)
    ensures
        ({
            let m = root_metadata(reply_to, engagement, depth);
            &&& m.dom().contains("delegate_reply_to"@) && m["delegate_reply_to"@] == Member::Text(
                reply_to,
            )
            &&& m.dom().contains("engagement_id"@) && m["engagement_id"@] == Member::Text(
                engagement,
            )
            &&& m.dom().contains("delegate_depth"@) && m["delegate_depth"@] == Member::Count(
                depth as u64,
            )
            &&& forall|k: Seq<char>| #[trigger]
                m.dom().contains(k) ==> k == "delegate_reply_to"@ || k == "engagement_id"@ || k
                    == "delegate_depth"@
        }),
{
    lemma_keys_differ();
}

/// Metadata is read from its own members; where there is none, there are none.
pub proof fn law_metadata_speaks_for_itself(v: Option<&serde_json::Value>)
    ensures
        v is Some ==> opt_members(v) == Some(members(*v->0)),
        v is None ==> opt_members(v) is None && reply_to_of(opt_members(v)) is None
            && stored_depth(opt_members(v)) == 0 && next_depth(opt_members(v)) == 0,
{
}

} // verus!
