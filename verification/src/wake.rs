//! What a member is told when it wakes.
use crate::activity::MailboxMessageRow;
use crate::roster::TeamAgent;
use crate::task::TeamTask;
use crate::text::{blank, is_blank, opt_str, texts};
use vstd::prelude::*;

verus! {

/// Who wakes, and who else is in the team.
pub open spec fn wake_header(agent: TeamAgent, roster: Seq<Seq<char>>) -> Seq<char> {
    "You are "@ + agent.name@ + " ("@ + agent.slot_id@ + ").\n"@ + roster_lines(roster)
}

pub open spec fn roster_lines(roster: Seq<Seq<char>>) -> Seq<char>
    decreases roster.len(),
{
    if roster.len() == 0 {
        Seq::empty()
    } else {
        roster_lines(roster.drop_last()) + "* "@ + roster.last() + "\n"@
    }
}

/// One line for each message: its sender and its text.
pub open spec fn message_lines(messages: Seq<MailboxMessageRow>) -> Seq<char>
    decreases messages.len(),
{
    if messages.len() == 0 {
        Seq::empty()
    } else {
        message_lines(messages.drop_last()) + "- "@ + messages.last().from_agent_id@ + ": "@
            + messages.last().content@ + "\n"@
    }
}

/// One line for each task: its id and its subject.
pub open spec fn task_lines(tasks: Seq<TeamTask>) -> Seq<char>
    decreases tasks.len(),
{
    if tasks.len() == 0 {
        Seq::empty()
    } else {
        task_lines(tasks.drop_last()) + "- "@ + tasks.last().id@ + ": "@ + tasks.last().subject@
            + "\n"@
    }
}

/// What the completed dependencies of the member's task handed on; nothing
/// where they handed on nothing.
pub open spec fn upstream_section(context: Option<Seq<char>>) -> Seq<char> {
    match context {
        Some(c) if !is_blank(c) => "\n## Upstream Results\n"@ + c,
        _ => Seq::empty(),
    }
}

/// What a member is told apart from the results that were handed on to it.
pub open spec fn wake_base(
    agent: TeamAgent,
    messages: Seq<MailboxMessageRow>,
    tasks: Seq<TeamTask>,
    roster: Seq<Seq<char>>,
) -> Seq<char> {
    wake_header(agent, roster) + "\n## Messages\n"@ + message_lines(messages) + "\n## Tasks\n"@
        + task_lines(tasks)
}

/// All that a member is told when it wakes.
pub open spec fn wake_payload(
    agent: TeamAgent,
    messages: Seq<MailboxMessageRow>,
    tasks: Seq<TeamTask>,
    roster: Seq<Seq<char>>,
    context: Option<Seq<char>>,
) -> Seq<char> {
    wake_base(agent, messages, tasks, roster) + upstream_section(context)
}

/// Puts what the completed dependencies handed on behind whatever else a member
/// is told.
pub fn with_upstream_results(base: String, input_context: Option<&str>) -> (r: String)
    ensures
        r@ == base@ + upstream_section(opt_str(input_context)),
{
    let mut s = base;
    if let Some(context) = input_context {
        if !blank(context) {
            s.append("\n## Upstream Results\n");
            s.append(context);
        }
    }
    assert(s@ =~= base@ + upstream_section(opt_str(input_context)));
    s
}

fn add_roster(s: &mut String, roster: &[String])
    ensures
        final(s)@ == old(s)@ + roster_lines(texts(roster@)),
{
    let ghost start = s@;
    let ghost all = texts(roster@);
    let mut i: usize = 0;
    assert(all.take(0) =~= Seq::<Seq<char>>::empty());
    assert(s@ =~= start + roster_lines(all.take(0)));
    while i < roster.len()
        invariant
            i <= roster@.len(),
            all == texts(roster@),
            s@ == start + roster_lines(all.take(i as int)),
        decreases roster@.len() - i,
    {
        s.append("* ");
        s.append(roster[i].as_str());
        s.append("\n");
        proof {
            assert(all.take(i + 1).drop_last() =~= all.take(i as int));
            assert(all.take(i + 1).last() == roster@[i as int]@);
            assert(s@ =~= start + roster_lines(all.take(i + 1)));
        }
        i = i + 1;
    }
    assert(all.take(i as int) =~= all);
}

fn add_messages(s: &mut String, messages: &[MailboxMessageRow])
    ensures
        final(s)@ == old(s)@ + message_lines(messages@),
{
    let ghost start = s@;
    let mut i: usize = 0;
    assert(messages@.take(0) =~= Seq::<MailboxMessageRow>::empty());
    assert(s@ =~= start + message_lines(messages@.take(0)));
    while i < messages.len()
        invariant
            i <= messages@.len(),
            s@ == start + message_lines(messages@.take(i as int)),
        decreases messages@.len() - i,
    {
        s.append("- ");
        s.append(messages[i].from_agent_id.as_str());
        s.append(": ");
        s.append(messages[i].content.as_str());
        s.append("\n");
        proof {
            assert(messages@.take(i + 1).drop_last() =~= messages@.take(i as int));
            assert(s@ =~= start + message_lines(messages@.take(i + 1)));
        }
        i = i + 1;
    }
    assert(messages@.take(i as int) =~= messages@);
}

fn add_tasks(s: &mut String, tasks: &[TeamTask])
    ensures
        final(s)@ == old(s)@ + task_lines(tasks@),
{
    let ghost start = s@;
    let mut i: usize = 0;
    assert(tasks@.take(0) =~= Seq::<TeamTask>::empty());
    assert(s@ =~= start + task_lines(tasks@.take(0)));
    while i < tasks.len()
        invariant
            i <= tasks@.len(),
            s@ == start + task_lines(tasks@.take(i as int)),
        decreases tasks@.len() - i,
    {
        s.append("- ");
        s.append(tasks[i].id.as_str());
        s.append(": ");
        s.append(tasks[i].subject.as_str());
        s.append("\n");
        proof {
            assert(tasks@.take(i + 1).drop_last() =~= tasks@.take(i as int));
            assert(s@ =~= start + task_lines(tasks@.take(i + 1)));
        }
        i = i + 1;
    }
    assert(tasks@.take(i as int) =~= tasks@);
}

/// Writes what a member is told when it wakes.
pub fn build_wake_payload(
    agent: &TeamAgent,
    messages: &[MailboxMessageRow],
    tasks: &[TeamTask],
    roster: &[String],
    input_context: Option<&str>,
) -> (r: String)
    ensures
        r@ == wake_payload(*agent, messages@, tasks@, texts(roster@), opt_str(input_context)),
{
    let mut s = "You are ".to_owned();
    s.append(agent.name.as_str());
    s.append(" (");
    s.append(agent.slot_id.as_str());
    s.append(").\n");
    add_roster(&mut s, roster);
    assert(s@ =~= wake_header(*agent, texts(roster@)));
    s.append("\n## Messages\n");
    add_messages(&mut s, messages);
    s.append("\n## Tasks\n");
    add_tasks(&mut s, tasks);
    assert(s@ =~= wake_base(*agent, messages@, tasks@, texts(roster@)));
    with_upstream_results(s, input_context)
}

/// A member to which nothing was handed on is told the same as one whose task
/// waited on nothing; whatever was handed on is told whole, behind the rest,
/// whatever the rest is.
pub proof fn law_blank_context_is_no_context(base: Seq<char>, context: Seq<char>)
    ensures
        base + upstream_section(None) == base,
        is_blank(context) ==> base + upstream_section(Some(context)) == base,
        !is_blank(context) ==> base + upstream_section(Some(context)) == base
            + "\n## Upstream Results\n"@ + context,
{
    assert(base + Seq::<char>::empty() =~= base);
    assert(base + ("\n## Upstream Results\n"@ + context) =~= base + "\n## Upstream Results\n"@
        + context);
}

/// Every message is told in a line of its own, with who sent it and what it says, in
/// the order of the messages.
pub proof fn law_every_message_is_told(messages: Seq<MailboxMessageRow>, k: int)
    requires
        0 <= k < messages.len(),
    ensures
        message_lines(messages) == message_lines(messages.take(k)) + ("- "@
            + messages[k].from_agent_id@ + ": "@ + messages[k].content@ + "\n"@) + message_lines(
            messages.skip(k + 1),
        ),
        message_lines(Seq::empty()) == Seq::<char>::empty(),
    decreases messages.len(),
{
    assert(message_lines(Seq::empty()) =~= Seq::<char>::empty());
    let front = messages.drop_last();
    let line = "- "@ + messages[k].from_agent_id@ + ": "@ + messages[k].content@ + "\n"@;
    if k == messages.len() - 1 {
        assert(front =~= messages.take(k));
        assert(messages.skip(k + 1) =~= Seq::empty());
        assert(message_lines(messages) =~= message_lines(front) + line + message_lines(
            Seq::empty(),
        ));
    } else {
        law_every_message_is_told(front, k);
        let last = "- "@ + messages.last().from_agent_id@ + ": "@ + messages.last().content@
            + "\n"@;
        let rest = messages.skip(k + 1);
        assert(front.take(k) =~= messages.take(k));
        assert(front.skip(k + 1) =~= rest.drop_last());
        assert(rest.last() == messages.last());
        assert(message_lines(rest) =~= message_lines(rest.drop_last()) + last);
        assert(message_lines(messages) =~= message_lines(front) + last);
        assert(message_lines(messages) =~= message_lines(messages.take(k)) + line + message_lines(
            rest,
        ));
    }
}

/// Every task is told in a line of its own, with its id and its subject, in the order
/// of the tasks.
pub proof fn law_every_task_is_told(tasks: Seq<TeamTask>, k: int)
    requires
        0 <= k < tasks.len(),
    ensures
        task_lines(tasks) == task_lines(tasks.take(k)) + ("- "@ + tasks[k].id@ + ": "@
            + tasks[k].subject@ + "\n"@) + task_lines(tasks.skip(k + 1)),
        task_lines(Seq::empty()) == Seq::<char>::empty(),
    decreases tasks.len(),
{
    assert(task_lines(Seq::empty()) =~= Seq::<char>::empty());
    let front = tasks.drop_last();
    let line = "- "@ + tasks[k].id@ + ": "@ + tasks[k].subject@ + "\n"@;
    if k == tasks.len() - 1 {
        assert(front =~= tasks.take(k));
        assert(tasks.skip(k + 1) =~= Seq::empty());
        assert(task_lines(tasks) =~= task_lines(front) + line + task_lines(Seq::empty()));
    } else {
        law_every_task_is_told(front, k);
        let last = "- "@ + tasks.last().id@ + ": "@ + tasks.last().subject@ + "\n"@;
        let rest = tasks.skip(k + 1);
        assert(front.take(k) =~= tasks.take(k));
        assert(front.skip(k + 1) =~= rest.drop_last());
        assert(rest.last() == tasks.last());
        assert(task_lines(rest) =~= task_lines(rest.drop_last()) + last);
        assert(task_lines(tasks) =~= task_lines(front) + last);
        assert(task_lines(tasks) =~= task_lines(tasks.take(k)) + line + task_lines(rest));
    }
}

/// Every line of the roster is told, in order.
pub proof fn law_whole_roster_is_told(roster: Seq<Seq<char>>, k: int)
    requires
        0 <= k < roster.len(),
    ensures
        roster_lines(roster) == roster_lines(roster.take(k)) + ("* "@ + roster[k] + "\n"@)
            + roster_lines(roster.skip(k + 1)),
        roster_lines(Seq::empty()) == Seq::<char>::empty(),
    decreases roster.len(),
{
    assert(roster_lines(Seq::empty()) =~= Seq::<char>::empty());
    let front = roster.drop_last();
    let line = "* "@ + roster[k] + "\n"@;
    if k == roster.len() - 1 {
        assert(front =~= roster.take(k));
        assert(roster.skip(k + 1) =~= Seq::empty());
        assert(roster_lines(roster) =~= roster_lines(front) + line + roster_lines(Seq::empty()));
    } else {
        law_whole_roster_is_told(front, k);
        let last = "* "@ + roster.last() + "\n"@;
        let rest = roster.skip(k + 1);
        assert(front.take(k) =~= roster.take(k));
        assert(front.skip(k + 1) =~= rest.drop_last());
        assert(rest.last() == roster.last());
        assert(roster_lines(rest) =~= roster_lines(rest.drop_last()) + last);
        assert(roster_lines(roster) =~= roster_lines(front) + last);
        assert(roster_lines(roster) =~= roster_lines(roster.take(k)) + line + roster_lines(rest));
    }
}

/// A member that wakes is told who it is and who else there is, then its messages,
/// then its tasks, and last what was handed on to it, where that is not blank.
pub proof fn law_waking_member_is_told_all(
    agent: TeamAgent,
    messages: Seq<MailboxMessageRow>,
    tasks: Seq<TeamTask>,
    roster: Seq<Seq<char>>,
    context: Option<Seq<char>>,
)
    ensures
        ({
            let told = "You are "@ + agent.name@ + " ("@ + agent.slot_id@ + ").\n"@ + roster_lines(
                roster,
            ) + "\n## Messages\n"@ + message_lines(messages) + "\n## Tasks\n"@ + task_lines(tasks);
            let r = wake_payload(agent, messages, tasks, roster, context);
            &&& context is Some && !is_blank(context->0) ==> r == told
                + "\n## Upstream Results\n"@ + context->0
            &&& context is None || is_blank(context->0) ==> r == told
        }),
{
    let told = "You are "@ + agent.name@ + " ("@ + agent.slot_id@ + ").\n"@ + roster_lines(roster)
        + "\n## Messages\n"@ + message_lines(messages) + "\n## Tasks\n"@ + task_lines(tasks);
    let base = wake_base(agent, messages, tasks, roster);
    assert(base =~= told);
    match context {
        Some(c) => law_blank_context_is_no_context(base, c),
        None => law_blank_context_is_no_context(base, Seq::empty()),
    }
}

} // verus!
