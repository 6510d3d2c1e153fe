//! The context that a task receives from its completed dependencies.
use crate::task::{RowView, TeamTaskRow};
use crate::text::{
    byte_len, cut_within, decimal, decimal_text, head_within, is_blank,
    law_cut_is_the_longest_beginning, lemma_encode_concat, lemma_trimmed_empty, opt_text, slices,
    text_len, texts, trim, trim_end, trimmed, trimmed_end,
};
use vstd::prelude::*;

verus! {

/// Upper bound, in bytes, on the context of a task.
pub const MAX_INPUT_CONTEXT_CHARS: usize = 8000;

/// The line that says how many results were left out; nothing where none was.
pub open spec fn marker(dropped: nat) -> Seq<char> {
    if dropped > 0 {
        "…"@ + decimal(dropped) + " older upstream result(s) truncated\n"@
    } else {
        Seq::empty()
    }
}

/// Each line, followed by a line break.
pub open spec fn joined_lines(lines: Seq<Seq<char>>) -> Seq<char>
    decreases lines.len(),
{
    if lines.len() == 0 {
        Seq::empty()
    } else {
        joined_lines(lines.drop_last()) + lines.last() + "\n"@
    }
}

/// The prefix, the count of what was left out, and the lines that were kept.
pub open spec fn rendered(prefix: Seq<char>, kept: Seq<Seq<char>>, dropped: nat) -> Seq<char> {
    prefix + marker(dropped) + joined_lines(kept)
}

/// The `k` newest of the lines, which are ordered from oldest to newest.
pub open spec fn newest(lines: Seq<Seq<char>>, k: nat) -> Seq<Seq<char>> {
    lines.skip(lines.len() - k)
}

/// The `k` newest lines, with the count of the others, stay within the bound.
pub open spec fn fits(prefix: Seq<char>, lines: Seq<Seq<char>>, k: nat) -> bool {
    byte_len(rendered(prefix, newest(lines, k), (lines.len() - k) as nat))
        <= MAX_INPUT_CONTEXT_CHARS
}

/// How many lines are kept when they are taken from the newest on, for as long
/// as what is taken fits; `k` of them are taken already.
pub open spec fn kept_from(prefix: Seq<char>, lines: Seq<Seq<char>>, k: nat) -> nat
    decreases lines.len() - k,
{
    if k < lines.len() && fits(prefix, lines, k + 1) {
        kept_from(prefix, lines, k + 1)
    } else {
        k
    }
}

/// The bytes that are left for the newest line when it has to be cut.
pub open spec fn line_budget(prefix: Seq<char>, dropped: nat) -> nat {
    let used = byte_len(prefix + marker(dropped)) + 1;
    if used < MAX_INPUT_CONTEXT_CHARS {
        (MAX_INPUT_CONTEXT_CHARS - used) as nat
    } else {
        0
    }
}

/// How many lines are kept: all of them where they fit together, else the
/// newest ones, for as long as they fit with the count of the others.
pub open spec fn kept_count(prefix: Seq<char>, lines: Seq<Seq<char>>) -> nat {
    if byte_len(prefix + joined_lines(lines)) <= MAX_INPUT_CONTEXT_CHARS {
        lines.len()
    } else {
        kept_from(prefix, lines, 0)
    }
}

/// The prefix with all lines, where they fit; on overflow, with the newest ones
/// that fit. Where not even the newest one fits, its beginning is kept; where
/// the prefix leaves no room for that, the beginning of the prefix.
pub open spec fn capped(prefix: Seq<char>, lines: Seq<Seq<char>>) -> Seq<char> {
    let k = kept_count(prefix, lines);
    if byte_len(prefix + joined_lines(lines)) <= MAX_INPUT_CONTEXT_CHARS {
        prefix + joined_lines(lines)
    } else if k > 0 {
        rendered(prefix, newest(lines, k), (lines.len() - k) as nat)
    } else if lines.len() == 0 {
        head_within(prefix, MAX_INPUT_CONTEXT_CHARS as nat)
    } else {
        let dropped = (lines.len() - 1) as nat;
        let head = head_within(lines.last(), line_budget(prefix, dropped));
        head_within(rendered(prefix, seq![head], dropped), MAX_INPUT_CONTEXT_CHARS as nat)
    }
}

/// The subject of the task, and its description where that is not blank.
pub open spec fn brief(task: RowView) -> Seq<char> {
    match task.description {
        Some(d) if trimmed(d).len() > 0 => task.subject + "\n"@ + trimmed(d),
        _ => task.subject,
    }
}

pub open spec fn context_prefix(task: RowView) -> Seq<char> {
    "[[BRIEF]]\n"@ + brief(task) + "\n\n[[UPSTREAM]]\n"@
}

/// The line of one dependency: its id and its result.
pub open spec fn dep_line(dep: RowView) -> Seq<char> {
    let result = match dep.result {
        Some(r) => r,
        None => Seq::empty(),
    };
    "- "@ + dep.id + ": "@ + trimmed_end(result)
}

pub open spec fn dep_lines(deps: Seq<RowView>) -> Seq<Seq<char>> {
    deps.map_values(|d: RowView| dep_line(d))
}

/// The context of `task`, whose dependencies are ordered from oldest to newest.
pub open spec fn context_of(task: RowView, deps: Seq<RowView>) -> Seq<char> {
    capped(context_prefix(task), dep_lines(deps))
}

/// What a list of references to rows says.
pub open spec fn row_refs(v: Seq<&TeamTaskRow>) -> Seq<RowView> {
    v.map_values(|r: &TeamTaskRow| r@)
}

pub fn render_input_context(prefix: &str, kept_asc: &[&str], dropped: usize) -> (r: String)
    ensures
        r@ == rendered(prefix@, slices(kept_asc@), dropped as nat),
{
    let mut s = prefix.to_owned();
    if dropped > 0 {
        s.append("…");
        s.append(decimal_text(dropped).as_str());
        s.append(" older upstream result(s) truncated\n");
    }
    assert(s@ =~= prefix@ + marker(dropped as nat));
    let ghost head = s@;
    let ghost all = slices(kept_asc@);
    let mut i: usize = 0;
    assert(joined_lines(all.take(0)) =~= Seq::<char>::empty());
    assert(s@ =~= head + joined_lines(all.take(0)));
    while i < kept_asc.len()
        invariant
            all == slices(kept_asc@),
            i <= kept_asc@.len(),
            s@ == head + joined_lines(all.take(i as int)),
        decreases kept_asc@.len() - i,
    {
        s.append(kept_asc[i]);
        s.append("\n");
        proof {
            let next = all.take(i + 1);
            assert(next.drop_last() =~= all.take(i as int));
            assert(next.last() == kept_asc@[i as int]@);
            assert(s@ =~= head + joined_lines(next));
        }
        i = i + 1;
    }
    assert(all.take(i as int) =~= all);
    s
}

/// The text without `cut_within`'s excess, as an owned string.
fn bounded(s: String) -> (r: String)
    ensures
        r@ == head_within(s@, MAX_INPUT_CONTEXT_CHARS as nat),
        byte_len(r@) <= MAX_INPUT_CONTEXT_CHARS,
{
    cut_within(s.as_str(), MAX_INPUT_CONTEXT_CHARS).to_owned()
}

/// The `k` newest of the lines, as slices.
fn newest_slices(lines_asc: &[String], k: usize) -> (r: Vec<&str>)
    requires
        k <= lines_asc@.len(),
    ensures
        slices(r@) == newest(texts(lines_asc@), k as nat),
{
    let mut r: Vec<&str> = Vec::new();
    let from: usize = lines_asc.len() - k;
    let mut i: usize = from;
    while i < lines_asc.len()
        invariant
            from + k == lines_asc@.len(),
            from <= i <= lines_asc@.len(),
            r@.len() == i - from,
            forall|j: int| 0 <= j < r@.len() ==> (#[trigger] r@[j])@ == lines_asc@[from + j]@,
        decreases lines_asc@.len() - i,
    {
        r.push(lines_asc[i].as_str());
        i = i + 1;
    }
    assert(slices(r@) =~= newest(texts(lines_asc@), k as nat));
    r
}

/// Bounded rendering of the upstream section. Keeps the newest lines and drops
/// the oldest on overflow; the lines come ordered from oldest to newest.
pub fn cap_upstream(prefix: &str, lines_asc: &[String]) -> (r: String)
    ensures
        r@ == capped(prefix@, texts(lines_asc@)),
        byte_len(r@) <= MAX_INPUT_CONTEXT_CHARS,
{
    let total: usize = lines_asc.len();
    let ghost lines = texts(lines_asc@);
    let all = newest_slices(lines_asc, total);
    let whole = render_input_context(prefix, all.as_slice(), 0);
    proof {
        assert(newest(lines, total as nat) =~= lines);
        assert(prefix@ + marker(0) =~= prefix@);
    }
    if text_len(whole.as_str()) <= MAX_INPUT_CONTEXT_CHARS {
        return whole;
    }
    if total == 0 {
        assert(kept_from(prefix@, lines, 0) == 0);
        return bounded(prefix.to_owned());
    }
    let mut kept: usize = 0;
    let mut best = String::new();
    let mut growing = true;
    while growing && kept < total
        invariant
            total == lines_asc@.len(),
            lines == texts(lines_asc@),
            byte_len(prefix@ + joined_lines(lines)) > MAX_INPUT_CONTEXT_CHARS,
            kept <= total,
            kept_from(prefix@, lines, 0) == kept_from(prefix@, lines, kept as nat),
            kept > 0 ==> best@ == rendered(
                prefix@,
                newest(lines, kept as nat),
                (total - kept) as nat,
            ) && byte_len(best@) <= MAX_INPUT_CONTEXT_CHARS,
            !growing ==> kept < total && !fits(prefix@, lines, (kept + 1) as nat),
        decreases total - kept, if growing { 1int } else { 0int },
    {
        let trial = newest_slices(lines_asc, kept + 1);
        let text = render_input_context(prefix, trial.as_slice(), total - kept - 1);
        if text_len(text.as_str()) <= MAX_INPUT_CONTEXT_CHARS {
            kept = kept + 1;
            best = text;
        } else {
            growing = false;
        }
    }
    if kept > 0 {
        return best;
    }
    // The newest line exceeds the bound on its own: keep its beginning.
    let dropped: usize = total - 1;
    let no_lines: Vec<&str> = Vec::new();
    let head = render_input_context(prefix, no_lines.as_slice(), dropped);
    assert(slices(no_lines@) =~= Seq::<Seq<char>>::empty());
    assert(head@ =~= prefix@ + marker(dropped as nat));
    let used: usize = text_len(head.as_str());
    let budget: usize = if used < MAX_INPUT_CONTEXT_CHARS {
        MAX_INPUT_CONTEXT_CHARS - used - 1
    } else {
        0
    };
    let mut only: Vec<&str> = Vec::new();
    only.push(cut_within(lines_asc[total - 1].as_str(), budget));
    proof {
        assert(lines.last() == lines_asc@[total - 1]@);
        assert(slices(only@) =~= seq![head_within(lines.last(), budget as nat)]);
    }
    bounded(render_input_context(prefix, only.as_slice(), dropped))
}

/// Assembles the context of a ready task: its own brief, then one line for
/// each completed dependency, ordered from oldest to newest.
pub fn build_input_context(task: &TeamTaskRow, deps_asc: &[&TeamTaskRow]) -> (r: String)
    ensures
        r@ == context_of(task@, row_refs(deps_asc@)),
        byte_len(r@) <= MAX_INPUT_CONTEXT_CHARS,
        byte_len(
            opening(task.subject@, opt_text(task.description)) + upstream_text(
                row_refs(deps_asc@),
            ),
        ) <= 8000 ==> r@ == opening(task.subject@, opt_text(task.description)) + upstream_text(
            row_refs(deps_asc@),
        ),
{
    let mut prefix = "[[BRIEF]]\n".to_owned();
    prefix.append(task.subject.as_str());
    if let Some(d) = &task.description {
        let desc = trim(d.as_str());
        if !desc.is_empty() {
            prefix.append("\n");
            prefix.append(desc);
        }
    }
    prefix.append("\n\n[[UPSTREAM]]\n");
    assert(prefix@ =~= context_prefix(task@));
    let mut lines: Vec<String> = Vec::new();
    let mut i: usize = 0;
    while i < deps_asc.len()
        invariant
            i <= deps_asc@.len(),
            lines@.len() == i,
            forall|k: int| 0 <= k < i ==> (#[trigger] lines@[k])@ == dep_line(deps_asc@[k]@),
        decreases deps_asc@.len() - i,
    {
        let dep = deps_asc[i];
        let mut line = "- ".to_owned();
        line.append(dep.id.as_str());
        line.append(": ");
        match &dep.result {
            Some(text) => line.append(trim_end(text.as_str())),
            None => {
                assert(trimmed_end(Seq::<char>::empty()) =~= Seq::<char>::empty());
            },
        }
        assert(line@ =~= dep_line(dep@));
        lines.push(line);
        i = i + 1;
    }
    proof {
        let deps = row_refs(deps_asc@);
        assert(texts(lines@) =~= dep_lines(deps));
        let all = opening(task.subject@, opt_text(task.description)) + upstream_text(deps);
        if byte_len(all) <= 8000 {
            law_every_fitting_result_is_told(task@, deps);
        }
    }
    cap_upstream(prefix.as_str(), lines.as_slice())
}

/// What dependencies tell, from oldest to newest: each one its id, and its result
/// without trailing white space, on a line of its own.
pub open spec fn upstream_text(deps: Seq<RowView>) -> Seq<char>
    decreases deps.len(),
{
    if deps.len() == 0 {
        Seq::empty()
    } else {
        upstream_text(deps.drop_last()) + "- "@ + deps.last().id + ": "@ + trimmed_end(
            match deps.last().result {
                Some(result) => result,
                None => Seq::empty(),
            },
        ) + "\n"@
    }
}

/// What a task is told before the results: its subject, and its description
/// without white space around it, where that leaves anything.
pub open spec fn opening(subject: Seq<char>, description: Option<Seq<char>>) -> Seq<char> {
    "[[BRIEF]]\n"@ + subject + (match description {
        Some(text) if !is_blank(text) => "\n"@ + trimmed(text),
        _ => Seq::empty(),
    }) + "\n\n[[UPSTREAM]]\n"@
}

/// The opening, how many of the oldest results were left out, and the others.
pub open spec fn shortened(
    subject: Seq<char>,
    description: Option<Seq<char>>,
    deps: Seq<RowView>,
    dropped: nat,
) -> Seq<char> {
    opening(subject, description) + "…"@ + decimal(dropped)
        + " older upstream result(s) truncated\n"@ + upstream_text(deps.skip(dropped as int))
}

proof fn lemma_upstream_text(deps: Seq<RowView>)
    ensures
        joined_lines(dep_lines(deps)) == upstream_text(deps),
    decreases deps.len(),
{
    if deps.len() > 0 {
        let lines = dep_lines(deps);
        assert(lines.drop_last() =~= dep_lines(deps.drop_last()));
        lemma_upstream_text(deps.drop_last());
        assert(joined_lines(lines) =~= upstream_text(deps));
    }
}

proof fn lemma_opening(task: RowView)
    ensures
        context_prefix(task) == opening(task.subject, task.description),
{
    if let Some(d) = task.description {
        lemma_trimmed_empty(d);
    }
    assert(context_prefix(task) =~= opening(task.subject, task.description));
}

proof fn lemma_shortened(task: RowView, deps: Seq<RowView>, k: nat)
    requires
        k < deps.len(),
    ensures
        rendered(
            context_prefix(task),
            newest(dep_lines(deps), k),
            (deps.len() - k) as nat,
        ) == shortened(task.subject, task.description, deps, (deps.len() - k) as nat),
{
    let d = (deps.len() - k) as nat;
    lemma_opening(task);
    assert(newest(dep_lines(deps), k) =~= dep_lines(deps.skip(d as int)));
    lemma_upstream_text(deps.skip(d as int));
    assert(rendered(context_prefix(task), newest(dep_lines(deps), k), d) =~= shortened(
        task.subject,
        task.description,
        deps,
        d,
    ));
}

/// Every dependency tells its result: where the opening and the lines of all
/// dependencies together take no more than the bound, the context is just that,
/// with the line of each dependency, in their order.
pub proof fn law_every_fitting_result_is_told(task: RowView, deps: Seq<RowView>)
    requires
        byte_len(opening(task.subject, task.description) + upstream_text(deps)) <= 8000,
    ensures
        context_of(task, deps) == opening(task.subject, task.description) + upstream_text(deps),
{
    lemma_opening(task);
    lemma_upstream_text(deps);
}

/// One dependency more is one line more, at the end, as long as all fit.
pub proof fn law_a_newer_result_is_told_last(task: RowView, deps: Seq<RowView>, dep: RowView)
    requires
        byte_len(opening(task.subject, task.description) + upstream_text(deps.push(dep))) <= 8000,
    ensures
        context_of(task, deps.push(dep)) == context_of(task, deps) + ("- "@ + dep.id + ": "@
            + trimmed_end(
            match dep.result {
                Some(result) => result,
                None => Seq::empty(),
            },
        ) + "\n"@),
        context_of(task, Seq::empty()) == opening(task.subject, task.description),
{
    let head = opening(task.subject, task.description);
    let line = "- "@ + dep.id + ": "@ + trimmed_end(
        match dep.result {
            Some(result) => result,
            None => Seq::empty(),
        },
    ) + "\n"@;
    assert(deps.push(dep).drop_last() =~= deps);
    let all = head + upstream_text(deps.push(dep));
    assert(all =~= head + upstream_text(deps) + line);
    lemma_encode_concat(head + upstream_text(deps), line);
    lemma_encode_concat(head, upstream_text(deps));
    law_every_fitting_result_is_told(task, deps.push(dep));
    law_every_fitting_result_is_told(task, deps);
    assert(head + upstream_text(Seq::empty()) =~= head);
    law_every_fitting_result_is_told(task, Seq::empty());
}

/// A result is left out only where the bound forces it, and is then counted:
/// where not all fit but the newest does, the context says how many of the oldest
/// are missing and tells all the others, within the bound; with one of the missing
/// it would exceed it.
pub proof fn law_left_out_results_are_counted(task: RowView, deps: Seq<RowView>)
    requires
        deps.len() > 1,
        byte_len(opening(task.subject, task.description) + upstream_text(deps)) > 8000,
        byte_len(
            shortened(task.subject, task.description, deps, (deps.len() - 1) as nat),
        ) <= 8000,
    ensures
        exists|dropped: nat|
            {
                &&& 1 <= dropped < deps.len()
                &&& context_of(task, deps) == #[trigger] shortened(
                    task.subject,
                    task.description,
                    deps,
                    dropped,
                )
                &&& byte_len(shortened(task.subject, task.description, deps, dropped)) <= 8000
                &&& dropped > 1 ==> byte_len(
                    shortened(task.subject, task.description, deps, (dropped - 1) as nat),
                ) > 8000
            },
{
    let prefix = context_prefix(task);
    let lines = dep_lines(deps);
    lemma_opening(task);
    lemma_upstream_text(deps);
    lemma_shortened(task, deps, 1);
    lemma_kept_from(prefix, lines, 0);
    lemma_kept_from(prefix, lines, 1);
    let k = kept_count(prefix, lines);
    assert(fits(prefix, lines, 1));
    lemma_all_kept(prefix, lines);
    assert(fits(prefix, lines, k));
    assert(k < lines.len()) by {
        if k == lines.len() {
            assert(byte_len(prefix + joined_lines(lines)) <= 8000);
        }
    }
    lemma_shortened(task, deps, k);
    let dropped = (deps.len() - k) as nat;
    if dropped > 1 {
        lemma_shortened(task, deps, k + 1);
    }
    assert(context_of(task, deps) == shortened(task.subject, task.description, deps, dropped));
}

/// The text is the opening, the count of the other results, if there are any, and
/// the first `n` characters of the newest result's line.
pub open spec fn tells_part(
    text: Seq<char>,
    task: RowView,
    deps: Seq<RowView>,
    n: int,
) -> bool {
    let older = (deps.len() - 1) as nat;
    let newest_only = upstream_text(seq![deps.last()]);
    let line = newest_only.drop_last();
    &&& 0 <= n <= line.len()
    &&& text == if older > 0 {
        opening(task.subject, task.description) + "…"@ + decimal(older)
            + " older upstream result(s) truncated\n"@ + line.take(n) + "\n"@
    } else {
        opening(task.subject, task.description) + line.take(n) + "\n"@
    }
}

/// Where not even the newest result fits, as much of its line is told as the bound
/// allows, behind the opening and the count of the others.
pub proof fn law_too_long_result_is_cut(task: RowView, deps: Seq<RowView>, none: Seq<char>)
    requires
        deps.len() > 0,
        byte_len(opening(task.subject, task.description) + upstream_text(deps)) > 8000,
        deps.len() > 1 ==> byte_len(
            shortened(task.subject, task.description, deps, (deps.len() - 1) as nat),
        ) > 8000,
        tells_part(none, task, deps, 0),
        byte_len(none) <= 8000,
    ensures
        byte_len(context_of(task, deps)) <= 8000,
        exists|n: int|
            {
                &&& #[trigger] tells_part(context_of(task, deps), task, deps, n)
                &&& forall|longer: Seq<char>| #[trigger]
                    tells_part(longer, task, deps, n + 1) ==> byte_len(longer) > 8000
            },
{
    let prefix = context_prefix(task);
    let lines = dep_lines(deps);
    let older = (deps.len() - 1) as nat;
    let head = prefix + marker(older);
    lemma_opening(task);
    lemma_upstream_text(deps);
    lemma_all_kept(prefix, lines);
    if older > 0 {
        lemma_shortened(task, deps, 1);
    } else {
        assert(newest(lines, 1) =~= newest(lines, lines.len()));
    }
    assert(!fits(prefix, lines, 1));
    assert(kept_count(prefix, lines) == 0);
    let line = lines.last();
    let only = upstream_text(seq![deps.last()]);
    reveal_strlit("\n");
    assert(seq![deps.last()].drop_last() =~= Seq::<RowView>::empty());
    assert(upstream_text(Seq::empty()) =~= Seq::<char>::empty());
    assert(only.drop_last() =~= line);
    assert(none =~= head + "\n"@);
    let budget = line_budget(prefix, older);
    let h = head_within(line, budget);
    law_cut_is_the_longest_beginning(line, budget);
    let whole = rendered(prefix, seq![h], older);
    assert(seq![h].drop_last() =~= Seq::<Seq<char>>::empty());
    assert(joined_lines(Seq::empty()) =~= Seq::<char>::empty());
    assert(joined_lines(seq![h]) =~= h + "\n"@);
    assert(whole =~= head + h + "\n"@);
    law_cut_is_the_longest_beginning(whole, 8000);
    lemma_encode_concat(head + h, "\n"@);
    lemma_encode_concat(head, h);
    lemma_encode_concat(head, "\n"@);
    vstd::utf8::is_ascii_chars_encode_utf8("\n"@);
    assert(byte_len(whole) <= 8000);
    assert(context_of(task, deps) == whole);
    let n = h.len() as int;
    assert(line.take(n) == h);
    if older > 0 {
        assert(whole =~= opening(task.subject, task.description) + "…"@ + decimal(older)
            + " older upstream result(s) truncated\n"@ + line.take(n) + "\n"@);
    } else {
        assert(whole =~= opening(task.subject, task.description) + line.take(n) + "\n"@);
    }
    assert(tells_part(whole, task, deps, n));
    assert forall|longer: Seq<char>| #[trigger] tells_part(
        longer,
        task,
        deps,
        n + 1,
    ) implies byte_len(longer) > 8000 by {
        let more = line.take(n + 1);
        assert(longer =~= head + more + "\n"@);
        lemma_encode_concat(head + more, "\n"@);
        lemma_encode_concat(head, more);
    }
}

/// Where the opening exceeds the bound and nothing is handed on, the context is as
/// much of the opening as the bound allows.
pub proof fn law_too_long_opening_is_cut(task: RowView)
    requires
        byte_len(opening(task.subject, task.description)) > 8000,
    ensures
        context_of(task, Seq::empty()) == head_within(
            opening(task.subject, task.description),
            8000,
        ),
{
    lemma_opening(task);
    let head = opening(task.subject, task.description);
    assert(dep_lines(Seq::empty()) =~= Seq::<Seq<char>>::empty());
    assert(head + joined_lines(Seq::empty()) =~= head);
}

proof fn lemma_kept_from(prefix: Seq<char>, lines: Seq<Seq<char>>, k: nat)
    requires
        k <= lines.len(),
    ensures
        k <= kept_from(prefix, lines, k) <= lines.len(),
        forall|j: nat| k < j <= kept_from(prefix, lines, k) ==> #[trigger] fits(prefix, lines, j),
        kept_from(prefix, lines, k) < lines.len() ==> !fits(
            prefix,
            lines,
            kept_from(prefix, lines, k) + 1,
        ),
    decreases lines.len() - k,
{
    if k < lines.len() && fits(prefix, lines, k + 1) {
        lemma_kept_from(prefix, lines, k + 1);
    }
}

/// The newest result goes first into the context: where it fits on its own, or
/// all results fit together, it is there whole, behind every other line that is
/// kept. What is kept fits, and one line more would not.
pub proof fn law_newest_result_is_kept(prefix: Seq<char>, lines: Seq<Seq<char>>)
    requires
        lines.len() > 0,
        fits(prefix, lines, 1) || fits(prefix, lines, lines.len()),
    ensures
        ({
            let k = kept_count(prefix, lines);
            &&& 1 <= k <= lines.len()
            &&& capped(prefix, lines) == rendered(
                prefix,
                newest(lines, k),
                (lines.len() - k) as nat,
            )
            &&& newest(lines, k).last() == lines.last()
            &&& fits(prefix, lines, k)
            &&& k < lines.len() ==> !fits(prefix, lines, k + 1)
        }),
{
    lemma_all_kept(prefix, lines);
    lemma_kept_from(prefix, lines, 0);
    lemma_kept_from(prefix, lines, 1);
}

/// Rendering all lines writes no count.
proof fn lemma_all_kept(prefix: Seq<char>, lines: Seq<Seq<char>>)
    ensures
        rendered(prefix, newest(lines, lines.len()), 0) == prefix + joined_lines(lines),
{
    assert(newest(lines, lines.len()) =~= lines);
    assert(prefix + marker(0) =~= prefix);
}

/// Lines are left out on overflow only: where all of them fit, all are kept, in
/// their order, and nothing is said of others.
pub proof fn law_fitting_results_are_all_kept(prefix: Seq<char>, lines: Seq<Seq<char>>)
    requires
        fits(prefix, lines, lines.len()),
    ensures
        capped(prefix, lines) == prefix + joined_lines(lines),
{
    lemma_all_kept(prefix, lines);
}

/// What the lines take: their own bytes, and one for each line break.
pub open spec fn lines_len(lines: Seq<Seq<char>>) -> nat
    decreases lines.len(),
{
    if lines.len() == 0 {
        0
    } else {
        lines_len(lines.drop_last()) + byte_len(lines.last()) + 1
    }
}

/// Whether all lines fit is a matter of adding up their bytes.
pub proof fn law_fitting_is_a_sum(prefix: Seq<char>, lines: Seq<Seq<char>>)
    ensures
        byte_len(prefix + joined_lines(lines)) == byte_len(prefix) + lines_len(lines),
        fits(prefix, lines, lines.len()) <==> byte_len(prefix) + lines_len(lines)
            <= MAX_INPUT_CONTEXT_CHARS,
{
    lemma_all_kept(prefix, lines);
    lemma_encode_concat(prefix, joined_lines(lines));
    lemma_joined_len(lines);
}

proof fn lemma_joined_len(lines: Seq<Seq<char>>)
    ensures
        byte_len(joined_lines(lines)) == lines_len(lines),
    decreases lines.len(),
{
    if lines.len() > 0 {
        lemma_joined_len(lines.drop_last());
        let front = joined_lines(lines.drop_last());
        lemma_encode_concat(front + lines.last(), "\n"@);
        lemma_encode_concat(front, lines.last());
        reveal_strlit("\n");
        vstd::utf8::is_ascii_chars_encode_utf8("\n"@);
    }
}

} // verus!
