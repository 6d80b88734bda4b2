//! Laws of edit contexts, configuration values and reports.
use crate::cli::config;
use crate::cli::config::{ConfigValueKind, ConstitutionalConfig, TableEntry, ValueView};
use crate::cli::config_file;
use crate::cli::edit;
use crate::cli::event_line;
use crate::cli::fix_report;
use crate::cli::progress;
use crate::cli::progress::StateView;
use crate::cli::watch_cycle::{CycleView, RepairView};
use crate::cli::watch_report;
use crate::db::AgentLogEntry;
use crate::text::chars;
use crate::text::find;
use crate::text::laws;
use crate::text::number;
use crate::text::split;
use crate::verification::grounding::GroundingRound;
use vstd::prelude::*;

verus! {

/// A file with a line behind its last colon is read as the two; without a line it is the whole
/// text and the first line.
pub proof fn law_files_with_lines_read_back(file: Seq<char>, line: nat, plain: Seq<char>)
    requires
        line <= u32::MAX,
        !plain.contains(':'),
    ensures
        edit::file_and_line(file + seq![':'] + number::decimal(line)) == (file, line),
        edit::file_and_line(plain) == (plain, 1nat),
{
    let d = number::decimal(line);
    number::lemma_decimal(line);
    number::law_decimal_reads_back(line, u32::MAX as nat);
    assert(!d.contains(':')) by {
        if d.contains(':') {
            let i = choose|i: int| 0 <= i < d.len() && d[i] == ':';
            assert(chars::is_digit(d[i]));
        }
    }
    laws::law_cut_at_last(file, ':', d);
    laws::law_cut_at_last(file, ':', plain);
}

/// A window around a line holds exactly the lines of the file within its reach.
pub proof fn law_windows_hold_what_is_in_reach(line: int, reach: int, count: int, k: int)
    requires
        1 <= line <= count,
        0 <= reach,
    ensures
        edit::window_start(line, reach) <= k <= edit::window_end(line, reach, count) <==> 1 <= k
            <= count && line - reach <= k <= line + reach,
{
}

/// The line that is shown is the one that was asked for, or the nearest one that the file has.
pub proof fn law_nearest_lines(wanted: int, count: int)
    requires
        1 <= count,
    ensures
        1 <= edit::nearest_line(wanted, count) <= count,
        1 <= wanted <= count ==> edit::nearest_line(wanted, count) == wanted,
        wanted < 1 ==> edit::nearest_line(wanted, count) == 1,
        wanted > count ==> edit::nearest_line(wanted, count) == count,
{
}

/// A window shows one line for each line that it holds, with its text at the end; only the line
/// that is asked for is marked.
pub proof fn law_windows_show_each_line(
    all: Seq<Seq<char>>,
    start: int,
    end: int,
    highlight: int,
    k: int,
)
    requires
        1 <= start <= k <= end <= all.len(),
    ensures
        ({
            let shown = edit::numbered_lines(all, start, end, highlight);
            &&& shown.len() == end - start + 1
            &&& find::has_suffix(shown[k - start], all[k - 1])
            &&& find::begins(shown[k - start], '>') <==> k == highlight
        }),
{
    reveal_strlit(">");
    reveal_strlit(" ");
    let s = edit::numbered(all, k, highlight);
    let t = all[k - 1];
    assert(s.subrange(s.len() - t.len(), s.len() as int) =~= t);
    assert(s[0] == (if k == highlight {
        '>'
    } else {
        ' '
    }));
    assert(edit::numbered_lines(all, start, end, highlight)[k - start] == s);
}

/// A level of effort is recognised in letters of any case.
pub proof fn law_efforts_ignore_case(s: Seq<char>)
    ensures
        edit::named_effort(chars::lowercase(s)) == edit::named_effort(s),
{
    assert(chars::lowercase(chars::lowercase(s)) =~= chars::lowercase(s)) by {
        assert forall|c: char| #[trigger] chars::lower(chars::lower(c)) == chars::lower(c) by {}
    }
}

/// A switch is read only from the words for yes and no, a whole number from any that fits, and a
/// text from anything, as it is.
pub proof fn law_values_read_back(raw: Seq<char>, n: int)
    requires
        i64::MIN <= n <= i64::MAX,
    ensures
        config::read_value(raw, ConfigValueKind::Text) == Ok::<ValueView, Seq<char>>(
            ValueView::Text(raw),
        ),
        config::read_value(number::decimal_int(n), ConfigValueKind::Integer) == Ok::<
            ValueView,
            Seq<char>,
        >(ValueView::Integer(n)),
        config::read_value(raw, ConfigValueKind::Bool) is Ok <==> raw == "true"@ || raw
            == "false"@,
        config::read_value("true"@, ConfigValueKind::Bool) == Ok::<ValueView, Seq<char>>(
            ValueView::Bool(true),
        ),
        config::read_value("false"@, ConfigValueKind::Bool) == Ok::<ValueView, Seq<char>>(
            ValueView::Bool(false),
        ),
{
    laws::law_integers_read_back(n);
    reveal_strlit("true");
    reveal_strlit("false");
    assert("true"@.len() == 4 && "false"@.len() == 5);
}

/// Every rule that is filled is told, and no other is.
pub proof fn law_filled_rules_are_told(c: ConstitutionalConfig)
    ensures
        c.style_guide@.len() == 0 && c.architecture_rules@.len() == 0
            && c.naming_conventions@.len() == 0 ==> config::constitution(c).len() == 0,
        c.style_guide@.len() > 0 ==> find::has_text(config::constitution(c), c.style_guide@),
        c.architecture_rules@.len() > 0 ==> find::has_text(
            config::constitution(c),
            c.architecture_rules@,
        ),
        c.naming_conventions@.len() > 0 ==> find::has_text(
            config::constitution(c),
            c.naming_conventions@,
        ),
{
    let a = config::rule("Style guide: "@, c.style_guide@);
    let b = config::rule("Architecture rules: "@, c.architecture_rules@);
    let d = config::rule("Naming conventions: "@, c.naming_conventions@);
    let all = a + b + d;
    if c.style_guide@.len() > 0 {
        assert(all[0] == "Style guide: "@ + c.style_guide@);
        lemma_joined_holds(all, "\n"@, 0, "Style guide: "@, c.style_guide@);
    }
    if c.architecture_rules@.len() > 0 {
        let i = a.len() as int;
        assert(all[i] == "Architecture rules: "@ + c.architecture_rules@);
        lemma_joined_holds(all, "\n"@, i, "Architecture rules: "@, c.architecture_rules@);
    }
    if c.naming_conventions@.len() > 0 {
        let i = (a + b).len() as int;
        assert(all[i] == "Naming conventions: "@ + c.naming_conventions@);
        lemma_joined_holds(all, "\n"@, i, "Naming conventions: "@, c.naming_conventions@);
    }
}

proof fn lemma_joined_holds(
    parts: Seq<Seq<char>>,
    sep: Seq<char>,
    i: int,
    head: Seq<char>,
    text: Seq<char>,
)
    requires
        0 <= i < parts.len(),
        parts[i] == head + text,
    ensures
        find::has_text(split::joined(parts, sep), text),
    decreases parts.len(),
{
    let all = split::joined(parts, sep);
    if parts.len() == 1 {
        assert(all.subrange(head.len() as int, head.len() as int + text.len()) =~= text);
        assert(find::occurs_at(all, text, head.len() as int));
    } else if i == parts.len() - 1 {
        let at = (split::joined(parts.drop_last(), sep) + sep + head).len() as int;
        assert(all.subrange(at, at + text.len()) =~= text);
        assert(find::occurs_at(all, text, at));
    } else {
        lemma_joined_holds(parts.drop_last(), sep, i, head, text);
        let front = split::joined(parts.drop_last(), sep);
        let at = choose|at: int| find::occurs_at(front, text, at);
        assert(all.subrange(at, at + text.len()) =~= front.subrange(at, at + text.len()));
        assert(find::occurs_at(all, text, at));
    }
}

/// A value is found exactly if every name on the way to it is there.
pub proof fn law_values_are_found_by_their_names(
    m: Map<Seq<Seq<char>>, Seq<char>>,
    path: Seq<Seq<char>>,
    i: int,
)
    requires
        0 <= i <= path.len(),
    ensures
        config_file::walk(m, path, i) is Some <==> forall|k: int|
            i < k <= path.len() ==> m.dom().contains(#[trigger] path.take(k)),
        config_file::walk(m, path, i) matches Some(x) ==> x == m[path],
    decreases path.len() - i,
{
    if i < path.len() {
        law_values_are_found_by_their_names(m, path, i + 1);
        if forall|k: int| i < k <= path.len() ==> m.dom().contains(#[trigger] path.take(k)) {
            assert(m.dom().contains(path.take(i + 1)));
        }
        if config_file::walk(m, path, i) is Some {
            assert forall|k: int| i < k <= path.len() implies m.dom().contains(
                #[trigger] path.take(k),
            ) by {
                if k > i + 1 {
                    assert(m.dom().contains(path.take(k)));
                }
            }
        }
    }
}

/// Opening the way to a key makes tables of all names on it that are missing and changes nothing
/// else; it fails exactly if one of them is something else than a table.
pub proof fn law_tables_are_opened(
    m: Map<Seq<Seq<char>>, Option<Seq<char>>>,
    path: Seq<Seq<char>>,
    i: int,
)
    requires
        0 <= i,
    ensures
        ({
            let r = config_file::opened(m, path, i);
            &&& r.1 is None ==> forall|k: int|
                i < k < path.len() ==> config_file::entry_kind(
                    r.0,
                    #[trigger] path.take(k),
                ) is Table
            &&& r.1 matches Some(j) ==> i <= j < path.len() - 1 && config_file::entry_kind(
                m,
                path.take(j + 1),
            ) is Other
            &&& forall|p: Seq<Seq<char>>| #[trigger]
                m.dom().contains(p) ==> r.0.dom().contains(p) && r.0[p] == m[p]
        }),
    decreases path.len() - i,
{
    if i + 1 < path.len() {
        let part = path.take(i + 1);
        match config_file::entry_kind(m, part) {
            TableEntry::Missing => {
                let more = m.insert(part, None);
                law_tables_are_opened(more, path, i + 1);
                let r = config_file::opened(m, path, i);
                assert(more.dom().contains(part));
                if let Some(j) = r.1 {
                    assert(path.take(j + 1).len() != part.len());
                }
                assert forall|p: Seq<Seq<char>>| #[trigger] m.dom().contains(p) implies r.0.dom().contains(
                    p,
                ) && r.0[p] == m[p] by {
                    assert(more.dom().contains(p));
                }
                if r.1 is None {
                    assert forall|k: int| i < k < path.len() implies config_file::entry_kind(
                        r.0,
                        #[trigger] path.take(k),
                    ) is Table by {
                        if k == i + 1 {
                            assert(r.0.dom().contains(part));
                        }
                    }
                }
            },
            TableEntry::Table => {
                law_tables_are_opened(m, path, i + 1);
                let r = config_file::opened(m, path, i);
                assert(m.dom().contains(part));
                if r.1 is None {
                    assert forall|k: int| i < k < path.len() implies config_file::entry_kind(
                        r.0,
                        #[trigger] path.take(k),
                    ) is Table by {
                        if k == i + 1 {
                            assert(r.0.dom().contains(part));
                        }
                    }
                }
            },
            TableEntry::Other => {},
        }
    }
}

/// The candidates that won are those that succeeded and were accepted, in their order.
pub proof fn law_winners_are_the_accepted(a: Seq<StateView>, b: Seq<StateView>, s: StateView)
    ensures
        fix_report::winners(a + b) == fix_report::winners(a) + fix_report::winners(b),
        s.status == "success"@ && s.meta.outcome == Some("accepted"@) ==> fix_report::winners(
            seq![s],
        ) == seq![fix_report::winner(s)],
        s.status != "success"@ || s.meta.outcome != Some("accepted"@) ==> fix_report::winners(
            seq![s],
        ).len() == 0,
    decreases b.len(),
{
    let x = fix_report::winners(a);
    assert(seq![s].drop_last() =~= Seq::<StateView>::empty());
    assert(seq![s].last() == s);
    let none = fix_report::winners(Seq::<StateView>::empty());
    assert(none =~= Seq::empty());
    assert(none.push(fix_report::winner(s)) =~= seq![fix_report::winner(s)]);
    if b.len() == 0 {
        assert(a + b =~= a);
        assert(x + fix_report::winners(b) =~= x);
    } else {
        assert((a + b).drop_last() =~= a + b.drop_last());
        assert((a + b).last() == b.last());
        law_winners_are_the_accepted(a, b.drop_last(), s);
        let y = fix_report::winners(b.drop_last());
        let w = fix_report::winner(b.last());
        assert((x + y).push(w) =~= x + y.push(w));
    }
}

/// The calls of all rounds are counted.
pub proof fn law_calls_are_counted(rounds: Seq<GroundingRound>, r: GroundingRound)
    ensures
        fix_report::calls_in(rounds.push(r), rounds.len() as int + 1) == fix_report::calls_in(
            rounds,
            rounds.len() as int,
        ) + r.tool_calls@.len(),
        fix_report::calls_in(Seq::empty(), 0) == 0,
{
    lemma_calls_front(rounds, rounds.push(r), rounds.len() as int);
}

proof fn lemma_calls_front(a: Seq<GroundingRound>, b: Seq<GroundingRound>, n: int)
    requires
        n <= a.len(),
        n <= b.len(),
        forall|i: int| 0 <= i < n ==> a[i] == b[i],
    ensures
        fix_report::calls_in(a, n) == fix_report::calls_in(b, n),
    decreases n,
{
    if n > 0 {
        lemma_calls_front(a, b, n - 1);
    }
}

/// A change in bytes is shown with its sign, so that what is shown tells growing from
/// shrinking.
pub proof fn law_changes_are_signed(n: int)
    requires
        i64::MIN <= n <= i64::MAX,
    ensures
        number::parsed_integer(event_line::signed(n)) == Some(n),
        find::begins(event_line::signed(n), '+') <==> n >= 0,
        find::begins(event_line::signed(n), '-') <==> n < 0,
{
    reveal_strlit("+");
    laws::law_integers_read_back(n);
    if n >= 0 {
        number::law_decimal_reads_back(n as nat, i64::MAX as nat);
        number::lemma_decimal(n as nat);
        let d = number::decimal(n as nat);
        let s = event_line::signed(n);
        assert(s[0] == '+');
        assert(s.subrange(1, s.len() as int) =~= d);
        assert(chars::is_digit(d[0]));
        assert(number::number_digits(s) == d);
    } else {
        assert(event_line::signed(n)[0] == '-');
    }
}

/// Every active agent is listed while there are no more than the list takes; of more the first
/// are listed, and how many are left out.
pub proof fn law_agents_are_listed(s: Seq<AgentLogEntry>, i: int)
    requires
        0 <= i < s.len(),
    ensures
        event_line::agents_shown(s).len() == s.len() + 1,
        event_line::agents_shown(s)[i + 1] == event_line::agent_line(s[i]),
        s.len() <= event_line::LIVE_AGENT_LIMIT ==> event_line::live_agents_shown(s)
            == event_line::agents_shown(s),
        i < event_line::LIVE_AGENT_LIMIT ==> event_line::live_agents_shown(s)[i + 1]
            == event_line::agent_line(s[i]),
        s.len() > event_line::LIVE_AGENT_LIMIT ==> event_line::live_agents_shown(s).len()
            == event_line::LIVE_AGENT_LIMIT + 2,
{
}

/// What is told of a repair is its verifier, its artifacts and its error, as far as there are
/// any; without a repair only the decision and the artifacts of the cycle.
pub proof fn law_cycle_lines_tell_of_the_repair(
    c: CycleView,
    root: Seq<char>,
    r: RepairView,
)
    requires
        c.decision is Some,
    ensures
        watch_report::cycle_lines(c.decision.unwrap(), root, None).len() == 2,
        watch_report::cycle_lines(c.decision.unwrap(), root, Some(r)).len() == 2 + (
        if r.verifier is Some {
            1int
        } else {
            0
        }) + (if r.artifacts is Some {
            1int
        } else {
            0
        }) + (if r.error is Some {
            1int
        } else {
            0
        }),
        find::has_suffix(watch_report::cycle_lines(c.decision.unwrap(), root, Some(r))[1], root),
        r.error matches Some(e) ==> find::has_suffix(
            watch_report::cycle_lines(c.decision.unwrap(), root, Some(r)).last(),
            e,
        ),
{
    let shown = watch_report::cycle_lines(c.decision.unwrap(), root, Some(r));
    let second = "Artifact bundle: "@ + root;
    assert(second.subrange(second.len() - root.len(), second.len() as int) =~= root);
    if let Some(e) = r.error {
        let last = "Repair note: "@ + e;
        assert(last.subrange(last.len() - e.len(), last.len() as int) =~= e);
        assert(shown.last() == last);
    }
}

proof fn lemma_joined_shows(parts: Seq<Seq<char>>, sep: Seq<char>, i: int)
    requires
        0 <= i < parts.len(),
    ensures
        find::has_text(split::joined(parts, sep), parts[i]),
{
    let e = Seq::<char>::empty();
    assert(parts[i] =~= e + parts[i]);
    lemma_joined_holds(parts, sep, i, e, parts[i]);
}

/// The line on a candidate tells its agent, its status, its file, what was decided of it and
/// why, and how often it was tried again if it was.
pub proof fn law_candidate_lines_tell_the_candidate(
    now: Seq<char>,
    transition: Seq<char>,
    s: StateView,
)
    ensures
        ({
            let parts = event_line::candidate_parts(now, transition, s);
            let line = split::joined(parts, " | "@);
            &&& find::has_text(line, "decision="@ + progress::decision(s))
            &&& find::has_text(line, "verify="@ + progress::verification_result(s))
            &&& progress::explanation(s) matches Some(why) ==> find::has_text(line, "why="@ + why)
            &&& s.meta.source matches Some(x) ==> find::has_text(line, "source="@ + x)
            &&& find::has_text(line, s.status + " | "@ + s.file)
            &&& s.meta.retries matches Some(n) ==> (n > 0 ==> find::has_text(
                line,
                "retry="@ + number::decimal(n as nat),
            ))
            &&& find::has_text(line, "tokens="@ + number::decimal_int(s.tokens as int))
        }),
{
    let parts = event_line::candidate_parts(now, transition, s);
    let a = event_line::part("source="@, s.meta.source);
    let b = event_line::part("retry="@, event_line::retried(s.meta.retries));
    let c = event_line::part("outcome="@, s.meta.outcome);
    let w = event_line::part("why="@, progress::explanation(s));
    let l = event_line::part("lines="@, event_line::counted(s.meta.touched));
    let y = event_line::part("bytes="@, event_line::delta(s.meta.delta));
    let at = 2 + a.len() + b.len() + c.len();
    assert(parts[1] == s.status + " | "@ + s.file);
    lemma_joined_shows(parts, " | "@, 1);
    if s.meta.source is Some {
        assert(parts[2] == a[0]);
        lemma_joined_shows(parts, " | "@, 2);
    }
    if b.len() > 0 {
        assert(parts[2 + a.len() as int] == b[0]);
        lemma_joined_shows(parts, " | "@, 2 + a.len() as int);
    }
    assert(parts[at as int] == "decision="@ + progress::decision(s));
    lemma_joined_shows(parts, " | "@, at as int);
    assert(parts[at as int + 1] == "verify="@ + progress::verification_result(s));
    lemma_joined_shows(parts, " | "@, at as int + 1);
    if w.len() > 0 {
        assert(parts[at as int + 2] == w[0]);
        lemma_joined_shows(parts, " | "@, at as int + 2);
    }
    let tokens = at as int + 2 + w.len() + l.len() + y.len();
    assert(parts[tokens] == "tokens="@ + number::decimal_int(s.tokens as int));
    lemma_joined_shows(parts, " | "@, tokens);
}

/// What is told of a run of a command says whether it succeeded and how it ended.
pub proof fn law_output_heads_tell_the_end(label: Seq<char>, r: crate::cli::watch::ResultView)
    ensures
        find::has_text(watch_report::output_head(label, r), label),
        r.success ==> find::has_suffix(watch_report::output_head(label, r), "true"@),
        !r.success ==> find::has_suffix(watch_report::output_head(label, r), "false"@),
        r.exit_code matches Some(n) ==> find::has_text(
            watch_report::output_head(label, r),
            "exit="@ + number::decimal_int(n as int) + " success="@,
        ),
{
    reveal_strlit("] mode=interactive exit=");
    reveal_strlit("exit=");
    let s = watch_report::output_head(label, r);
    let at = "[watch:"@.len() as int;
    assert(s.subrange(at, at + label.len()) =~= label);
    assert(find::occurs_at(s, label, at));
    let end = if r.success {
        "true"@
    } else {
        "false"@
    };
    assert(s.subrange(s.len() - end.len(), s.len() as int) =~= end);
    if let Some(n) = r.exit_code {
        let t = "exit="@ + number::decimal_int(n as int) + " success="@;
        let i = at + label.len() + "] mode=interactive "@.len();
        reveal_strlit("] mode=interactive ");
        assert(s.subrange(i, i + t.len()) =~= t);
        assert(find::occurs_at(s, t, i));
    }
}

} // verus!
