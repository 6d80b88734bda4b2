//! The texts that go with candidates: names, places and edit histories.
use crate::engine::verify;
use crate::engine::verify::{CommandView, ResultView, VerifyResult};
use crate::sorting;
use crate::text::chars;
use crate::text::chars::{concat2, concat3, own, to_chars};
use crate::text::find;
use crate::text::find::trim;
use crate::text::number;
use crate::text::number::format_usize;
use crate::text::pad;
use crate::text::pad::format_padded;
use crate::text::split;
use crate::text::split::{join, lines};
use crate::thermal;
use crate::thermal::ExecutionPhase;
use vstd::prelude::*;
use vstd::string::*;

verus! {

broadcast use chars::lemma_texts_push, chars::lemma_texts_empty;

/// A character of a path that can stand in a name.
pub open spec fn tame(c: char) -> char {
    if c == '/' || c == '\\' || c == ':' || c == ' ' {
        '_'
    } else {
        c
    }
}

/// A path as one name.
pub open spec fn tamed(s: Seq<char>) -> Seq<char> {
    Seq::new(s.len(), |i: int| tame(s[i]))
}

/// A path as one name.
pub fn sanitize_path_component(file_path: &str) -> (r: String)
    ensures
        r@ == tamed(file_path@),
{
    let x = to_chars(file_path);
    let mut out = String::new();
    let mut i: usize = 0;
    proof {
        assert(out@ =~= tamed(file_path@).take(0));
    }
    while i < x.len()
        invariant
            x@ == file_path@,
            i <= x@.len(),
            out@ == tamed(file_path@).take(i as int),
        decreases x@.len() - i,
    {
        let c = x[i];
        out.push(
            if c == '/' || c == '\\' || c == ':' || c == ' ' {
                '_'
            } else {
                c
            },
        );
        proof {
            assert(tamed(file_path@).take(i + 1) =~= tamed(file_path@).take(i as int).push(
                tame(x@[i as int]),
            ));
        }
        i = i + 1;
    }
    proof {
        assert(tamed(file_path@).take(x@.len() as int) =~= tamed(file_path@));
    }
    out
}

/// The id of the agent for a candidate of a step.
pub fn candidate_agent_id(step_index: usize, candidate_index: usize) -> (r: String)
    requires
        step_index < usize::MAX,
        candidate_index < usize::MAX,
    ensures
        r@ == "fix-step-"@ + pad::zero_padded((step_index + 1) as nat, 4) + "-candidate-"@
            + pad::zero_padded((candidate_index + 1) as nat, 2),
{
    let mut r = concat3("fix-step-", format_padded(step_index + 1, 4).as_str(), "-candidate-");
    r.append(format_padded(candidate_index + 1, 2).as_str());
    r
}

/// The name of the directory of a step.
pub fn step_directory(step_index: usize, file_path: &str) -> (r: String)
    requires
        step_index < usize::MAX,
    ensures
        r@ == "step-"@ + pad::zero_padded((step_index + 1) as nat, 4) + "-"@ + tamed(file_path@),
{
    let mut r = concat3("step-", format_padded(step_index + 1, 4).as_str(), "-");
    r.append(sanitize_path_component(file_path).as_str());
    r
}

/// The name of the directory of a candidate.
pub fn candidate_directory(candidate_index: usize) -> (r: String)
    requires
        candidate_index < usize::MAX,
    ensures
        r@ == "candidate-"@ + pad::zero_padded((candidate_index + 1) as nat, 2),
{
    concat2("candidate-", format_padded(candidate_index + 1, 2).as_str())
}

/// The errors as one text.
pub open spec fn errors_text(errors: Seq<Seq<char>>) -> Seq<char> {
    if errors.len() == 0 {
        "verification failed without structured errors"@
    } else {
        split::joined(errors, "\n"@)
    }
}

/// The errors as one text.
pub fn join_verification_errors(errors: &[String]) -> (r: String)
    ensures
        r@ == errors_text(chars::texts(errors@)),
{
    proof {
        assert(chars::texts(errors@).len() == errors@.len());
    }
    if errors.len() == 0 {
        return own("verification failed without structured errors");
    }
    join(errors, "\n")
}

/// Whether one of the commands reported a structured failure.
pub open spec fn any_failure(cs: Seq<CommandView>) -> bool {
    exists|i: int| 0 <= i < cs.len() && (#[trigger] cs[i]).failure is Some
}

/// The sections of the history that a retry is given.
pub open spec fn retry_sections(
    instruction: Seq<char>,
    r: ResultView,
    critique: Seq<char>,
    structured: Seq<char>,
) -> Seq<Seq<char>> {
    let a = seq!["original_instruction:\n"@ + instruction];
    let b = if r.errors.len() > 0 {
        a.push("verification_errors:\n"@ + split::joined(r.errors, "\n"@))
    } else {
        a
    };
    let c = if any_failure(r.commands) {
        b.push("structured_failures:\n"@ + structured)
    } else {
        b
    };
    c.push("critique:\n"@ + critique)
}

fn has_failure(r: &VerifyResult) -> (b: bool)
    ensures
        b == any_failure(r@.commands),
{
    let ghost all = r@.commands;
    let mut i: usize = 0;
    while i < r.command_results.len()
        invariant
            all == sorting::views(r.command_results@),
            i <= r.command_results@.len(),
            forall|j: int| 0 <= j < i ==> (#[trigger] all[j]).failure is None,
        decreases r.command_results@.len() - i,
    {
        proof {
            assert(all[i as int] == r.command_results@[i as int]@);
        }
        if r.command_results[i].parsed_failure.is_some() {
            proof {
                assert(all[i as int].failure is Some);
            }
            return true;
        }
        i = i + 1;
    }
    false
}

/// The history that a retry is given. `structured` holds the structured failures as JSON
/// text.
pub fn build_retry_history(
    instruction: &str,
    verify: &VerifyResult,
    critique: &str,
    structured: &str,
) -> (r: String)
    ensures
        r@ == split::joined(
            retry_sections(instruction@, verify@, critique@, structured@),
            "\n\n"@,
        ),
{
    let mut out: Vec<String> = Vec::new();
    out.push(concat2("original_instruction:\n", instruction));
    proof {
        assert(chars::texts(out@) =~= seq!["original_instruction:\n"@ + instruction@]);
        assert(chars::texts(verify.errors@).len() == verify.errors@.len());
    }
    if verify.errors.len() > 0 {
        out.push(
            concat2("verification_errors:\n", join(verify.errors.as_slice(), "\n").as_str()),
        );
    }
    if has_failure(verify) {
        out.push(concat2("structured_failures:\n", structured));
    }
    out.push(concat2("critique:\n", critique));
    join(out.as_slice(), "\n\n")
}

/// The lines of an instruction that are not blank, each trimmed and marked as added.
pub open spec fn added_lines(ls: Seq<Seq<char>>) -> Seq<Seq<char>>
    decreases ls.len(),
{
    if ls.len() == 0 {
        Seq::empty()
    } else {
        let front = added_lines(ls.drop_last());
        let l = find::trimmed(ls.last());
        if l.len() > 0 {
            front.push("+ "@ + l)
        } else {
            front
        }
    }
}

/// An instruction as added lines.
pub open spec fn added_instruction(instruction: Seq<char>) -> Seq<char> {
    let text = split::joined(added_lines(split::lines_of(instruction)), "\n"@);
    if text.len() == 0 {
        "+ (no explicit instruction provided)"@
    } else {
        text
    }
}

/// The history that the first attempt of a candidate is given.
pub open spec fn seed_history(
    path: Seq<char>,
    instruction: Seq<char>,
    priority: Seq<char>,
    phase: ExecutionPhase,
    candidate_index: nat,
) -> Seq<char> {
    "--- a/"@ + path + "\n+++ b/"@ + path + "\n@@ -0,0 +1,5 @@\n+ phase: "@ + thermal::phase_name(
        phase,
    ) + "\n+ candidate: "@ + number::decimal(candidate_index + 1) + "\n+ priority: "@ + priority
        + "\n+ file: "@ + path + "\n"@ + added_instruction(instruction) + "\n"@
}

fn mark_instruction(instruction: &str) -> (r: String)
    ensures
        r@ == added_instruction(instruction@),
{
    let ls = lines(instruction);
    let ghost all = chars::texts(ls@);
    let mut out: Vec<String> = Vec::new();
    let mut i: usize = 0;
    while i < ls.len()
        invariant
            all == chars::texts(ls@),
            i <= ls@.len(),
            chars::texts(out@) == added_lines(all.take(i as int)),
        decreases ls@.len() - i,
    {
        proof {
            assert(all.take(i + 1).drop_last() =~= all.take(i as int));
            assert(all.take(i + 1).last() == ls@[i as int]@);
        }
        let l = trim(ls[i].as_str());
        if !l.as_str().is_empty() {
            out.push(concat2("+ ", l.as_str()));
        }
        i = i + 1;
    }
    proof {
        assert(all.take(all.len() as int) =~= all);
    }
    let text = join(out.as_slice(), "\n");
    if text.as_str().is_empty() {
        own("+ (no explicit instruction provided)")
    } else {
        text
    }
}

/// The history that the first attempt of a candidate is given. `priority_text` is the
/// priority of the step with three decimals.
pub fn build_seed_history(
    file_path: &str,
    instruction: &str,
    priority_text: &str,
    phase: ExecutionPhase,
    candidate_index: usize,
) -> (r: String)
    requires
        candidate_index < usize::MAX,
    ensures
        r@ == seed_history(
            file_path@,
            instruction@,
            priority_text@,
            phase,
            candidate_index as nat,
        ),
{
    let mut r = concat3("--- a/", file_path, "\n+++ b/");
    r.append(file_path);
    r.append("\n@@ -0,0 +1,5 @@\n+ phase: ");
    r.append(phase.as_str());
    r.append("\n+ candidate: ");
    r.append(format_usize(candidate_index + 1).as_str());
    r.append("\n+ priority: ");
    r.append(priority_text);
    r.append("\n+ file: ");
    r.append(file_path);
    r.append("\n");
    r.append(mark_instruction(instruction).as_str());
    r.append("\n");
    r
}

/// A file path that was made a path component keeps its length and has no separator left; other
/// characters stay.
pub proof fn law_path_components_hold_no_separator(s: Seq<char>)
    ensures
        tamed(s).len() == s.len(),
        !tamed(s).contains('/'),
        !tamed(s).contains('\\'),
        !tamed(s).contains(':'),
        !tamed(s).contains(' '),
        forall|i: int|
            0 <= i < s.len() && s[i] != '/' && s[i] != '\\' && s[i] != ':' && s[i] != ' '
                ==> #[trigger] tamed(s)[i] == s[i],
        tamed(tamed(s)) == tamed(s),
{
    assert(tamed(tamed(s)) =~= tamed(s));
}

/// The lines of an instruction are added one after the other, blank ones left out.
pub proof fn law_instruction_lines_are_added(a: Seq<Seq<char>>, b: Seq<Seq<char>>, l: Seq<char>)
    ensures
        added_lines(a + b) == added_lines(a) + added_lines(b),
        find::trimmed(l).len() > 0 ==> added_lines(seq![l]) == seq!["+ "@ + find::trimmed(l)],
        find::trimmed(l).len() == 0 ==> added_lines(seq![l]).len() == 0,
    decreases b.len(),
{
    let x = added_lines(a);
    assert(seq![l].drop_last() =~= Seq::<Seq<char>>::empty());
    assert(added_lines(Seq::<Seq<char>>::empty()) =~= Seq::<Seq<char>>::empty());
    assert(seq![l].last() == l);
    if b.len() == 0 {
        assert(a + b =~= a);
        assert(x + added_lines(b) =~= x);
    } else {
        assert((a + b).drop_last() =~= a + b.drop_last());
        assert((a + b).last() == b.last());
        law_instruction_lines_are_added(a, b.drop_last(), l);
        let y = added_lines(b.drop_last());
        let t = "+ "@ + find::trimmed(b.last());
        assert((x + y).push(t) =~= x + y.push(t));
    }
}

/// What a retry is told begins with the instruction and ends with the critique; the errors are
/// among it exactly if there are any, and the structured failures exactly if a command has
/// reported one.
pub proof fn law_retries_are_told_what_failed(
    instruction: Seq<char>,
    r: ResultView,
    critique: Seq<char>,
    structured: Seq<char>,
)
    ensures
        ({
            let told = retry_sections(instruction, r, critique, structured);
            let failed = exists|i: int|
                0 <= i < r.commands.len() && (#[trigger] r.commands[i]).failure is Some;
            &&& find::has_suffix(told.first(), instruction)
            &&& find::has_suffix(told.last(), critique)
            &&& told.len() == 2 + (if r.errors.len() > 0 {
                1int
            } else {
                0
            }) + (if failed {
                1int
            } else {
                0
            })
            &&& r.errors.len() > 0 ==> find::has_suffix(told[1], split::joined(r.errors, "\n"@))
            &&& failed ==> find::has_suffix(told[told.len() - 2], structured)
        }),
{
    let told = retry_sections(instruction, r, critique, structured);
    lemma_ends("original_instruction:\n"@, instruction);
    lemma_ends("critique:\n"@, critique);
    lemma_ends("verification_errors:\n"@, split::joined(r.errors, "\n"@));
    lemma_ends("structured_failures:\n"@, structured);
}

proof fn lemma_ends(a: Seq<char>, b: Seq<char>)
    ensures
        find::has_suffix(a + b, b),
{
    assert((a + b).subrange(a.len() as int, (a + b).len() as int) =~= b);
}

/// What a candidate is seeded with names the file, the phase, its own number and the priority,
/// and ends with the instruction.
pub proof fn law_seeds_name_the_task(
    path: Seq<char>,
    instruction: Seq<char>,
    priority: Seq<char>,
    phase: ExecutionPhase,
    candidate_index: nat,
)
    ensures
        ({
            let s = seed_history(path, instruction, priority, phase, candidate_index);
            &&& find::has_text(s, path)
            &&& find::has_text(s, thermal::phase_name(phase))
            &&& find::has_text(s, number::decimal(candidate_index + 1))
            &&& find::has_text(s, priority)
            &&& find::has_suffix(s, added_instruction(instruction) + "\n"@)
        }),
{
    let s = seed_history(path, instruction, priority, phase, candidate_index);
    let a = "--- a/"@;
    let b = a + path + "\n+++ b/"@ + path + "\n@@ -0,0 +1,5 @@\n+ phase: "@;
    let p = thermal::phase_name(phase);
    let c = b + p + "\n+ candidate: "@;
    let n = number::decimal(candidate_index + 1);
    let d = c + n + "\n+ priority: "@;
    let e = d + priority + "\n+ file: "@ + path + "\n"@;
    let last = added_instruction(instruction) + "\n"@;
    assert(s =~= e + last);
    lemma_ends(e, last);
    lemma_stands_at(s, path, a.len() as int);
    lemma_stands_at(s, p, b.len() as int);
    lemma_stands_at(s, n, c.len() as int);
    lemma_stands_at(s, priority, d.len() as int);
}

proof fn lemma_stands_at(s: Seq<char>, t: Seq<char>, i: int)
    requires
        0 <= i,
        i + t.len() <= s.len(),
        s.subrange(i, i + t.len()) =~= t,
    ensures
        find::has_text(s, t),
{
    assert(find::occurs_at(s, t, i));
}

} // verus!
