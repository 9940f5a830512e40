//! Drafting with the GitHub Copilot CLI (`copilot`): commit messages, and titles and
//! descriptions of pull requests.
//!
//! A draft is only ever a start for the editor. What comes of an attempt is an
//! [`Outcome`], which tells a model that is not available (worth asking for another)
//! from every other failure (go on without a draft).

use vstd::prelude::*;
use vstd::utf8::{encode_scalar, encode_utf8};
use crate::text;
use crate::text::{
    has_prefix, has_text, is_space, joined, line_list, lower_char, lowered, position,
    position_facts, start_trimmed, texts, trimmed,
};

verus! {

/// How much of a diff is sent, in bytes: a message tells the intent and not every
/// line, and the diff travels as an argument.
pub const DIFF_LIMIT: usize = 8000;

/// How much of an existing description is sent, in bytes.
pub const CONTEXT_LIMIT: usize = 2000;

/// How long an attempt may take, in seconds.
pub const TIMEOUT_SECS: u64 = 45;

/// The outcome of an attempt.
#[derive(Debug, PartialEq, Eq)]
pub enum Outcome {
    /// A draft.
    Drafted(String),
    /// The model is not available: another can be asked for.
    ModelUnavailable,
    /// Anything else: there is no draft.
    Failed,
}

/// The instructions for a commit message.
pub const PROMPT_PREAMBLE: &'static str =
    "Write a git commit message for this diff. Describe the PURPOSE and ESSENCE of the changes — what was done and why.
NEVER list file names or paths. NEVER enumerate changes file-by-file.
First line: imperative mood, max 72 chars.
If more context is needed, add a body after a blank line.
Output ONLY the raw commit message text. No markdown, no quotes, no prefixes.";

/// The instructions for the title and description of a pull request.
pub const PR_PROMPT_PREAMBLE: &'static str =
    "Write a GitHub pull request title and description for this branch diff.
First line: a concise title in imperative mood, max 72 chars.
Then a blank line, then a markdown description: summarize WHAT changed and WHY,
with bullet points for the notable changes. NEVER enumerate every file.
Output ONLY the title and the description. Do not wrap the answer in code fences.";

/// What stands before an existing description.
pub const CONTEXT_INTRO: &'static str =
    "\n\nCurrent draft description (improve or replace it — do not just echo it):\n";

/// What stands behind a text that was cut.
pub const CUT_MARK: &'static str = "\n... (truncated)";

// ----- cutting ---------------------------------------------------------------------------

/// The length of a text in bytes.
pub open spec fn byte_len(s: Seq<char>) -> nat {
    encode_utf8(s).len()
}

/// How many bytes a character takes.
pub open spec fn width(c: char) -> nat {
    encode_scalar(c as u32).len()
}

/// How many characters of the text fit into that many bytes.
pub open spec fn fitting(s: Seq<char>, limit: int) -> int
    decreases s.len(),
{
    if s.len() == 0 || width(s[0]) > limit {
        0
    } else {
        1 + fitting(s.drop_first(), limit - width(s[0]))
    }
}

/// The text, or as much of it as fits and a mark that it was cut.
pub open spec fn cut(s: Seq<char>, limit: nat) -> Seq<char> {
    if byte_len(s) <= limit {
        s
    } else {
        s.take(fitting(s, limit as int)) + CUT_MARK@
    }
}

/// How many bytes a character takes.
fn char_width(c: char) -> (r: usize)
    ensures
        r == width(c),
        1 <= r <= 4,
{
    let n = c as u32;
    if n <= 0x7f {
        1
    } else if n <= 0x7ff {
        2
    } else if n <= 0xffff {
        3
    } else {
        4
    }
}

/// The text if it takes at most `limit` bytes; else as many of its characters as
/// fit, and a mark. No character is split.
pub fn truncate(text: &str, limit: usize) -> (r: String)
    ensures
        r@ == cut(text@, limit as nat),
{
    let all = text::chars(text);
    let ghost s = text@;
    let mut left: usize = limit;
    let mut i: usize = 0;
    proof {
        assert(s.skip(0) =~= s);
    }
    while i < all.len() && char_width(all[i]) <= left
        invariant
            all@ == s,
            i <= all@.len(),
            left <= limit,
            fitting(s, limit as int) == i + fitting(s.skip(i as int), left as int),
            byte_len(s) == (limit - left) + byte_len(s.skip(i as int)),
        decreases all@.len() - i,
    {
        let w = char_width(all[i]);
        proof {
            let rest = s.skip(i as int);
            assert(rest[0] == all@[i as int]);
            assert(rest.drop_first() =~= s.skip(i + 1));
            assert(encode_utf8(rest) == encode_scalar(rest[0] as u32) + encode_utf8(
                rest.drop_first(),
            ));
        }
        left = left - w;
        i = i + 1;
    }
    proof {
        let rest = s.skip(i as int);
        if i < all@.len() {
            assert(rest[0] == all@[i as int]);
            assert(encode_utf8(rest) == encode_scalar(rest[0] as u32) + encode_utf8(
                rest.drop_first(),
            ));
        } else {
            assert(rest =~= seq![]);
            assert(encode_utf8(rest) =~= seq![]);
        }
    }
    if i == all.len() {
        text.to_string()
    } else {
        let head = &all[0..i];
        proof {
            assert(head@ =~= s.take(i as int));
            assert(fitting(s.skip(i as int), left as int) == 0);
        }
        let mut out = text::text(head);
        out.append(CUT_MARK);
        out
    }
}

/// The length of a text that is a character longer at its front.
proof fn byte_len_front(s: Seq<char>)
    requires
        s.len() > 0,
    ensures
        byte_len(s) == width(s[0]) + byte_len(s.drop_first()),
        width(s[0]) >= 1,
{
}

/// What is kept of a text fits, and with one character more it would not.
pub proof fn cut_is_as_long_as_possible(s: Seq<char>, limit: nat)
    ensures
        0 <= fitting(s, limit as int) <= s.len(),
        byte_len(s.take(fitting(s, limit as int))) <= limit,
        fitting(s, limit as int) < s.len() ==> byte_len(s.take(fitting(s, limit as int) + 1)) > limit,
    decreases s.len(),
{
    if s.len() == 0 || width(s[0]) > limit {
        assert(s.take(0) =~= seq![]);
        assert(encode_utf8(s.take(0)) =~= seq![]);
        if s.len() > 0 {
            byte_len_front(s.take(1));
        }
    } else {
        let rest = s.drop_first();
        let l = (limit - width(s[0])) as nat;
        cut_is_as_long_as_possible(rest, l);
        let k = fitting(rest, l as int);
        byte_len_front(s.take(k + 1));
        assert(s.take(k + 1).drop_first() =~= rest.take(k));
        if k < rest.len() {
            byte_len_front(s.take(k + 2));
            assert(s.take(k + 2).drop_first() =~= rest.take(k + 1));
        }
    }
}

// ----- prompts -----------------------------------------------------------------------------

/// The prompt for a commit message: the instructions, the existing description if
/// there is one, and the diff.
pub open spec fn commit_prompt(diff: Seq<char>, existing: Seq<char>) -> Seq<char> {
    let start = if trimmed(existing).len() > 0 {
        PROMPT_PREAMBLE@ + CONTEXT_INTRO@ + cut(trimmed(existing), CONTEXT_LIMIT as nat)
    } else {
        PROMPT_PREAMBLE@
    };
    start + "\n\n"@ + cut(diff, DIFF_LIMIT as nat)
}

/// The prompt for a commit message.
pub fn build_commit_prompt(diff: &str, existing: &str) -> (r: String)
    ensures
        r@ == commit_prompt(diff@, existing@),
{
    let mut prompt = PROMPT_PREAMBLE.to_string();
    let all = text::chars(existing);
    let context = text::trim(&all);
    if context.len() > 0 {
        prompt.append(CONTEXT_INTRO);
        prompt.append(truncate(text::text(context).as_str(), CONTEXT_LIMIT).as_str());
    }
    prompt.append("\n\n");
    prompt.append(truncate(diff, DIFF_LIMIT).as_str());
    prompt
}

/// The prompt for a pull request: the instructions and the diff.
pub open spec fn pr_prompt(diff: Seq<char>) -> Seq<char> {
    PR_PROMPT_PREAMBLE@ + "\n\n"@ + cut(diff, DIFF_LIMIT as nat)
}

/// The prompt for a pull request.
pub fn build_pr_prompt(diff: &str) -> (r: String)
    ensures
        r@ == pr_prompt(diff@),
{
    let mut prompt = PR_PROMPT_PREAMBLE.to_string();
    prompt.append("\n\n");
    prompt.append(truncate(diff, DIFF_LIMIT).as_str());
    prompt
}

/// The arguments of an attempt. Nothing allows the use of tools. The model stands in
/// one argument with its option, so that no name is taken for an option.
pub open spec fn attempt_argv(prompt: Seq<char>, model: Seq<char>) -> Seq<Seq<char>> {
    seq![
        "-p"@,
        prompt,
        "-s"@,
        "--no-auto-update"@,
        "--effort"@,
        "medium"@,
        "--model="@ + model,
    ]
}

/// The arguments of an attempt.
fn copilot_args(prompt: &str, model: &str) -> (r: Vec<String>)
    ensures
        texts(r@) == attempt_argv(prompt@, model@),
{
    let mut option = "--model=".to_string();
    option.append(model);
    let argv = text::owned(
        &["-p", prompt, "-s", "--no-auto-update", "--effort", "medium", option.as_str()],
    );
    proof {
        assert(texts(argv@) =~= attempt_argv(prompt@, model@));
    }
    argv
}

/// The arguments of an attempt at a commit message.
pub fn generate(diff: &str, existing: &str, model: &str) -> (r: Vec<String>)
    ensures
        texts(r@) == attempt_argv(commit_prompt(diff@, existing@), model@),
{
    copilot_args(build_commit_prompt(diff, existing).as_str(), model)
}

/// The arguments of an attempt at the title and description of a pull request.
pub fn generate_pr(diff: &str, model: &str) -> (r: Vec<String>)
    ensures
        texts(r@) == attempt_argv(pr_prompt(diff@), model@),
{
    copilot_args(build_pr_prompt(diff).as_str(), model)
}

// ----- what came back ------------------------------------------------------------------------

/// What came of running copilot.
#[derive(Debug)]
pub enum CopilotRun {
    /// It could not be started.
    NotStarted,
    /// It took too long.
    TimedOut,
    /// It ended.
    Exited { success: bool, stdout: String, stderr: String },
}

/// The error output says that the model is not available: it speaks of a model, and
/// of something not available.
pub open spec fn names_unavailable(stderr: Seq<char>) -> bool {
    has_text(lowered(stderr), "model"@) && has_text(lowered(stderr), "not available"@)
}

/// Whether the error output says that the model is not available.
pub fn is_model_unavailable(stderr: &str) -> (r: bool)
    ensures
        r == names_unavailable(stderr@),
{
    let lower = text::lower(&text::chars(stderr));
    text::contains(&lower, &text::chars("model")) && text::contains(
        &lower,
        &text::chars("not available"),
    )
}

/// The line is a `Co-authored-by:` trailer.
pub open spec fn is_trailer(line: Seq<char>) -> bool {
    has_prefix(lowered(start_trimmed(line)), "co-authored-by:"@)
}

/// The lines that are no trailers.
pub open spec fn without_trailers(lines: Seq<Seq<char>>) -> Seq<Seq<char>>
    decreases lines.len(),
{
    if lines.len() == 0 {
        seq![]
    } else {
        let before = without_trailers(lines.drop_last());
        if is_trailer(lines.last()) {
            before
        } else {
            before.push(lines.last())
        }
    }
}

/// The output without trailers and without white space around it.
pub open spec fn cleaned(raw: Seq<char>) -> Seq<char> {
    trimmed(joined(without_trailers(line_list(raw)), seq!['\n']))
}

/// The output without trailers and without white space around it; `None` if nothing
/// is left.
pub fn sanitize(raw: &str) -> (r: Option<String>)
    ensures
        match r {
            Some(t) => t@ == cleaned(raw@) && t@.len() > 0,
            None => cleaned(raw@).len() == 0,
        },
{
    let all = text::chars(raw);
    let lines = text::lines(&all);
    let ghost list = text::slices(lines@);
    let word = text::chars("co-authored-by:");
    let mut keep: Vec<&[char]> = Vec::new();
    let mut i: usize = 0;
    proof {
        assert(text::slices(keep@) =~= without_trailers(list.take(0)));
    }
    while i < lines.len()
        invariant
            i <= lines@.len(),
            list == text::slices(lines@),
            word@ == "co-authored-by:"@,
            text::slices(keep@) == without_trailers(list.take(i as int)),
        decreases lines@.len() - i,
    {
        let ghost before = keep@;
        let line = lines[i];
        proof {
            assert(list.take(i + 1).drop_last() =~= list.take(i as int));
            assert(list.take(i + 1).last() == line@);
        }
        if !text::starts_with(&text::lower(text::trim_start(line)), &word) {
            keep.push(line);
            proof {
                assert(text::slices(keep@) =~= text::slices(before).push(line@));
            }
        }
        i = i + 1;
    }
    proof {
        assert(list.take(i as int) =~= list);
    }
    let text = text::join(&keep, '\n');
    let t = text::trim(&text);
    if t.len() > 0 {
        Some(text::text(t))
    } else {
        None
    }
}

/// What an attempt comes to.
pub open spec fn outcome_is(r: Outcome, run: CopilotRun) -> bool {
    match run {
        CopilotRun::Exited { success: true, stdout, .. } => if cleaned(stdout@).len() > 0 {
            r matches Outcome::Drafted(t) && t@ == cleaned(stdout@)
        } else {
            r is Failed
        },
        CopilotRun::Exited { success: false, stderr, .. } => if names_unavailable(stderr@) {
            r is ModelUnavailable
        } else {
            r is Failed
        },
        _ => r is Failed,
    }
}

/// What an attempt comes to.
pub fn classify(run: &CopilotRun) -> (r: Outcome)
    ensures
        outcome_is(r, *run),
{
    match run {
        CopilotRun::Exited { success, stdout, stderr } => {
            if *success {
                match sanitize(stdout.as_str()) {
                    Some(t) => Outcome::Drafted(t),
                    None => Outcome::Failed,
                }
            } else if is_model_unavailable(stderr.as_str()) {
                Outcome::ModelUnavailable
            } else {
                Outcome::Failed
            }
        },
        _ => Outcome::Failed,
    }
}

// ----- no trailer is left ----------------------------------------------------------------------

/// In `t` a line starts at `p`, and behind white space a trailer at `q`.
pub open spec fn trailer_at(t: Seq<char>, p: int, q: int) -> bool {
    &&& 0 <= p <= q
    &&& q + "co-authored-by:"@.len() <= t.len()
    &&& p == 0 || t[p - 1] == '\n'
    &&& forall|j: int| p <= j < q ==> is_space(#[trigger] t[j]) && t[j] != '\n'
    &&& lowered(t.subrange(q, q + "co-authored-by:"@.len())) == "co-authored-by:"@
}

/// Leading white space is what is trimmed.
proof fn start_trimmed_is(s: Seq<char>, k: int)
    requires
        0 <= k <= s.len(),
        forall|j: int| 0 <= j < k ==> is_space(#[trigger] s[j]),
        k < s.len() ==> !is_space(s[k]),
    ensures
        start_trimmed(s) == s.skip(k),
    decreases s.len(),
{
    if k > 0 {
        assert(is_space(s[0]));
        let rest = s.drop_first();
        assert forall|j: int| 0 <= j < k - 1 implies is_space(#[trigger] rest[j]) by {
            assert(is_space(s[j + 1]));
        }
        start_trimmed_is(rest, k - 1);
        assert(rest.skip(k - 1) =~= s.skip(k));
    } else {
        assert(s.skip(0) =~= s);
    }
}

/// How much is trimmed at the start.
proof fn start_trimmed_by(s: Seq<char>) -> (k: int)
    ensures
        0 <= k <= s.len(),
        forall|j: int| 0 <= j < k ==> is_space(#[trigger] s[j]),
        start_trimmed(s) == s.skip(k),
    decreases s.len(),
{
    if s.len() > 0 && is_space(s[0]) {
        let rest = s.drop_first();
        let k = start_trimmed_by(rest);
        assert forall|j: int| 0 <= j < k + 1 implies is_space(#[trigger] s[j]) by {
            if j > 0 {
                assert(is_space(rest[j - 1]));
            }
        }
        assert(rest.skip(k) =~= s.skip(k + 1));
        k + 1
    } else {
        assert(s.skip(0) =~= s);
        0
    }
}

/// How much is kept at the end.
proof fn end_trimmed_by(s: Seq<char>) -> (k: int)
    ensures
        0 <= k <= s.len(),
        text::end_trimmed(s) == s.take(k),
    decreases s.len(),
{
    if s.len() > 0 && is_space(s.last()) {
        let k = end_trimmed_by(s.drop_last());
        assert(s.drop_last().take(k) =~= s.take(k));
        k
    } else {
        assert(s.take(s.len() as int) =~= s);
        s.len() as int
    }
}

/// The word of a trailer is on one line and does not start with white space.
proof fn trailer_word(t: Seq<char>, q: int)
    requires
        0 <= q,
        q + "co-authored-by:"@.len() <= t.len(),
        lowered(t.subrange(q, q + "co-authored-by:"@.len())) == "co-authored-by:"@,
    ensures
        "co-authored-by:"@.len() > 0,
        !is_space(t[q]),
        forall|j: int| q <= j < q + "co-authored-by:"@.len() ==> #[trigger] t[j] != '\n',
{
    let word = "co-authored-by:"@;
    reveal_strlit("co-authored-by:");
    let part = t.subrange(q, q + word.len());
    assert(lowered(part)[0] == lower_char(t[q]));
    assert(word[0] == 'c');
    assert forall|j: int| q <= j < q + word.len() implies #[trigger] t[j] != '\n' by {
        assert(lowered(part)[j - q] == lower_char(t[j]));
        assert(word[j - q] != '\n');
    }
}

/// Lines that are no trailers, joined, hold no trailer.
proof fn joined_without_trailers(parts: Seq<Seq<char>>, p: int, q: int)
    requires
        forall|i: int| 0 <= i < parts.len() ==> !is_trailer(#[trigger] parts[i]) && !parts[i].contains('\n'),
    ensures
        !trailer_at(joined(parts, seq!['\n']), p, q),
    decreases parts.len(),
{
    let all = joined(parts, seq!['\n']);
    let word = "co-authored-by:"@;
    reveal_strlit("co-authored-by:");
    if trailer_at(all, p, q) {
        trailer_word(all, q);
        if parts.len() == 0 {
            assert(all.len() == 0);
        } else {
            let last = parts[parts.len() - 1];
            let head = parts.drop_last();
            let before = joined(head, seq!['\n']);
            let start: int = if parts.len() == 1 {
                0
            } else {
                before.len() as int + 1
            };
            assert(!is_trailer(parts[parts.len() - 1]));
            if parts.len() > 1 {
                assert(all == before + seq!['\n'] + last);
                assert(all[start - 1] == '\n');
                assert forall|i: int| 0 <= i < head.len() implies !is_trailer(#[trigger] head[i])
                    && !head[i].contains('\n') by {
                    assert(!is_trailer(parts[i]));
                }
                if q + word.len() <= before.len() {
                    assert(before.subrange(q, q + word.len()) =~= all.subrange(q, q + word.len()));
                    assert forall|j: int| p <= j < q implies is_space(#[trigger] before[j]) && before[j] != '\n' by {
                        assert(is_space(all[j]));
                    }
                    assert(trailer_at(before, p, q));
                    joined_without_trailers(head, p, q);
                }
                // The line cannot run over the newline before the last part.
                if p < start {
                    if start - 1 < q {
                        assert(all[start - 1] != '\n');
                    } else {
                        assert(all[start - 1] != '\n');
                    }
                }
            } else {
                assert(all == last);
            }
            assert(p >= start);
            assert forall|j: int| start <= j < all.len() implies #[trigger] all[j] == last[j - start] by {}
            if p > start {
                assert(last[p - 1 - start] == '\n');
                assert(last.contains('\n'));
            }
            let k = q - start;
            assert forall|j: int| 0 <= j < k implies is_space(#[trigger] last[j]) by {
                assert(is_space(all[j + start]));
            }
            start_trimmed_is(last, k);
            let t = lowered(last.skip(k));
            assert(all.subrange(q, q + word.len()) =~= last.skip(k).take(word.len() as int));
            assert(t.take(word.len() as int) =~= lowered(last.skip(k).take(word.len() as int)));
            assert(is_trailer(last));
        }
    }
}

/// A trailer in a text without its leading white space is one in the whole text.
proof fn trailer_untrimmed(s: Seq<char>, a: int, p: int, q: int) -> (p0: int)
    requires
        0 <= a <= s.len(),
        forall|j: int| 0 <= j < a ==> is_space(#[trigger] s[j]),
        trailer_at(s.skip(a), p, q),
    ensures
        trailer_at(s, p0, q + a),
    decreases a,
{
    let t = s.skip(a);
    let word = "co-authored-by:"@;
    assert(s.subrange(q + a, q + a + word.len()) =~= t.subrange(q, q + word.len()));
    assert forall|j: int| p + a <= j < q + a implies is_space(#[trigger] s[j]) && s[j] != '\n' by {
        assert(is_space(t[j - a]));
    }
    if p > 0 {
        assert(t[p - 1] == s[p + a - 1]);
        p + a
    } else if a == 0 || s[a - 1] == '\n' {
        a
    } else {
        let u = s.skip(a - 1);
        assert(u.subrange(q + 1, q + 1 + word.len()) =~= t.subrange(q, q + word.len()));
        assert forall|j: int| 0 <= j < q + 1 implies is_space(#[trigger] u[j]) && u[j] != '\n' by {
            if j == 0 {
                assert(u[0] == s[a - 1]);
                assert(is_space(s[a - 1]));
            } else {
                assert(u[j] == t[j - 1]);
                assert(is_space(t[j - 1]));
            }
        }
        trailer_untrimmed(s, a - 1, 0, q + 1)
    }
}

/// Lines hold no newline.
proof fn lines_are_single(s: Seq<char>)
    ensures
        forall|i: int| 0 <= i < line_list(s).len() ==> !(#[trigger] line_list(s)[i]).contains('\n'),
    decreases s.len(),
{
    let all = line_list(s);
    if s.len() > 0 {
        position_facts(s, '\n');
        let k = position(s, '\n');
        if k < s.len() {
            let rest = s.skip(k + 1);
            lines_are_single(rest);
            assert forall|i: int| 0 <= i < all.len() implies !(#[trigger] all[i]).contains('\n') by {
                if i > 0 {
                    assert(all[i] == line_list(rest)[i - 1]);
                } else {
                    let line = s.take(k);
                    assert(!line.contains('\n'));
                    if all[0].contains('\n') {
                        let j = choose|j: int| 0 <= j < all[0].len() && all[0][j] == '\n';
                        assert(line[j] == '\n');
                    }
                }
            }
        } else {
            assert(!s.contains('\n'));
            assert(all =~= seq![s]);
        }
    }
}

/// What is kept is no trailer, and stays single lines.
proof fn kept_lines(lines: Seq<Seq<char>>)
    requires
        forall|i: int| 0 <= i < lines.len() ==> !(#[trigger] lines[i]).contains('\n'),
    ensures
        forall|i: int|
            0 <= i < without_trailers(lines).len() ==> !is_trailer(
                #[trigger] without_trailers(lines)[i],
            ) && !without_trailers(lines)[i].contains('\n'),
    decreases lines.len(),
{
    if lines.len() > 0 {
        let rest = lines.drop_last();
        assert forall|i: int| 0 <= i < rest.len() implies !(#[trigger] rest[i]).contains('\n') by {
            assert(!lines[i].contains('\n'));
        }
        kept_lines(rest);
        let before = without_trailers(rest);
        let out = without_trailers(lines);
        assert(!lines[lines.len() - 1].contains('\n'));
        assert forall|i: int| 0 <= i < out.len() implies !is_trailer(#[trigger] out[i])
            && !out[i].contains('\n') by {
            if i < before.len() {
                assert(!is_trailer(before[i]) && !before[i].contains('\n'));
            }
        }
    }
}

/// A draft holds no `Co-authored-by:` trailer: none of its lines starts with one,
/// behind white space or not, and in whatever case.
pub proof fn drafts_hold_no_trailer(raw: Seq<char>, p: int, q: int)
    ensures
        !trailer_at(cleaned(raw), p, q),
{
    let lines = line_list(raw);
    lines_are_single(raw);
    kept_lines(lines);
    let all = joined(without_trailers(lines), seq!['\n']);
    let a = start_trimmed_by(all);
    let b = end_trimmed_by(all.skip(a));
    let t = all.skip(a);
    let word = "co-authored-by:"@;
    if trailer_at(cleaned(raw), p, q) {
        let c = cleaned(raw);
        assert(c == t.take(b));
        assert(t.subrange(q, q + word.len()) =~= c.subrange(q, q + word.len()));
        assert forall|j: int| p <= j < q implies is_space(#[trigger] t[j]) && t[j] != '\n' by {
            assert(is_space(c[j]));
        }
        assert(trailer_at(t, p, q));
        let p0 = trailer_untrimmed(all, a, p, q);
        joined_without_trailers(without_trailers(lines), p0, q + a);
    }
}

// ----- what is sent, and what comes back -----------------------------------------------------------

/// The prompt for a commit message holds the instructions first and the diff last; the
/// description that there is stands between them, without white space around it, and
/// only if there is anything of it. A diff of at most 8000 bytes, and a description of
/// at most 2000, are sent whole.
pub proof fn commit_prompts_hold_everything(diff: Seq<char>, existing: Seq<char>)
    requires
        byte_len(diff) <= 8000,
        byte_len(trimmed(existing)) <= 2000,
    ensures
        trimmed(existing).len() == 0 ==> commit_prompt(diff, existing) == PROMPT_PREAMBLE@ + "\n\n"@
            + diff,
        trimmed(existing).len() > 0 ==> commit_prompt(diff, existing) == PROMPT_PREAMBLE@
            + "\n\nCurrent draft description (improve or replace it — do not just echo it):\n"@
            + trimmed(existing) + "\n\n"@ + diff,
        pr_prompt(diff) == PR_PROMPT_PREAMBLE@ + "\n\n"@ + diff,
{
}

/// A longer text is cut to its start, as long as fits, and marked; what is sent of a
/// diff and of a description is bounded.
pub proof fn prompts_are_bounded(diff: Seq<char>, s: Seq<char>, limit: nat)
    ensures
        byte_len(s) <= limit ==> cut(s, limit) == s,
        byte_len(s) > limit ==> exists|k: int|
            0 <= k <= s.len() && #[trigger] byte_len(s.take(k)) <= limit && cut(s, limit) == s.take(
                k,
            ) + "\n... (truncated)"@ && (k < s.len() ==> byte_len(s.take(k + 1)) > limit),
        pr_prompt(diff) == PR_PROMPT_PREAMBLE@ + "\n\n"@ + cut(diff, 8000),
        commit_prompt(diff, seq![]) == PROMPT_PREAMBLE@ + "\n\n"@ + cut(diff, 8000),
{
    if byte_len(s) > limit {
        cut_is_as_long_as_possible(s, limit);
        let k = fitting(s, limit as int);
        assert(byte_len(s.take(k)) <= limit);
    }
    assert(start_trimmed(Seq::<char>::empty()) =~= seq![]);
    assert(trimmed(Seq::<char>::empty()).len() == 0);
}

/// An attempt hands copilot the prompt and the model, and allows it no tools.
pub proof fn attempts_carry_the_prompt(prompt: Seq<char>, model: Seq<char>)
    ensures
        attempt_argv(prompt, model) == seq![
            "-p"@,
            prompt,
            "-s"@,
            "--no-auto-update"@,
            "--effort"@,
            "medium"@,
            "--model="@ + model,
        ],
{
}

/// What is left of an output are its lines that are no trailers, in order and without
/// white space around them: without trailers it is the output, trimmed.
pub proof fn other_lines_are_kept(lines: Seq<Seq<char>>, line: Seq<char>)
    ensures
        has_prefix(lowered(start_trimmed(line)), "co-authored-by:"@) ==> without_trailers(
            lines.push(line),
        ) == without_trailers(lines),
        !has_prefix(lowered(start_trimmed(line)), "co-authored-by:"@) ==> without_trailers(
            lines.push(line),
        ) == without_trailers(lines).push(line),
        without_trailers(seq![]).len() == 0,
{
    assert(lines.push(line).drop_last() =~= lines);
}

/// An output in which no line is a trailer is drafted from as it stands.
pub proof fn drafts_are_the_output(raw: Seq<char>)
    requires
        forall|i: int|
            0 <= i < line_list(raw).len() ==> !has_prefix(
                lowered(start_trimmed(#[trigger] line_list(raw)[i])),
                "co-authored-by:"@,
            ),
    ensures
        cleaned(raw) == trimmed(joined(line_list(raw), seq!['\n'])),
{
    all_lines_kept(line_list(raw));
}

proof fn all_lines_kept(lines: Seq<Seq<char>>)
    requires
        forall|i: int|
            0 <= i < lines.len() ==> !has_prefix(
                lowered(start_trimmed(#[trigger] lines[i])),
                "co-authored-by:"@,
            ),
    ensures
        without_trailers(lines) == lines,
    decreases lines.len(),
{
    if lines.len() > 0 {
        let rest = lines.drop_last();
        assert forall|i: int| 0 <= i < rest.len() implies !has_prefix(
            lowered(start_trimmed(#[trigger] rest[i])),
            "co-authored-by:"@,
        ) by {
            assert(rest[i] == lines[i]);
        }
        all_lines_kept(rest);
        assert(!is_trailer(lines[lines.len() - 1]));
    }
    assert(without_trailers(lines) =~= lines);
}

/// What an attempt comes to: a success with something left is a draft of that; a
/// failure that speaks of a model that is not available can be helped by another; and
/// everything else is a failure.
pub proof fn attempts_come_to(r: Outcome, run: CopilotRun)
    requires
        outcome_is(r, run),
    ensures
        run matches CopilotRun::Exited { success, stdout, stderr } ==> {
            let spoken = has_text(lowered(stderr@), "model"@) && has_text(
                lowered(stderr@),
                "not available"@,
            );
            &&& (r matches Outcome::Drafted(t) ==> success && t@ == cleaned(stdout@) && t@.len() > 0)
            &&& success && cleaned(stdout@).len() > 0 ==> r is Drafted
            &&& r is ModelUnavailable <==> !success && spoken
        },
        run is NotStarted || run is TimedOut ==> r is Failed,
{
}

} // verus!
