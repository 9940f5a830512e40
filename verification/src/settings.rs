//! Persisted settings: which model drafts messages, how remote commits are pulled
//! in, and whether messages follow Conventional Commits.
//!
//! Each is resolved highest precedence first: an environment variable, the
//! per-repo file in the repository root (kept out of version control, see
//! [`ensure_excluded`]), the per-user file, a built-in default.
//!
//! A model that was entered because the configured one is unavailable is saved
//! back to the source of the failing one, so that it is not shadowed by it.

use vstd::prelude::*;
use vstd::utf8::{
    char_is_scalar, decode_utf8, decode_utf8_encode_utf8, encode_scalar, encode_utf8,
    encode_utf8_decode_utf8, encode_utf8_valid_utf8, valid_utf8,
};

use crate::model::opt_view;
use crate::prompt::{is_word, plain, plain_answer};
use crate::text;
use crate::text::{
    chomped, end_trimmed, is_space, line_list, lowered, position, position_facts, start_trimmed,
    trimmed,
};
use crate::vcs::decode_lossy;

verus! {

/// The model that is used if nothing else is configured.
pub const DEFAULT_MODEL: &'static str = "gpt-5.4-mini";

/// Environment variable that names the model.
pub const MODEL_ENV: &'static str = "COMMIT_AI_MODEL";

/// Environment variable that names the pull strategy.
pub const PULL_ENV: &'static str = "COMMIT_PULL_STRATEGY";

/// Environment variable that turns Conventional Commits on or off.
pub const CONVENTIONAL_ENV: &'static str = "COMMIT_CONVENTIONAL";

/// The per-repo file, in the repository root.
pub const REPO_FILE: &'static str = ".vcs-flow-commit.toml";

/// Which source a model came from.
#[derive(Debug, Clone, Copy, PartialEq, Eq, Structural)]
pub enum ModelSource {
    Env,
    Repo,
    User,
    Default,
}

/// How remote commits are integrated when the local branch is behind (git; jj
/// always rebases).
#[derive(Debug, Clone, Copy, PartialEq, Eq, Structural)]
pub enum PullStrategy {
    Merge,
    Rebase,
}

impl Default for PullStrategy {
    fn default() -> (r: Self)
        ensures
            r == PullStrategy::Merge,
    {
        PullStrategy::Merge
    }
}

/// What a settings file holds; `None` leaves the choice to the next source.
#[derive(Debug)]
pub struct Settings {
    pub model: Option<String>,
    /// `"merge"` or `"rebase"`.
    pub pull: Option<String>,
    pub conventional: Option<bool>,
}

/// The settings as a mathematical value.
pub struct SettingsView {
    pub model: Option<Seq<char>>,
    pub pull: Option<Seq<char>>,
    pub conventional: Option<bool>,
}

impl View for Settings {
    type V = SettingsView;

    open spec fn view(&self) -> SettingsView {
        SettingsView {
            model: opt_view(self.model),
            pull: opt_view(self.pull),
            conventional: self.conventional,
        }
    }
}

impl Default for Settings {
    fn default() -> (r: Self)
        ensures
            r@ == (SettingsView { model: None, pull: None, conventional: None }),
    {
        Settings { model: None, pull: None, conventional: None }
    }
}

// ----- paths -------------------------------------------------------------------------------

/// A relative path in a directory.
pub open spec fn path_within(dir: Seq<char>, name: Seq<char>) -> Seq<char> {
    if dir.len() == 0 || dir.last() == '/' {
        dir + name
    } else {
        dir + "/"@ + name
    }
}

/// A relative path in a directory.
pub fn join_path(dir: &str, name: &str) -> (r: String)
    ensures
        r@ == path_within(dir@, name@),
{
    let d = text::chars(dir);
    let mut out = dir.to_string();
    if d.len() > 0 && d[d.len() - 1] != '/' {
        out.append("/");
    }
    out.append(name);
    out
}

/// The per-user file; `None` without a configuration directory.
pub fn user_path(config_dir: Option<&str>) -> (r: Option<String>)
    ensures
        opt_view(r) == match config_dir {
            Some(dir) => Some(path_within(path_within(dir@, "vcs-flow"@), "commit.toml"@)),
            None => None,
        },
{
    match config_dir {
        Some(dir) => Some(join_path(join_path(dir, "vcs-flow").as_str(), "commit.toml")),
        None => None,
    }
}

/// The per-repo file.
pub fn repo_path(root: &str) -> (r: String)
    ensures
        r@ == path_within(root@, REPO_FILE@),
{
    join_path(root, REPO_FILE)
}

// ----- precedence --------------------------------------------------------------------------

/// The value without white space around it, if anything is left.
pub open spec fn filled(value: Option<Seq<char>>) -> Option<Seq<char>> {
    match value {
        Some(s) => if trimmed(s).len() > 0 {
            Some(trimmed(s))
        } else {
            None
        },
        None => None,
    }
}

/// The model and its source: the first that is filled, or the default.
pub open spec fn picked_model(
    env: Option<Seq<char>>,
    repo: Option<Seq<char>>,
    user: Option<Seq<char>>,
) -> (Seq<char>, ModelSource) {
    if filled(env) is Some {
        (filled(env)->0, ModelSource::Env)
    } else if filled(repo) is Some {
        (filled(repo)->0, ModelSource::Repo)
    } else if filled(user) is Some {
        (filled(user)->0, ModelSource::User)
    } else {
        (DEFAULT_MODEL@, ModelSource::Default)
    }
}

/// The value without white space around it, if anything is left.
fn filled_text(value: &Option<String>) -> (r: Option<String>)
    ensures
        opt_view(r) == filled(opt_view(*value)),
{
    match value {
        Some(s) => {
            let all = text::chars(s.as_str());
            let t = text::trim(&all);
            if t.len() > 0 {
                Some(text::text(t))
            } else {
                None
            }
        },
        None => None,
    }
}

/// The model and its source. A blank value counts as none.
pub fn pick_model(env: Option<String>, repo: Option<String>, user: Option<String>) -> (r: (
    String,
    ModelSource,
))
    ensures
        (r.0@, r.1) == picked_model(opt_view(env), opt_view(repo), opt_view(user)),
{
    if let Some(m) = filled_text(&env) {
        return (m, ModelSource::Env);
    }
    if let Some(m) = filled_text(&repo) {
        return (m, ModelSource::Repo);
    }
    if let Some(m) = filled_text(&user) {
        return (m, ModelSource::User);
    }
    (DEFAULT_MODEL.to_string(), ModelSource::Default)
}

/// The settings of a source that may be missing.
pub open spec fn settings_view(s: Option<Settings>) -> SettingsView {
    match s {
        Some(s) => s@,
        None => SettingsView { model: None, pull: None, conventional: None },
    }
}

/// The settings, or empty ones.
fn settings_or_default(s: Option<Settings>) -> (r: Settings)
    ensures
        r@ == settings_view(s),
{
    match s {
        Some(s) => s,
        None => Settings { model: None, pull: None, conventional: None },
    }
}

/// The model to use, and its source, from the environment and the settings files
/// that there are.
pub fn resolve_model(env: Option<String>, repo: Option<Settings>, user: Option<Settings>) -> (r: (
    String,
    ModelSource,
))
    ensures
        (r.0@, r.1) == picked_model(
            opt_view(env),
            settings_view(repo).model,
            settings_view(user).model,
        ),
{
    pick_model(env, settings_or_default(repo).model, settings_or_default(user).model)
}

/// The strategy that a text names.
pub open spec fn pull_named(s: Seq<char>) -> Option<PullStrategy> {
    if plain_answer(s) == "merge"@ {
        Some(PullStrategy::Merge)
    } else if plain_answer(s) == "rebase"@ {
        Some(PullStrategy::Rebase)
    } else {
        None
    }
}

/// The strategy that a text names; `None` if it names none, so that a typo does
/// not silently choose one.
pub fn parse_pull(s: &str) -> (r: Option<PullStrategy>)
    ensures
        r == pull_named(s@),
{
    let p = plain(s);
    if is_word(&p, "merge") {
        Some(PullStrategy::Merge)
    } else if is_word(&p, "rebase") {
        Some(PullStrategy::Rebase)
    } else {
        None
    }
}

/// The strategy that an optional text names.
pub open spec fn pull_in(value: Option<Seq<char>>) -> Option<PullStrategy> {
    match value {
        Some(s) => pull_named(s),
        None => None,
    }
}

/// The first strategy that is named, or the default.
pub open spec fn picked_pull(
    env: Option<Seq<char>>,
    repo: Option<Seq<char>>,
    user: Option<Seq<char>>,
) -> PullStrategy {
    if pull_in(env) is Some {
        pull_in(env)->0
    } else if pull_in(repo) is Some {
        pull_in(repo)->0
    } else if pull_in(user) is Some {
        pull_in(user)->0
    } else {
        PullStrategy::Merge
    }
}

/// The strategy that an optional text names.
fn pull_of(value: &Option<String>) -> (r: Option<PullStrategy>)
    ensures
        r == pull_in(opt_view(*value)),
{
    match value {
        Some(s) => parse_pull(s.as_str()),
        None => None,
    }
}

/// The first strategy that is named, or the default.
pub fn pick_pull(env: Option<String>, repo: Option<String>, user: Option<String>) -> (r:
    PullStrategy)
    ensures
        r == picked_pull(opt_view(env), opt_view(repo), opt_view(user)),
{
    if let Some(s) = pull_of(&env) {
        return s;
    }
    if let Some(s) = pull_of(&repo) {
        return s;
    }
    if let Some(s) = pull_of(&user) {
        return s;
    }
    PullStrategy::Merge
}

/// The pull strategy, from the environment and the settings files that there are.
pub fn pull_strategy(env: Option<String>, repo: Option<Settings>, user: Option<Settings>) -> (r:
    PullStrategy)
    ensures
        r == picked_pull(opt_view(env), settings_view(repo).pull, settings_view(user).pull),
{
    pick_pull(env, settings_or_default(repo).pull, settings_or_default(user).pull)
}

/// The truth value that a text names.
pub open spec fn bool_named(s: Seq<char>) -> Option<bool> {
    let p = plain_answer(s);
    if p == "1"@ || p == "true"@ || p == "yes"@ || p == "on"@ {
        Some(true)
    } else if p == "0"@ || p == "false"@ || p == "no"@ || p == "off"@ {
        Some(false)
    } else {
        None
    }
}

/// The truth value that a text names; `None` if it names none.
pub fn parse_bool(s: &str) -> (r: Option<bool>)
    ensures
        r == bool_named(s@),
{
    let p = plain(s);
    if is_word(&p, "1") || is_word(&p, "true") || is_word(&p, "yes") || is_word(&p, "on") {
        Some(true)
    } else if is_word(&p, "0") || is_word(&p, "false") || is_word(&p, "no") || is_word(&p, "off") {
        Some(false)
    } else {
        None
    }
}

/// The first truth value that there is, or `false`.
pub open spec fn picked_conventional(
    env: Option<Seq<char>>,
    repo: Option<bool>,
    user: Option<bool>,
) -> bool {
    let named = match env {
        Some(s) => bool_named(s),
        None => None,
    };
    if named is Some {
        named->0
    } else if repo is Some {
        repo->0
    } else if user is Some {
        user->0
    } else {
        false
    }
}

/// Whether messages follow Conventional Commits, from the environment and the
/// settings files that there are.
pub fn conventional(env: Option<String>, repo: Option<Settings>, user: Option<Settings>) -> (r:
    bool)
    ensures
        r == picked_conventional(
            opt_view(env),
            settings_view(repo).conventional,
            settings_view(user).conventional,
        ),
{
    if let Some(s) = &env {
        if let Some(b) = parse_bool(s.as_str()) {
            return b;
        }
    }
    if let Some(b) = settings_or_default(repo).conventional {
        return b;
    }
    if let Some(b) = settings_or_default(user).conventional {
        return b;
    }
    false
}

// ----- saving --------------------------------------------------------------------------------

/// Where a model is saved.
#[derive(Debug)]
pub struct Destination {
    /// The settings file to update.
    pub path: String,
    /// Whether that file has to be kept out of version control.
    pub exclude: bool,
}

/// Where to save a model that replaces one from `source`: the per-repo file if
/// that supplied it, else the per-user file (the environment cannot be saved to).
/// The latter fails without a configuration directory.
pub fn save_model(source: ModelSource, root: &str, config_dir: Option<&str>) -> (r: Result<
    Destination,
    String,
>)
    ensures
        match r {
            Ok(d) => if source == ModelSource::Repo {
                d.path@ == path_within(root@, REPO_FILE@) && d.exclude
            } else {
                config_dir is Some && d.path@ == path_within(
                    path_within(config_dir->0@, "vcs-flow"@),
                    "commit.toml"@,
                ) && !d.exclude
            },
            Err(e) => source != ModelSource::Repo && config_dir is None && e@
                == "no user config directory available"@,
        },
{
    match source {
        ModelSource::Repo => Ok(save_repo_model(root)),
        _ => save_user_model(config_dir),
    }
}

/// The per-user file as a destination.
fn save_user_model(config_dir: Option<&str>) -> (r: Result<Destination, String>)
    ensures
        match r {
            Ok(d) => config_dir is Some && d.path@ == path_within(
                path_within(config_dir->0@, "vcs-flow"@),
                "commit.toml"@,
            ) && !d.exclude,
            Err(e) => config_dir is None && e@ == "no user config directory available"@,
        },
{
    match user_path(config_dir) {
        Some(path) => Ok(Destination { path, exclude: false }),
        None => Err("no user config directory available".to_string()),
    }
}

/// The per-repo file as a destination.
fn save_repo_model(root: &str) -> (r: Destination)
    ensures
        r.path@ == path_within(root@, REPO_FILE@),
        r.exclude,
{
    Destination { path: repo_path(root), exclude: true }
}

impl Settings {
    /// The settings with another model, and everything else as it was.
    pub fn with_model(self, model: &str) -> (r: Settings)
        ensures
            r@ == (SettingsView { model: Some(model@), ..self@ }),
    {
        Settings { model: Some(model.to_string()), pull: self.pull, conventional: self.conventional }
    }
}

/// A model saved to its destination is the one that is resolved next, from the same
/// source, unless the environment names one: that cannot be saved to.
pub proof fn saved_model_takes_effect(
    env: Option<Seq<char>>,
    repo: Option<Seq<char>>,
    user: Option<Seq<char>>,
    model: Seq<char>,
)
    requires
        trimmed(model) == model,
        model.len() > 0,
        filled(env) is None,
    ensures
        ({
            let source = picked_model(env, repo, user).1;
            if source == ModelSource::Repo {
                picked_model(env, Some(model), user) == (model, ModelSource::Repo)
            } else {
                picked_model(env, repo, Some(model)) == (model, ModelSource::User)
            }
        }),
{
}

// ----- keeping the per-repo file out of version control ------------------------------------------

/// Where the per-repo file is listed as ignored.
#[derive(Debug)]
pub struct Exclusion {
    /// A directory to create first, if any.
    pub dir: Option<String>,
    /// The file to list it in.
    pub file: String,
}

/// Where the per-repo file is listed as ignored: `.git/info/exclude`, which is
/// local, if `.git` is a directory; else (a linked worktree, a submodule, or no git
/// at all) `.gitignore`.
pub fn ensure_excluded(root: &str, git_is_dir: bool) -> (r: Exclusion)
    ensures
        if git_is_dir {
            let info = path_within(path_within(root@, ".git"@), "info"@);
            opt_view(r.dir) == Some(info) && r.file@ == path_within(info, "exclude"@)
        } else {
            r.dir is None && r.file@ == path_within(root@, ".gitignore"@)
        },
{
    if git_is_dir {
        let info = join_path(join_path(root, ".git").as_str(), "info");
        let file = join_path(info.as_str(), "exclude");
        Exclusion { dir: Some(info), file }
    } else {
        Exclusion { dir: None, file: join_path(root, ".gitignore") }
    }
}

// ----- lines of a file ---------------------------------------------------------------

/// The bytes from `s` to `e` are a line: newlines bound it, and a last line need not be
/// terminated.
pub open spec fn is_line(bytes: Seq<u8>, s: int, e: int) -> bool {
    &&& 0 <= s <= e <= bytes.len()
    &&& s == 0 || bytes[s - 1] == 10
    &&& forall|k: int| s <= k < e ==> #[trigger] bytes[k] != 10
    &&& if e < bytes.len() {
        bytes[e] == 10
    } else {
        s < e
    }
}

/// The bytes are the text `line`, apart from white space around it.
pub open spec fn holds(bytes: Seq<u8>, line: Seq<char>) -> bool {
    valid_utf8(bytes) && trimmed(decode_utf8(bytes)) == line
}

/// The line is listed, apart from white space around it.
pub open spec fn lists(bytes: Seq<u8>, line: Seq<char>) -> bool {
    exists|s: int, e: int| #[trigger] is_line(bytes, s, e) && holds(bytes.subrange(s, e), line)
}

/// The bytes, with a newline at their end if they do not end in one.
pub open spec fn ended(bytes: Seq<u8>) -> Seq<u8> {
    if bytes.len() > 0 && bytes.last() != 10 {
        bytes.push(10)
    } else {
        bytes
    }
}

/// The bytes with the line behind them, on a line of its own.
pub open spec fn with_line(bytes: Seq<u8>, line: Seq<char>) -> Seq<u8> {
    ended(bytes) + encode_utf8(line) + seq![10u8]
}

/// Whether the two slices hold the same bytes.
fn same_bytes(a: &[u8], b: &[u8]) -> (r: bool)
    ensures
        r == (a@ == b@),
{
    if a.len() != b.len() {
        return false;
    }
    let mut i: usize = 0;
    while i < a.len()
        invariant
            i <= a@.len() == b@.len(),
            forall|j: int| 0 <= j < i ==> a@[j] == b@[j],
        decreases a@.len() - i,
    {
        if a[i] != b[i] {
            return false;
        }
        i = i + 1;
    }
    proof {
        assert(a@ =~= b@);
    }
    true
}

/// Whether the bytes are the text, apart from white space around it.
fn is_text(bytes: &[u8], want: &[char]) -> (r: bool)
    ensures
        r == holds(bytes@, want@),
{
    let t = decode_lossy(bytes);
    let all = text::chars(t.as_str());
    proof {
        // Only of UTF-8 does the text encode to the same bytes.
        encode_utf8_valid_utf8(t@);
        encode_utf8_decode_utf8(t@);
        if valid_utf8(bytes@) {
            decode_utf8_encode_utf8(bytes@);
        }
    }
    same_bytes(t.as_str().as_bytes(), bytes) && text::same_chars(text::trim(&all), want)
}

/// The content of a file with the line appended, or `None` if the line is listed
/// already. What is there stays, byte by byte, whether it is text or not.
pub fn append_line_once(current: &[u8], line: &str) -> (r: Option<Vec<u8>>)
    ensures
        r is None <==> lists(current@, line@),
        r matches Some(out) ==> out@ == with_line(current@, line@) && current@.is_prefix_of(out@),
{
    let want = text::chars(line);
    let mut s: usize = 0;
    let mut e: usize = 0;
    while e < current.len()
        invariant
            s <= e <= current@.len(),
            want@ == line@,
            s == 0 || current@[s - 1] == 10,
            forall|k: int| s <= k < e ==> #[trigger] current@[k] != 10,
            forall|a: int, b: int|
                #[trigger] is_line(current@, a, b) && a < s ==> !holds(
                    current@.subrange(a, b),
                    line@,
                ),
        decreases current@.len() - e,
    {
        if current[e] == 10 {
            if is_text(&current[s..e], &want) {
                proof {
                    assert(is_line(current@, s as int, e as int));
                }
                return None;
            }
            proof {
                assert forall|a: int, b: int| #[trigger]
                    is_line(current@, a, b) && a < e + 1 implies !holds(
                    current@.subrange(a, b),
                    line@,
                ) by {
                    if a >= s {
                        assert(a == s) by {
                            if a > s {
                                assert(current@[a - 1] == 10);
                            }
                        }
                        assert(b == e) by {
                            if b < e {
                                assert(current@[b] == 10);
                            }
                        }
                    }
                }
            }
            s = e + 1;
        }
        e = e + 1;
    }
    if s < e && is_text(&current[s..e], &want) {
        proof {
            assert(is_line(current@, s as int, e as int));
        }
        return None;
    }
    proof {
        assert forall|a: int, b: int| #[trigger] is_line(current@, a, b) implies !holds(
            current@.subrange(a, b),
            line@,
        ) by {
            if a >= s {
                if a > s {
                    assert(current@[a - 1] == 10);
                }
                if b < e {
                    assert(current@[b] == 10);
                }
            }
        }
    }
    let mut out: Vec<u8> = Vec::new();
    out.extend_from_slice(current);
    if current.len() > 0 && current[current.len() - 1] != 10 {
        out.push(10);
    }
    proof {
        assert(out@ =~= ended(current@));
    }
    out.extend_from_slice(line.as_bytes());
    out.push(10);
    proof {
        assert(out@ =~= with_line(current@, line@));
        assert(current@ =~= out@.take(current@.len() as int));
    }
    Some(out)
}

/// The bytes of a character that is no newline hold no newline.
proof fn scalar_newlines(c: char)
    ensures
        c == '\n' ==> encode_scalar(c as u32) == seq![10u8],
        c != '\n' ==> !encode_scalar(c as u32).contains(10),
{
    char_is_scalar(c);
    let v = c as u32;
    assert(v <= 0x7f ==> (v & 0x7f) as u8 == v) by (bit_vector);
    assert(0xC0u8 | (((v >> 6) & 0x1F) as u8) != 10) by (bit_vector);
    assert(0xE0u8 | (((v >> 12) & 0x0F) as u8) != 10) by (bit_vector);
    assert(0xF0u8 | (((v >> 18) & 0x7) as u8) != 10) by (bit_vector);
    assert(0x80u8 | ((v & 0x3F) as u8) != 10) by (bit_vector);
    assert(0x80u8 | (((v >> 6) & 0x3F) as u8) != 10) by (bit_vector);
    assert(0x80u8 | (((v >> 12) & 0x3F) as u8) != 10) by (bit_vector);
    if c == '\n' {
        assert(encode_scalar(v) =~= seq![10u8]);
    }
}

/// A text without a newline has no newline in its bytes.
proof fn encoded_newlines(t: Seq<char>)
    requires
        !t.contains('\n'),
    ensures
        forall|k: int| 0 <= k < encode_utf8(t).len() ==> #[trigger] encode_utf8(t)[k] != 10,
    decreases t.len(),
{
    if t.len() > 0 {
        let rest = t.drop_first();
        assert(t[0] != '\n');
        assert(!rest.contains('\n')) by {
            assert forall|k: int| 0 <= k < rest.len() implies rest[k] != '\n' by {
                assert(rest[k] == t[k + 1]);
            }
        }
        encoded_newlines(rest);
        scalar_newlines(t[0]);
        let head = encode_scalar(t[0] as u32);
        assert forall|k: int| 0 <= k < encode_utf8(t).len() implies #[trigger] encode_utf8(t)[k] != 10 by {
            if k < head.len() {
                assert(encode_utf8(t)[k] == head[k]);
            } else {
                assert(encode_utf8(t)[k] == encode_utf8(rest)[k - head.len()]);
            }
        }
    }
}

/// Appending a line once lists it, so that appending it again changes nothing; and
/// what was there stays.
pub proof fn appending_once_is_enough(current: Seq<u8>, line: Seq<char>)
    requires
        trimmed(line) == line,
        !line.contains('\n'),
    ensures
        lists(with_line(current, line), line),
        current.is_prefix_of(with_line(current, line)),
{
    let all = with_line(current, line);
    let start = ended(current);
    let s = start.len() as int;
    let e = s + encode_utf8(line).len();
    encoded_newlines(line);
    assert(all.subrange(s, e) =~= encode_utf8(line));
    assert forall|k: int| s <= k < e implies #[trigger] all[k] != 10 by {
        assert(all[k] == encode_utf8(line)[k - s]);
    }
    if s > 0 {
        assert(all[s - 1] == start.last());
    }
    assert(is_line(all, s, e));
    encode_utf8_valid_utf8(line);
    encode_utf8_decode_utf8(line);
    assert(current =~= all.take(current.len() as int));
}

// ----- lines of a text ---------------------------------------------------------------

/// White space at the end does not matter to a trimmed text.
proof fn trimmed_push(t: Seq<char>, c: char)
    requires
        is_space(c),
    ensures
        trimmed(t.push(c)) == trimmed(t),
    decreases t.len(),
{
    let more = t.push(c);
    if t.len() == 0 {
        assert(more.drop_first() =~= t);
    } else if is_space(t[0]) {
        assert(more.drop_first() =~= t.drop_first().push(c));
        trimmed_push(t.drop_first(), c);
    } else {
        assert(more.drop_last() =~= t);
        assert(start_trimmed(more) == more);
        assert(end_trimmed(more) == end_trimmed(t));
    }
}

/// A carriage return at the end of a line does not matter to it when it is trimmed.
proof fn trimmed_chomped(line: Seq<char>)
    ensures
        trimmed(chomped(line)) == trimmed(line),
{
    if line.len() > 0 && line.last() == '\r' {
        assert(line =~= line.drop_last().push('\r'));
        trimmed_push(line.drop_last(), '\r');
    }
}

/// Two texts one behind the other are encoded so.
proof fn encoded_concat(a: Seq<char>, b: Seq<char>)
    ensures
        encode_utf8(a + b) == encode_utf8(a) + encode_utf8(b),
    decreases a.len(),
{
    if a.len() == 0 {
        assert(a + b =~= b);
        assert(encode_utf8(a) + encode_utf8(b) =~= encode_utf8(b));
    } else {
        assert((a + b).drop_first() =~= a.drop_first() + b);
        encoded_concat(a.drop_first(), b);
        assert(encode_utf8(a + b) =~= encode_utf8(a) + encode_utf8(b));
    }
}

/// A newline is encoded by one byte.
proof fn encoded_newline()
    ensures
        encode_utf8(seq!['\n']) == seq![10u8],
{
    let t = seq!['\n'];
    scalar_newlines('\n');
    assert(t.drop_first() =~= seq![]);
    assert(encode_utf8(t.drop_first()) =~= seq![]);
    assert(encode_utf8(t) =~= seq![10u8]);
}

/// The bytes of a text are that text.
proof fn encoded_holds(t: Seq<char>, line: Seq<char>)
    ensures
        holds(encode_utf8(t), line) <==> trimmed(t) == line,
{
    encode_utf8_valid_utf8(t);
    encode_utf8_decode_utf8(t);
}

/// What is listed in a first line and what is behind it.
proof fn lists_behind(first: Seq<u8>, rest: Seq<u8>, line: Seq<char>)
    requires
        forall|k: int| 0 <= k < first.len() ==> #[trigger] first[k] != 10,
    ensures
        lists(first + seq![10u8] + rest, line) <==> holds(first, line) || lists(rest, line),
{
    let all = first + seq![10u8] + rest;
    let n = first.len() as int;
    assert(all[n] == 10);
    assert forall|k: int| 0 <= k < n implies #[trigger] all[k] != 10 by {
        assert(all[k] == first[k]);
    }
    assert(all.subrange(0, n) =~= first);
    assert(is_line(all, 0, n));
    if lists(all, line) {
        let (s, e) = choose|s: int, e: int| #[trigger]
            is_line(all, s, e) && holds(all.subrange(s, e), line);
        if s <= n {
            if s > 0 {
                assert(all[s - 1] == 10);
            }
            if e < n {
                assert(all[e] == 10);
            }
            assert(s == 0 && e == n);
        } else {
            let (a, b) = (s - n - 1, e - n - 1);
            assert forall|k: int| a <= k < b implies #[trigger] rest[k] != 10 by {
                assert(all[k + n + 1] == rest[k]);
            }
            if a > 0 {
                assert(all[s - 1] == rest[a - 1]);
            }
            if e < all.len() {
                assert(all[e] == rest[b]);
            }
            assert(is_line(rest, a, b));
            assert(rest.subrange(a, b) =~= all.subrange(s, e));
        }
    }
    if lists(rest, line) {
        let (a, b) = choose|a: int, b: int| #[trigger]
            is_line(rest, a, b) && holds(rest.subrange(a, b), line);
        let (s, e) = (a + n + 1, b + n + 1);
        assert forall|k: int| s <= k < e implies #[trigger] all[k] != 10 by {
            assert(all[k] == rest[k - n - 1]);
        }
        if a > 0 {
            assert(all[s - 1] == rest[a - 1]);
        }
        if e < all.len() {
            assert(all[e] == rest[b]);
        }
        assert(is_line(all, s, e));
        assert(rest.subrange(a, b) =~= all.subrange(s, e));
    }
}

/// The line is one of the text, apart from white space around it.
pub open spec fn text_lists(t: Seq<char>, line: Seq<char>) -> bool {
    exists|i: int| 0 <= i < line_list(t).len() && trimmed(#[trigger] line_list(t)[i]) == line
}

/// The text with the line behind it, on a line of its own.
pub open spec fn text_with_line(t: Seq<char>, line: Seq<char>) -> Seq<char> {
    let start = if t.len() > 0 && t.last() != '\n' {
        t.push('\n')
    } else {
        t
    };
    start + line + seq!['\n']
}

/// In a file that is text, what is listed are the lines of the text.
pub proof fn texts_list_their_lines(t: Seq<char>, line: Seq<char>)
    ensures
        lists(encode_utf8(t), line) <==> text_lists(t, line),
    decreases t.len(),
{
    let all = line_list(t);
    let bytes = encode_utf8(t);
    position_facts(t, '\n');
    let k = position(t, '\n');
    if t.len() == 0 {
        assert(bytes =~= seq![]);
    } else if k < t.len() {
        let first = t.take(k);
        let rest = t.skip(k + 1);
        assert(t =~= first + seq!['\n'] + rest);
        encoded_concat(first + seq!['\n'], rest);
        encoded_concat(first, seq!['\n']);
        encoded_newline();
        assert(!first.contains('\n')) by {
            assert forall|j: int| 0 <= j < first.len() implies first[j] != '\n' by {
                assert(first[j] == t[j]);
            }
        }
        encoded_newlines(first);
        lists_behind(encode_utf8(first), encode_utf8(rest), line);
        encoded_holds(first, line);
        trimmed_chomped(first);
        texts_list_their_lines(rest, line);
        assert(all =~= seq![chomped(first)] + line_list(rest));
        if trimmed(first) == line {
            assert(trimmed(all[0]) == line);
        }
        if text_lists(rest, line) {
            let i = choose|i: int|
                0 <= i < line_list(rest).len() && trimmed(#[trigger] line_list(rest)[i]) == line;
            assert(all[i + 1] == line_list(rest)[i]);
        }
        if text_lists(t, line) {
            let i = choose|i: int| 0 <= i < all.len() && trimmed(#[trigger] all[i]) == line;
            if i > 0 {
                assert(all[i] == line_list(rest)[i - 1]);
            }
        }
    } else {
        assert(!t.contains('\n'));
        encoded_newlines(t);
        encoded_holds(t, line);
        let n = bytes.len() as int;
        assert(n > 0) by {
            scalar_newlines(t[0]);
            assert(bytes == encode_scalar(t[0] as u32) + encode_utf8(t.drop_first()));
        }
        assert(bytes.subrange(0, n) =~= bytes);
        assert(is_line(bytes, 0, n));
        assert(all =~= seq![t]);
        if trimmed(t) == line {
            assert(trimmed(all[0]) == line);
        }
        if lists(bytes, line) {
            let (s, e) = choose|s: int, e: int| #[trigger]
                is_line(bytes, s, e) && holds(bytes.subrange(s, e), line);
            if s > 0 {
                assert(bytes[s - 1] == 10);
            }
            if e < n {
                assert(bytes[e] == 10);
            }
        }
    }
}

/// Appending a line to a file that is text gives the text with that line.
pub proof fn texts_gain_the_line(t: Seq<char>, line: Seq<char>)
    ensures
        with_line(encode_utf8(t), line) == encode_utf8(text_with_line(t, line)),
{
    let bytes = encode_utf8(t);
    let start = if t.len() > 0 && t.last() != '\n' {
        t.push('\n')
    } else {
        t
    };
    encoded_newline();
    assert(ended(bytes) =~= encode_utf8(start)) by {
        if t.len() == 0 {
            assert(bytes =~= seq![]);
        } else {
            let before = t.drop_last();
            let c = t.last();
            let one = seq![c];
            assert(t =~= before + one);
            encoded_concat(before, one);
            assert(one.drop_first() =~= seq![]);
            assert(encode_utf8(one.drop_first()) =~= seq![]);
            assert(encode_utf8(one) =~= encode_scalar(c as u32));
            scalar_newlines(c);
            assert(bytes.last() == encode_scalar(c as u32).last());
            if c != '\n' {
                assert(encode_scalar(c as u32).contains(encode_scalar(c as u32).last()));
                assert(t.push('\n') =~= t + seq!['\n']);
                encoded_concat(t, seq!['\n']);
            }
        }
    }
    encoded_concat(start + line, seq!['\n']);
    encoded_concat(start, line);
}

// ----- what is configured ----------------------------------------------------------------------------

/// The model of the environment comes first, then that of the repository, then that of
/// the user; a blank one counts as none; and without any it is the built-in one.
pub proof fn models_are_picked_in_order(
    env: Option<Seq<char>>,
    repo: Option<Seq<char>>,
    user: Option<Seq<char>>,
    model: Seq<char>,
)
    requires
        trimmed(model).len() > 0,
    ensures
        picked_model(Some(model), repo, user) == (trimmed(model), ModelSource::Env),
        picked_model(None, Some(model), user) == (trimmed(model), ModelSource::Repo),
        picked_model(None, None, Some(model)) == (trimmed(model), ModelSource::User),
        picked_model(None, None, None) == ("gpt-5.4-mini"@, ModelSource::Default),
        forall|blank: Seq<char>|
            trimmed(blank).len() == 0 ==> #[trigger] picked_model(Some(blank), repo, user)
                == picked_model(None, repo, user),
        forall|blank: Seq<char>|
            trimmed(blank).len() == 0 ==> #[trigger] picked_model(env, Some(blank), user)
                == picked_model(env, None, user),
        forall|blank: Seq<char>|
            trimmed(blank).len() == 0 ==> #[trigger] picked_model(env, repo, Some(blank))
                == picked_model(env, repo, None),
{
}

/// The strategy of the environment comes first, then that of the repository, then that
/// of the user; what names none counts as none; and without any it is to merge.
pub proof fn strategies_are_picked_in_order(
    env: Option<Seq<char>>,
    repo: Option<Seq<char>>,
    user: Option<Seq<char>>,
    s: Seq<char>,
)
    ensures
        lowered(trimmed(s)) == "merge"@ ==> pull_named(s) == Some(PullStrategy::Merge),
        lowered(trimmed(s)) == "rebase"@ ==> pull_named(s) == Some(PullStrategy::Rebase),
        pull_named(s) is Some ==> lowered(trimmed(s)) == "merge"@ || lowered(trimmed(s))
            == "rebase"@,
        pull_named(s) matches Some(p) ==> picked_pull(Some(s), repo, user) == p && picked_pull(
            None,
            Some(s),
            user,
        ) == p && picked_pull(None, None, Some(s)) == p,
        pull_named(s) is None ==> picked_pull(Some(s), repo, user) == picked_pull(None, repo, user)
            && picked_pull(env, Some(s), user) == picked_pull(env, None, user) && picked_pull(
            env,
            repo,
            Some(s),
        ) == picked_pull(env, repo, None),
        picked_pull(None, None, None) == PullStrategy::Merge,
{
    reveal_strlit("merge");
    reveal_strlit("rebase");
    assert("merge"@.len() == 5);
    assert("rebase"@.len() == 6);
}

/// Whether messages follow Conventional Commits is told by the environment first, then
/// by the repository, then by the user; what names no truth value counts as none; and
/// without any they do not.
pub proof fn conventions_are_picked_in_order(
    repo: Option<bool>,
    user: Option<bool>,
    s: Seq<char>,
    b: bool,
)
    ensures
        bool_named(s) == Some(b) ==> picked_conventional(Some(s), repo, user) == b,
        bool_named(s) is None ==> picked_conventional(Some(s), repo, user) == picked_conventional(
            None,
            repo,
            user,
        ),
        picked_conventional(None, Some(b), user) == b,
        picked_conventional(None, None, Some(b)) == b,
        picked_conventional(None, None, None) == false,
        ({
            let p = lowered(trimmed(s));
            &&& bool_named(s) == Some(true) <==> p == "1"@ || p == "true"@ || p == "yes"@ || p
                == "on"@
            &&& p == "0"@ || p == "false"@ || p == "no"@ || p == "off"@ ==> bool_named(s) == Some(
                false,
            )
            &&& bool_named(s) == Some(false) ==> p == "0"@ || p == "false"@ || p == "no"@ || p
                == "off"@
        }),
{
    reveal_strlit("1");
    reveal_strlit("true");
    reveal_strlit("yes");
    reveal_strlit("on");
    reveal_strlit("0");
    reveal_strlit("false");
    reveal_strlit("no");
    reveal_strlit("off");
    let p = lowered(trimmed(s));
    assert("1"@[0] == '1');
    assert("0"@[0] == '0');
    assert("true"@[0] == 't');
    assert("yes"@[0] == 'y');
    assert("on"@[1] == 'n');
    assert("no"@[1] == 'o');
    assert("off"@[1] == 'f');
    assert("false"@.len() == 5);
}

/// A path in a directory is the directory, one slash, and the name.
pub proof fn paths_are_joined_by_one_slash(dir: Seq<char>, name: Seq<char>)
    ensures
        path_within(seq![], name) == name,
        dir.len() > 0 && dir.last() != '/' ==> path_within(dir, name) == dir + "/"@ + name,
        dir.len() > 0 && dir.last() == '/' ==> path_within(dir, name) == dir + name,
{
    assert(Seq::<char>::empty() + name =~= name);
}

} // verus!
