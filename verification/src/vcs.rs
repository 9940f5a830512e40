//! What is asked of a repository, and what is made of its answers: snapshots of
//! the changed files, commit targets, and the arguments of the commands that
//! have no typed counterpart.

use vstd::prelude::*;
use vstd::utf8::{decode_utf8, valid_utf8};
use crate::forest::{name_lt, name_lt_facts, names_in_order, with_name, with_name_at, with_name_facts};
use crate::model::{
    change_views, hunk_views, opt_view, target_views, BackendKind, ChangeKind, ChangeView,
    FileChange, HunkInfo, HunkView, Target, TargetView,
};
use crate::paths::PathMap;
use crate::text;
use crate::text::{decimal_of, has_prefix, line_list, pieces, texts, trimmed};

verus! {

/// The remote that commits are pushed to.
pub const REMOTE: &'static str = "origin";

/// Outcome of integrating remote commits (merge or rebase) before a push.
#[derive(Debug)]
pub enum Integration {
    /// Integration completed: ready to push.
    Clean,
    /// Conflicts remain in these paths, relative to the repository root; they
    /// have to be resolved by hand.
    Conflicts(Vec<String>),
    /// Integration did not complete and cannot go on by itself. This is no
    /// failure of the commit: it is reported, and nothing is pushed.
    Unresolved(String),
}

/// The changed files and the diff of each, taken at one moment.
pub struct Snapshot {
    pub changes: Vec<FileChange>,
    /// Unified diff text by the path of the change.
    pub diffs: PathMap<String>,
    /// Hunks of modified files by the path of the change (git working trees
    /// only).
    pub hunks: PathMap<Vec<HunkInfo>>,
}

/// A snapshot as a mathematical value.
pub struct SnapshotView {
    pub changes: Seq<ChangeView>,
    pub diffs: Map<Seq<char>, Seq<char>>,
    pub hunks: Map<Seq<char>, Seq<HunkView>>,
}

/// The texts in a map.
pub open spec fn text_map(m: Map<Seq<char>, String>) -> Map<Seq<char>, Seq<char>> {
    m.map_values(|s: String| s@)
}

/// The hunks in a map.
pub open spec fn hunk_map(m: Map<Seq<char>, Vec<HunkInfo>>) -> Map<Seq<char>, Seq<HunkView>> {
    m.map_values(|v: Vec<HunkInfo>| hunk_views(v@))
}

impl View for Snapshot {
    type V = SnapshotView;

    open spec fn view(&self) -> SnapshotView {
        SnapshotView {
            changes: change_views(self.changes@),
            diffs: text_map(self.diffs@),
            hunks: hunk_map(self.hunks@),
        }
    }
}

// ----- snapshots -------------------------------------------------------------------

/// One line of a hunk.
#[derive(Debug)]
pub enum DiffLine {
    Context(String),
    Added(String),
    Removed(String),
    /// A line of a kind that is not shown.
    Other,
}

/// One hunk of a parsed diff.
#[derive(Debug)]
pub struct Hunk {
    pub old_start: usize,
    pub old_lines: usize,
    pub new_start: usize,
    pub new_lines: usize,
    pub section: String,
    pub lines: Vec<DiffLine>,
}

/// One file of a parsed diff.
#[derive(Debug)]
pub struct FileDiff {
    pub path: String,
    pub old_path: Option<String>,
    pub kind: ChangeKind,
    pub hunks: Vec<Hunk>,
    /// The diff of the file as it stands.
    pub raw: String,
}

/// The `@@` line of a hunk.
pub open spec fn header_text(
    old_start: nat,
    old_lines: nat,
    new_start: nat,
    new_lines: nat,
    section: Seq<char>,
) -> Seq<char> {
    let ranges = "@@ -"@ + decimal_of(old_start) + ","@ + decimal_of(old_lines) + " +"@
        + decimal_of(new_start) + ","@ + decimal_of(new_lines) + " @@"@;
    if section.len() == 0 {
        ranges
    } else {
        ranges + seq![' '] + section
    }
}

/// Lines with their prefix, each terminated.
pub open spec fn prefixed(lines: Seq<(char, Seq<char>)>) -> Seq<char>
    decreases lines.len(),
{
    if lines.len() == 0 {
        seq![]
    } else {
        prefixed(lines.drop_last()) + seq![lines.last().0] + lines.last().1 + seq!['\n']
    }
}

/// A hunk for display.
pub open spec fn hunk_text(header: Seq<char>, lines: Seq<(char, Seq<char>)>) -> HunkView {
    HunkView { header, text: header + seq!['\n'] + prefixed(lines) }
}

/// The lines of a hunk with their prefixes.
pub open spec fn shown_lines(lines: Seq<DiffLine>) -> Seq<(char, Seq<char>)>
    decreases lines.len(),
{
    if lines.len() == 0 {
        seq![]
    } else {
        let before = shown_lines(lines.drop_last());
        match lines.last() {
            DiffLine::Context(s) => before.push((' ', s@)),
            DiffLine::Added(s) => before.push(('+', s@)),
            DiffLine::Removed(s) => before.push(('-', s@)),
            DiffLine::Other => before,
        }
    }
}

/// A parsed hunk for display.
pub open spec fn hunk_of(h: Hunk) -> HunkView {
    hunk_text(
        header_text(
            h.old_start as nat,
            h.old_lines as nat,
            h.new_start as nat,
            h.new_lines as nat,
            h.section@,
        ),
        shown_lines(h.lines@),
    )
}

/// The line list as mathematical values.
pub open spec fn line_views(lines: Seq<(char, &str)>) -> Seq<(char, Seq<char>)> {
    lines.map_values(|l: (char, &str)| (l.0, l.1@))
}

/// A hunk for display, from its ranges, its section heading and its lines.
pub fn build_hunk_info(
    old_start: usize,
    old_lines: usize,
    new_start: usize,
    new_lines: usize,
    section: &str,
    lines: &[(char, &str)],
) -> (r: HunkInfo)
    ensures
        r@ == hunk_text(
            header_text(
                old_start as nat,
                old_lines as nat,
                new_start as nat,
                new_lines as nat,
                section@,
            ),
            line_views(lines@),
        ),
{
    let mut header = "@@ -".to_string();
    text::push_decimal(&mut header, old_start as u128);
    header.append(",");
    text::push_decimal(&mut header, old_lines as u128);
    header.append(" +");
    text::push_decimal(&mut header, new_start as u128);
    header.append(",");
    text::push_decimal(&mut header, new_lines as u128);
    header.append(" @@");
    if !section.is_empty() {
        header.push(' ');
        header.append(section);
    }
    proof {
        assert(header@ =~= header_text(
            old_start as nat,
            old_lines as nat,
            new_start as nat,
            new_lines as nat,
            section@,
        ));
    }
    let mut body = header.clone();
    body.push('\n');
    let ghost all = line_views(lines@);
    let ghost start = body@;
    let mut i: usize = 0;
    proof {
        assert(prefixed(all.take(0)) =~= seq![]);
    }
    while i < lines.len()
        invariant
            i <= lines@.len(),
            all == line_views(lines@),
            body@ == start + prefixed(all.take(i as int)),
        decreases lines@.len() - i,
    {
        let (prefix, line) = lines[i];
        body.push(prefix);
        body.append(line);
        body.push('\n');
        proof {
            assert(all.take(i + 1).drop_last() =~= all.take(i as int));
            assert(body@ =~= start + prefixed(all.take(i + 1)));
        }
        i = i + 1;
    }
    proof {
        assert(all.take(i as int) =~= all);
        assert(body@ =~= header@ + seq!['\n'] + prefixed(all));
    }
    HunkInfo { header, text: body }
}

/// A parsed hunk for display.
fn hunk_info(h: &Hunk) -> (r: HunkInfo)
    ensures
        r@ == hunk_of(*h),
{
    let mut lines: Vec<(char, &str)> = Vec::new();
    let mut i: usize = 0;
    proof {
        assert(line_views(lines@) =~= shown_lines(h.lines@.take(0)));
    }
    while i < h.lines.len()
        invariant
            i <= h.lines@.len(),
            line_views(lines@) == shown_lines(h.lines@.take(i as int)),
        decreases h.lines@.len() - i,
    {
        let ghost before = lines@;
        proof {
            assert(h.lines@.take(i + 1).drop_last() =~= h.lines@.take(i as int));
        }
        match &h.lines[i] {
            DiffLine::Context(s) => lines.push((' ', s.as_str())),
            DiffLine::Added(s) => lines.push(('+', s.as_str())),
            DiffLine::Removed(s) => lines.push(('-', s.as_str())),
            DiffLine::Other => {},
        }
        proof {
            if lines@.len() > before.len() {
                let last = lines@[before.len() as int];
                assert(line_views(lines@) =~= line_views(before).push((last.0, last.1@)));
            }
        }
        i = i + 1;
    }
    proof {
        assert(h.lines@.take(i as int) =~= h.lines@);
    }
    build_hunk_info(
        h.old_start,
        h.old_lines,
        h.new_start,
        h.new_lines,
        h.section.as_str(),
        &lines,
    )
}

/// The change record of a parsed file.
pub open spec fn change_of(f: FileDiff) -> ChangeView {
    ChangeView { path: f.path@, old_path: opt_view(f.old_path), kind: f.kind }
}

/// Only a plain modification with hunks can be committed hunk by hunk: added,
/// deleted and renamed files are committed whole, and a binary file has no hunks.
pub open spec fn splits(f: FileDiff) -> bool {
    f.kind == ChangeKind::Modified && f.hunks@.len() > 0
}

/// The snapshot over parsed files.
pub open spec fn snapshot_of(files: Seq<FileDiff>, with_hunks: bool) -> SnapshotView
    decreases files.len(),
{
    if files.len() == 0 {
        SnapshotView { changes: seq![], diffs: Map::empty(), hunks: Map::empty() }
    } else {
        let before = snapshot_of(files.drop_last(), with_hunks);
        let f = files.last();
        SnapshotView {
            changes: before.changes.push(change_of(f)),
            diffs: before.diffs.insert(f.path@, f.raw@),
            hunks: if with_hunks && splits(f) {
                before.hunks.insert(f.path@, f.hunks@.map_values(|h: Hunk| hunk_of(h)))
            } else {
                before.hunks
            },
        }
    }
}

/// The hunks of a file for display.
fn hunk_infos(hunks: &Vec<Hunk>) -> (r: Vec<HunkInfo>)
    ensures
        hunk_views(r@) == hunks@.map_values(|h: Hunk| hunk_of(h)),
{
    let ghost all = hunks@.map_values(|h: Hunk| hunk_of(h));
    let mut out: Vec<HunkInfo> = Vec::new();
    let mut i: usize = 0;
    while i < hunks.len()
        invariant
            i <= hunks@.len(),
            all == hunks@.map_values(|h: Hunk| hunk_of(h)),
            hunk_views(out@) == all.take(i as int),
        decreases hunks@.len() - i,
    {
        let ghost before = out@;
        let info = hunk_info(&hunks[i]);
        out.push(info);
        proof {
            assert(hunk_views(out@) =~= hunk_views(before).push(info@));
            assert(all.take(i + 1) =~= all.take(i as int).push(all[i as int]));
        }
        i = i + 1;
    }
    proof {
        assert(all.take(i as int) =~= all);
    }
    out
}

/// The snapshot over parsed files.
fn take_snapshot(files: Vec<FileDiff>, with_hunks: bool) -> (r: Snapshot)
    ensures
        r@ == snapshot_of(files@, with_hunks),
{
    let ghost all = files@;
    let mut changes: Vec<FileChange> = Vec::new();
    let mut diffs: PathMap<String> = PathMap::new();
    let mut hunks: PathMap<Vec<HunkInfo>> = PathMap::new();
    proof {
        let none = snapshot_of(all.take(0), with_hunks);
        assert(change_views(changes@) =~= none.changes);
        assert(text_map(diffs@) =~= none.diffs);
        assert(hunk_map(hunks@) =~= none.hunks);
    }
    for f in it: files
        invariant
            it.seq() == all,
            change_views(changes@) == snapshot_of(all.take(it.index()), with_hunks).changes,
            text_map(diffs@) == snapshot_of(all.take(it.index()), with_hunks).diffs,
            hunk_map(hunks@) == snapshot_of(all.take(it.index()), with_hunks).hunks,
    {
        let ghost i = it.index();
        let ghost next = all.take(i + 1);
        let ghost changes_before = changes@;
        let ghost diffs_before = diffs@;
        let ghost hunks_before = hunks@;
        proof {
            assert(next.drop_last() =~= all.take(i));
            assert(next.last() == f);
        }
        let path = f.path;
        let raw = f.raw;
        let infos = hunk_infos(&f.hunks);
        let split: bool = with_hunks && f.kind == ChangeKind::Modified && f.hunks.len() > 0;
        let change = FileChange { path: path.clone(), old_path: f.old_path, kind: f.kind };
        changes.push(change);
        if split {
            hunks.insert(path.clone(), infos);
        }
        diffs.insert(path, raw);
        proof {
            assert(change_views(changes@) =~= change_views(changes_before).push(change@));
            assert(text_map(diffs@) =~= text_map(diffs_before).insert(path@, raw@));
            if split {
                assert(hunk_map(hunks@) =~= hunk_map(hunks_before).insert(
                    path@,
                    hunk_views(infos@),
                ));
            }
        }
    }
    proof {
        assert(all.take(all.len() as int) =~= all);
    }
    Snapshot { changes, diffs, hunks }
}

/// The snapshot over the files of a git diff; with hunks for a working tree, and
/// without for a branch review, which is by whole files.
pub fn snapshot_from_git(files: Vec<FileDiff>, with_hunks: bool) -> (r: Snapshot)
    ensures
        r@ == snapshot_of(files@, with_hunks),
{
    take_snapshot(files, with_hunks)
}

/// The snapshot over the files of a jj diff. There is no hunk-level commit in jj,
/// so no hunks are recorded.
pub fn snapshot_from_jj(files: Vec<FileDiff>) -> (r: Snapshot)
    ensures
        r@ == snapshot_of(files@, false),
{
    take_snapshot(files, false)
}

/// The snapshot with an untracked file in it.
pub open spec fn with_untracked(s: SnapshotView, path: Seq<char>, preview: Seq<char>) -> SnapshotView {
    SnapshotView {
        changes: s.changes.push(ChangeView { path, old_path: None, kind: ChangeKind::Untracked }),
        diffs: s.diffs.insert(path, preview),
        hunks: s.hunks,
    }
}

impl Snapshot {
    /// Add an untracked file with its preview (git only: its diff does not list
    /// files that git does not know).
    pub fn add_untracked(&mut self, path: String, preview: String)
        ensures
            final(self)@ == with_untracked(old(self)@, path@, preview@),
    {
        let ghost before = *self;
        let change = FileChange { path: path.clone(), old_path: None, kind: ChangeKind::Untracked };
        self.changes.push(change);
        self.diffs.insert(path, preview);
        proof {
            assert(change_views(self.changes@) =~= change_views(before.changes@).push(change@));
            assert(text_map(self.diffs@) =~= text_map(before.diffs@).insert(path@, preview@));
        }
    }
}

/// Every change of a snapshot has its diff, under the path that the tree shows.
pub proof fn changes_have_diffs(files: Seq<FileDiff>, with_hunks: bool)
    ensures
        snapshot_of(files, with_hunks).changes.len() == files.len(),
        forall|i: int|
            0 <= i < files.len() ==> snapshot_of(files, with_hunks).diffs.contains_key(
                #[trigger] snapshot_of(files, with_hunks).changes[i].path,
            ),
    decreases files.len(),
{
    if files.len() > 0 {
        let rest = files.drop_last();
        changes_have_diffs(rest, with_hunks);
        let s = snapshot_of(files, with_hunks);
        let before = snapshot_of(rest, with_hunks);
        assert forall|i: int| 0 <= i < files.len() implies s.diffs.contains_key(
            #[trigger] s.changes[i].path,
        ) by {
            if i < rest.len() {
                assert(before.diffs.contains_key(before.changes[i].path));
            }
        }
    }
}

/// Without hunks asked for, none are recorded.
pub proof fn no_hunks_without_asking(files: Seq<FileDiff>)
    ensures
        snapshot_of(files, false).hunks == Map::<Seq<char>, Seq<HunkView>>::empty(),
    decreases files.len(),
{
    if files.len() > 0 {
        no_hunks_without_asking(files.drop_last());
    }
}

// ----- untracked files ----------------------------------------------------------------

/// What marks an untracked file in the status.
pub open spec fn untracked_mark() -> Seq<char> {
    seq!['?', '?', ' ']
}

/// The untracked paths among NUL-separated status records.
pub open spec fn untracked_in(records: Seq<Seq<char>>) -> Seq<Seq<char>>
    decreases records.len(),
{
    if records.len() == 0 {
        seq![]
    } else {
        let before = untracked_in(records.drop_last());
        let rec = records.last();
        if has_prefix(rec, untracked_mark()) {
            before.push(rec.skip(3))
        } else {
            before
        }
    }
}

/// List untracked files, each by itself and with raw paths.
pub open spec fn status_argv() -> Seq<Seq<char>> {
    seq!["status"@, "--porcelain=v1"@, "-z"@, "--untracked-files=all"@]
}

/// The arguments that list untracked files, each by itself and with raw paths (git).
pub fn untracked_args() -> (r: Vec<String>)
    ensures
        texts(r@) == status_argv(),
{
    let argv = text::owned(&["status", "--porcelain=v1", "-z", "--untracked-files=all"]);
    proof {
        assert(texts(argv@) =~= status_argv());
    }
    argv
}

/// The untracked paths in the output of `status --porcelain=v1 -z`: its records
/// end in NUL and hold raw paths. Other records, and the source path behind a
/// rename, do not carry the mark.
pub fn parse_untracked_z(out: &str) -> (r: Vec<String>)
    ensures
        texts(r@) == untracked_in(pieces(out@, '\0')),
{
    let all = text::chars(out);
    let records = text::split(&all, '\0');
    let ghost list = text::slices(records@);
    let mark: [char; 3] = ['?', '?', ' '];
    let mut paths: Vec<String> = Vec::new();
    let mut i: usize = 0;
    proof {
        assert(texts(paths@) =~= untracked_in(list.take(0)));
        assert(mark@ =~= untracked_mark());
    }
    while i < records.len()
        invariant
            i <= records@.len(),
            list == text::slices(records@),
            mark@ == untracked_mark(),
            texts(paths@) == untracked_in(list.take(i as int)),
        decreases records@.len() - i,
    {
        let rec = records[i];
        let ghost before = paths@;
        proof {
            assert(list.take(i + 1).drop_last() =~= list.take(i as int));
            assert(list.take(i + 1).last() == rec@);
        }
        if text::starts_with(rec, &mark) {
            let path = text::text(&rec[3..rec.len()]);
            paths.push(path);
            proof {
                assert(path@ =~= rec@.skip(3));
                assert(texts(paths@) =~= texts(before).push(path@));
            }
        }
        i = i + 1;
    }
    proof {
        assert(list.take(i as int) =~= list);
    }
    paths
}

/// What `String::from_utf8_lossy` makes of the bytes.
pub uninterp spec fn lossy(bytes: Seq<u8>) -> Seq<char>;

/// `String::from_utf8_lossy`: the text that the bytes encode, with replacement
/// characters for what is no UTF-8. Claimed of it: the text depends on the bytes
/// alone, and valid UTF-8 is decoded as it stands.
#[verifier::external_body]
pub(crate) fn decode_lossy(bytes: &[u8]) -> (r: String)
    ensures
        r@ == lossy(bytes@),
        valid_utf8(bytes@) ==> r@ == decode_utf8(bytes@),
{
    String::from_utf8_lossy(bytes).into_owned()
}

/// How much of a file is previewed, in bytes.
pub const PREVIEW_CAP: usize = 200_000;

/// How much of a file is searched for a NUL, in bytes.
pub const BINARY_PROBE: usize = 8192;

/// A file that holds a NUL early on is taken for binary.
pub open spec fn looks_binary(bytes: Seq<u8>) -> bool {
    exists|i: int| 0 <= i < bytes.len() && i < BINARY_PROBE && #[trigger] bytes[i] == 0
}

/// The lines as added lines.
pub open spec fn added_lines(lines: Seq<Seq<char>>) -> Seq<char>
    decreases lines.len(),
{
    if lines.len() == 0 {
        seq![]
    } else {
        added_lines(lines.drop_last()) + seq!['+'] + lines.last() + seq!['\n']
    }
}

/// The preview of a text.
pub open spec fn preview_text(content: Seq<char>, truncated: bool) -> Seq<char> {
    let body = added_lines(line_list(content));
    if truncated {
        body + "... (truncated)\n"@
    } else if body.len() == 0 {
        "(empty file)\n"@
    } else {
        body
    }
}

/// The preview of a file: its content as added lines, or a notice.
pub open spec fn preview_of(bytes: Option<Seq<u8>>) -> Seq<char> {
    match bytes {
        None => "(unreadable file)"@,
        Some(b) => if looks_binary(b) {
            "(binary file — content not shown)"@
        } else if b.len() > PREVIEW_CAP {
            preview_text(lossy(b.take(PREVIEW_CAP as int)), true)
        } else {
            preview_text(lossy(b), false)
        },
    }
}

/// The content of an untracked file as added lines.
pub fn preview_lines(content: &str, truncated: bool) -> (r: String)
    ensures
        r@ == preview_text(content@, truncated),
{
    let all = text::chars(content);
    let lines = text::lines(&all);
    let ghost list = text::slices(lines@);
    let mut out: Vec<char> = Vec::new();
    let mut i: usize = 0;
    proof {
        assert(added_lines(list.take(0)) =~= seq![]);
        assert(out@ =~= seq![]);
    }
    while i < lines.len()
        invariant
            i <= lines@.len(),
            list == text::slices(lines@),
            out@ == added_lines(list.take(i as int)),
        decreases lines@.len() - i,
    {
        proof {
            assert(list.take(i + 1).drop_last() =~= list.take(i as int));
        }
        let ghost before = out@;
        out.push('+');
        text::push_all(&mut out, lines[i]);
        out.push('\n');
        proof {
            assert(out@ =~= before + seq!['+'] + list[i as int] + seq!['\n']);
        }
        i = i + 1;
    }
    proof {
        assert(list.take(i as int) =~= list);
        reveal_strlit("... (truncated)\n");
    }
    let mut r = text::text(&out);
    if truncated {
        r.append("... (truncated)\n");
    } else if out.len() == 0 {
        r.append("(empty file)\n");
        proof {
            assert(r@ =~= "(empty file)\n"@);
        }
    }
    r
}

/// The preview of an untracked file with the given content; `None` if it could
/// not be read. For display only.
pub fn untracked_preview(bytes: Option<&[u8]>) -> (r: String)
    ensures
        r@ == preview_of(
            match bytes {
                Some(b) => Some(b@),
                None => None,
            },
        ),
{
    let b: &[u8] = match bytes {
        Some(b) => b,
        None => {
            return "(unreadable file)".to_string();
        },
    };
    let mut i: usize = 0;
    while i < b.len() && i < BINARY_PROBE
        invariant
            bytes == Some(b),
            i <= b@.len(),
            i <= BINARY_PROBE,
            forall|j: int| 0 <= j < i ==> #[trigger] b@[j] != 0,
        decreases b@.len() - i,
    {
        if b[i] == 0 {
            proof {
                assert(b@[i as int] == 0);
                assert(looks_binary(b@));
            }
            return "(binary file — content not shown)".to_string();
        }
        i = i + 1;
    }
    if b.len() > PREVIEW_CAP {
        let head = &b[0..PREVIEW_CAP];
        proof {
            assert(head@ =~= b@.take(PREVIEW_CAP as int));
        }
        preview_lines(decode_lossy(head).as_str(), true)
    } else {
        preview_lines(decode_lossy(b).as_str(), false)
    }
}

// ----- names and ranges -----------------------------------------------------------------

/// The range of commits that `origin/<remote_branch>` has and local `name` lacks.
pub open spec fn git_behind_text(name: Seq<char>, remote_branch: Seq<char>) -> Seq<char> {
    name + ".."@ + REMOTE@ + "/"@ + remote_branch
}

/// git: the range of commits that `origin/<remote_branch>` has and `name` lacks.
pub fn git_behind_range(name: &str, remote_branch: &str) -> (r: String)
    ensures
        r@ == git_behind_text(name@, remote_branch@),
{
    let mut out = name.to_string();
    out.append("..");
    out.append(REMOTE);
    out.append("/");
    out.append(remote_branch);
    out
}

/// The revset of commits that `<remote_branch>@origin` has and local `name` lacks.
pub open spec fn jj_behind_text(name: Seq<char>, remote_branch: Seq<char>) -> Seq<char> {
    remote_branch + "@"@ + REMOTE@ + " ~ ::"@ + name
}

/// jj: the revset of commits that `<remote_branch>@origin` has and `name` lacks.
pub fn jj_behind_revset(name: &str, remote_branch: &str) -> (r: String)
    ensures
        r@ == jj_behind_text(name@, remote_branch@),
{
    let mut out = remote_branch.to_string();
    out.append("@");
    out.append(REMOTE);
    out.append(" ~ ::");
    out.append(name);
    out
}

/// The three-dot range `origin/<base>...origin/<head>`.
pub open spec fn review_text(base: Seq<char>, head: Seq<char>) -> Seq<char> {
    REMOTE@ + "/"@ + base + "..."@ + REMOTE@ + "/"@ + head
}

/// The range whose diff a pull request from `head` into `base` shows: from their
/// merge base, between the remote-tracking refs, so that the local state does not
/// matter.
pub fn review_spec(base: &str, head: &str) -> (r: String)
    ensures
        r@ == review_text(base@, head@),
{
    let mut out = REMOTE.to_string();
    out.append("/");
    out.append(base);
    out.append("...");
    out.append(REMOTE);
    out.append("/");
    out.append(head);
    out
}

/// The branch in an upstream name on [`REMOTE`]: what stands behind `origin/`.
pub open spec fn upstream_branch(upstream: Seq<char>) -> Option<Seq<char>> {
    let s = trimmed(upstream);
    let head = REMOTE@ + "/"@;
    if has_prefix(s, head) {
        Some(s.skip(head.len() as int))
    } else {
        None
    }
}

/// The branch in an upstream name (`origin/feat/x` gives `feat/x`); `None` if it
/// names no branch on [`REMOTE`]: one that follows another remote (`fork/feat`)
/// tracks nothing there.
pub fn parse_git_upstream(upstream: &str) -> (r: Option<String>)
    ensures
        opt_view(r) == upstream_branch(upstream@),
{
    let all = text::chars(upstream);
    let s = text::trim(&all);
    let mut start = REMOTE.to_string();
    start.append("/");
    let head = text::chars(start.as_str());
    if text::starts_with(s, &head) {
        let rest = &s[head.len()..s.len()];
        proof {
            assert(rest@ =~= s@.skip(head@.len() as int));
        }
        Some(text::text(rest))
    } else {
        None
    }
}

/// A stamp for file names: the time and a counter.
pub open spec fn stamp_text(millis: nat, seq: nat) -> Seq<char> {
    decimal_of(millis) + "-"@ + decimal_of(seq)
}

/// A stamp for file names, from the time in milliseconds and a counter that is
/// not used twice in one process.
pub fn backup_stamp(millis: u128, seq: u32) -> (r: String)
    ensures
        r@ == stamp_text(millis as nat, seq as nat),
{
    let mut out = text::decimal(millis);
    out.append("-");
    text::push_decimal(&mut out, seq as u128);
    out
}

/// Two stamps differ if the time or the counter does: two files written in the
/// same millisecond do not get the same name.
pub proof fn stamps_differ(m1: nat, s1: nat, m2: nat, s2: nat)
    requires
        m1 != m2 || s1 != s2,
    ensures
        stamp_text(m1, s1) != stamp_text(m2, s2),
{
    reveal_strlit("-");
    let a = stamp_text(m1, s1);
    let b = stamp_text(m2, s2);
    let i = decimal_of(m1).len() as int;
    let j = decimal_of(m2).len() as int;
    text::decimal_facts(m1);
    text::decimal_facts(m2);
    if a == b {
        assert(a[i] == '-');
        assert(b[j] == '-');
        if i < j {
            assert(b[i] == decimal_of(m2)[i]);
        } else if j < i {
            assert(a[j] == decimal_of(m1)[j]);
        }
        assert(decimal_of(m1) =~= a.take(i));
        assert(decimal_of(m2) =~= b.take(j));
        assert(decimal_of(s1) =~= a.skip(i + 1));
        assert(decimal_of(s2) =~= b.skip(j + 1));
        text::decimal_injective(m1, m2);
        text::decimal_injective(s1, s2);
    }
}

/// The lines that hold something.
pub open spec fn filled(lines: Seq<Seq<char>>) -> Seq<Seq<char>>
    decreases lines.len(),
{
    if lines.len() == 0 {
        seq![]
    } else {
        let before = filled(lines.drop_last());
        if lines.last().len() > 0 {
            before.push(lines.last())
        } else {
            before
        }
    }
}

/// The conflicted paths in a list of names, one to a line.
pub fn conflicted_files(out: &str) -> (r: Vec<String>)
    ensures
        texts(r@) == filled(line_list(out@)),
{
    let all = text::chars(out);
    let lines = text::lines(&all);
    let ghost list = text::slices(lines@);
    let mut files: Vec<String> = Vec::new();
    let mut i: usize = 0;
    proof {
        assert(texts(files@) =~= filled(list.take(0)));
    }
    while i < lines.len()
        invariant
            i <= lines@.len(),
            list == text::slices(lines@),
            texts(files@) == filled(list.take(i as int)),
        decreases lines@.len() - i,
    {
        let line = lines[i];
        let ghost before = files@;
        proof {
            assert(list.take(i + 1).drop_last() =~= list.take(i as int));
            assert(list.take(i + 1).last() == line@);
        }
        if line.len() > 0 {
            let file = text::text(line);
            files.push(file);
            proof {
                assert(texts(files@) =~= texts(before).push(file@));
            }
        }
        i = i + 1;
    }
    proof {
        assert(list.take(i as int) =~= list);
    }
    files
}

/// The arguments that list uncommitted changes to tracked files (git): untracked ones
/// do not stand in the way of an integration.
pub fn dirty_args() -> (r: Vec<String>)
    ensures
        texts(r@) == seq!["status"@, "--porcelain"@, "--untracked-files=no"@],
{
    let argv = text::owned(&["status", "--porcelain", "--untracked-files=no"]);
    proof {
        assert(texts(argv@) =~= seq!["status"@, "--porcelain"@, "--untracked-files=no"@]);
    }
    argv
}

/// The arguments that fetch what is on the remote (git): a bare fetch would ask the
/// remote that the branch is configured for.
pub fn fetch_args() -> (r: Vec<String>)
    ensures
        texts(r@) == seq!["fetch"@, REMOTE@],
{
    let argv = text::owned(&["fetch", REMOTE]);
    proof {
        assert(texts(argv@) =~= seq!["fetch"@, REMOTE@]);
    }
    argv
}

/// Whether a status lists uncommitted changes.
pub fn is_dirty(status: &str) -> (r: bool)
    ensures
        r == (trimmed(status@).len() > 0),
{
    let all = text::chars(status);
    text::trim(&all).len() > 0
}

// ----- targets ----------------------------------------------------------------------------

/// A local bookmark and the commit it points at.
#[derive(Debug)]
pub struct Bookmark {
    pub name: String,
    pub target: String,
}

/// A bookmark, local or on a remote.
#[derive(Debug)]
pub struct BookmarkRef {
    pub name: String,
    /// The remote; `None` for a local bookmark.
    pub remote: Option<String>,
    pub is_tracked: bool,
}

/// The commit target of a git repository: its branch, or a note that the head is
/// detached.
pub open spec fn git_target_view(branch: Option<Seq<char>>, short: Seq<char>) -> TargetView {
    TargetView {
        label: match branch {
            Some(b) => b,
            None => "detached HEAD @ "@ + trimmed(short),
        },
        revision: None,
    }
}

/// Where a git commit lands: the current branch. Without one, the head is
/// detached at `short`.
pub fn git_targets(branch: Option<String>, short: &str) -> (r: Vec<Target>)
    ensures
        target_views(r@) == seq![git_target_view(opt_view(branch), short@)],
{
    let label = match branch {
        Some(b) => b,
        None => {
            let mut l = "detached HEAD @ ".to_string();
            let all = text::chars(short);
            l.append(text::text(text::trim(&all)).as_str());
            l
        },
    };
    let t = Target { label, revision: None };
    let r: Vec<Target> = vec![t];
    proof {
        assert(target_views(r@) =~= seq![t@]);
    }
    r
}

/// The target that advances a bookmark.
pub open spec fn bookmark_target(b: Bookmark) -> TargetView {
    TargetView { label: b.name@, revision: Some(b.target@) }
}

/// The targets that advance a local bookmark: a name with `@` in it belongs to a
/// remote.
pub open spec fn local_targets(all: Seq<Bookmark>) -> Seq<TargetView>
    decreases all.len(),
{
    if all.len() == 0 {
        seq![]
    } else {
        let before = local_targets(all.drop_last());
        if all.last().name@.contains('@') {
            before
        } else {
            before.push(bookmark_target(all.last()))
        }
    }
}

/// Where a jj commit can land: the nearest bookmarks; without any, every local
/// bookmark, and last a commit that moves none.
pub open spec fn jj_target_views(near: Seq<Bookmark>, all: Seq<Bookmark>) -> Seq<TargetView> {
    if near.len() > 0 {
        near.map_values(|b: Bookmark| bookmark_target(b))
    } else {
        local_targets(all).push(TargetView { label: seq![], revision: None })
    }
}

/// Whether the list of all bookmarks is needed to tell the targets.
pub fn needs_all_bookmarks(near: &Vec<Bookmark>) -> (r: bool)
    ensures
        r == (near@.len() == 0),
{
    near.len() == 0
}

/// Where a jj commit can land. `near` are the bookmarks nearest to the working
/// copy, one entry per name; `all` is looked at only if there are none.
pub fn jj_targets(near: &Vec<Bookmark>, all: &Vec<Bookmark>) -> (r: Vec<Target>)
    ensures
        target_views(r@) == jj_target_views(near@, all@),
        r@.len() > 0,
{
    let mut out: Vec<Target> = Vec::new();
    if near.len() > 0 {
        let ghost want = near@.map_values(|b: Bookmark| bookmark_target(b));
        let mut i: usize = 0;
        while i < near.len()
            invariant
                i <= near@.len(),
                want == near@.map_values(|b: Bookmark| bookmark_target(b)),
                target_views(out@) == want.take(i as int),
            decreases near@.len() - i,
        {
            let ghost before = out@;
            let t = Target {
                label: near[i].name.clone(),
                revision: Some(near[i].target.clone()),
            };
            out.push(t);
            proof {
                assert(target_views(out@) =~= target_views(before).push(t@));
                assert(want.take(i + 1) =~= want.take(i as int).push(want[i as int]));
            }
            i = i + 1;
        }
        proof {
            assert(want.take(i as int) =~= want);
            assert(target_views(out@).len() == out@.len());
        }
        out
    } else {
        let mut i: usize = 0;
        proof {
            assert(target_views(out@) =~= local_targets(all@.take(0)));
        }
        while i < all.len()
            invariant
                i <= all@.len(),
                target_views(out@) == local_targets(all@.take(i as int)),
            decreases all@.len() - i,
        {
            let ghost before = out@;
            let b = &all[i];
            proof {
                assert(all@.take(i + 1).drop_last() =~= all@.take(i as int));
            }
            let name = text::chars(b.name.as_str());
            let at = text::find(&name, '@');
            proof {
                text::position_facts(b.name@, '@');
            }
            if at >= name.len() {
                let t = Target { label: b.name.clone(), revision: Some(b.target.clone()) };
                out.push(t);
                proof {
                    assert(!b.name@.contains('@'));
                    assert(target_views(out@) =~= target_views(before).push(t@));
                }
            } else {
                proof {
                    assert(b.name@[at as int] == '@');
                    assert(b.name@.contains('@'));
                }
            }
            i = i + 1;
        }
        let ghost before = out@;
        let t = Target { label: String::new(), revision: None };
        out.push(t);
        proof {
            assert(all@.take(i as int) =~= all@);
            assert(t.label@ =~= seq![]);
            assert(target_views(out@) =~= target_views(before).push(t@));
        }
        out
    }
}

/// What a push would advance: the branch of a git repository, if it is on one, or
/// the target's bookmark, if it has one.
pub open spec fn pushed_name(
    kind: BackendKind,
    branch: Option<Seq<char>>,
    label: Seq<char>,
) -> Option<Seq<char>> {
    match kind {
        BackendKind::Git => branch,
        BackendKind::Jj => if trimmed(label).len() > 0 {
            Some(trimmed(label))
        } else {
            None
        },
    }
}

/// What a push would advance; `None` if there is nothing to push.
pub fn push_name(kind: BackendKind, branch: Option<String>, target: &Target) -> (r: Option<String>)
    ensures
        opt_view(r) == pushed_name(kind, opt_view(branch), target.label@),
{
    match kind {
        BackendKind::Git => branch,
        BackendKind::Jj => {
            let all = text::chars(target.label.as_str());
            let l = text::trim(&all);
            if l.len() > 0 {
                Some(text::text(l))
            } else {
                None
            }
        },
    }
}

/// The bookmark is on `origin`.
pub open spec fn on_origin(b: BookmarkRef) -> bool {
    b.remote is Some && b.remote->0@ == REMOTE@
}

/// A bookmark of that name on `origin` is followed.
pub open spec fn tracks(refs: Seq<BookmarkRef>, name: Seq<char>) -> bool {
    exists|i: int|
        0 <= i < refs.len() && #[trigger] on_origin(refs[i]) && refs[i].name@ == name && refs[i].is_tracked
}

/// Whether the bookmark is on `origin`.
fn is_on_origin(b: &BookmarkRef) -> (r: bool)
    ensures
        r == on_origin(*b),
{
    match &b.remote {
        Some(remote) => text::same(remote.as_str(), REMOTE),
        None => false,
    }
}

/// jj: the remote branch that `name` tracks, which has the same name; `None` if it
/// tracks none.
pub fn jj_upstream(refs: &Vec<BookmarkRef>, name: &str) -> (r: Option<String>)
    ensures
        opt_view(r) == if tracks(refs@, name@) {
            Some(name@)
        } else {
            None
        },
{
    let mut i: usize = 0;
    while i < refs.len()
        invariant
            i <= refs@.len(),
            forall|j: int|
                0 <= j < i ==> !(#[trigger] on_origin(refs@[j]) && refs@[j].name@ == name@ && refs@[j].is_tracked),
        decreases refs@.len() - i,
    {
        let b = &refs[i];
        if is_on_origin(b) && b.is_tracked && text::same(b.name.as_str(), name) {
            proof {
                assert(on_origin(refs@[i as int]));
            }
            return Some(name.to_string());
        }
        i = i + 1;
    }
    None
}

/// The names of the bookmarks on `origin`, in order and each once.
pub open spec fn origin_names(refs: Seq<BookmarkRef>) -> Seq<Seq<char>>
    decreases refs.len(),
{
    if refs.len() == 0 {
        seq![]
    } else {
        let before = origin_names(refs.drop_last());
        if on_origin(refs.last()) {
            with_name(before, refs.last().name@)
        } else {
            before
        }
    }
}

/// The names are in order, each once, and exactly those on `origin`.
pub proof fn origin_names_facts(refs: Seq<BookmarkRef>)
    ensures
        names_in_order(origin_names(refs)),
        forall|x: Seq<char>|
            #[trigger] origin_names(refs).contains(x) <==> exists|i: int|
                0 <= i < refs.len() && #[trigger] on_origin(refs[i]) && refs[i].name@ == x,
    decreases refs.len(),
{
    if refs.len() > 0 {
        let rest = refs.drop_last();
        let n = refs.len() - 1;
        origin_names_facts(rest);
        let before = origin_names(rest);
        if on_origin(refs.last()) {
            with_name_facts(before, refs.last().name@);
        }
        assert forall|x: Seq<char>|
            #[trigger] origin_names(refs).contains(x) <==> exists|i: int|
                0 <= i < refs.len() && #[trigger] on_origin(refs[i]) && refs[i].name@ == x by {
            if before.contains(x) {
                let i = choose|i: int|
                    0 <= i < rest.len() && #[trigger] on_origin(rest[i]) && rest[i].name@ == x;
                assert(on_origin(refs[i]));
            }
            if on_origin(refs[n]) && refs[n].name@ == x {
                assert(origin_names(refs).contains(x));
            }
            if exists|i: int| 0 <= i < refs.len() && #[trigger] on_origin(refs[i]) && refs[i].name@ == x {
                let i = choose|i: int|
                    0 <= i < refs.len() && #[trigger] on_origin(refs[i]) && refs[i].name@ == x;
                if i < n {
                    assert(on_origin(rest[i]));
                    assert(before.contains(x));
                }
            }
        }
    }
}

/// Put a name at its place in an ordered list, if it is not there.
fn enter_name(names: &mut Vec<String>, x: &str)
    requires
        names_in_order(texts(old(names)@)),
    ensures
        texts(final(names)@) == with_name(texts(old(names)@), x@),
        names_in_order(texts(final(names)@)),
{
    let ghost list = texts(names@);
    let key = text::chars(x);
    let mut p: usize = 0;
    let mut there: bool = false;
    let mut going: bool = true;
    while going && p < names.len()
        invariant
            list == texts(names@),
            key@ == x@,
            names_in_order(list),
            p <= names@.len(),
            forall|i: int| 0 <= i < p ==> #[trigger] name_lt(list[i], x@),
            !going ==> p < list.len() && !name_lt(list[p as int], x@) && there == (list[p as int]
                == x@),
            going ==> !there,
        decreases names@.len() - p, going as int,
    {
        let here = text::chars(names[p].as_str());
        proof {
            assert(list[p as int] == here@);
        }
        if text::same_chars(&here, &key) {
            there = true;
            going = false;
        } else if text::not_after(&here, &key) {
            p = p + 1;
        } else {
            going = false;
        }
    }
    proof {
        assert forall|i: int| p <= i < list.len() implies !(#[trigger] name_lt(list[i], x@)) by {
            if i > p && name_lt(list[i], x@) {
                assert(name_lt(list[p as int], list[i]));
                name_lt_facts(list[p as int], list[i], x@);
            }
        }
        with_name_at(list, x@, p as int);
        with_name_facts(list, x@);
    }
    if !there {
        names.insert(p, x.to_string());
        proof {
            assert(texts(names@) =~= list.insert(p as int, x@));
        }
    }
}

/// jj: the branches on `origin`, in order and each once.
pub fn jj_remote_branches(refs: &Vec<BookmarkRef>) -> (r: Vec<String>)
    ensures
        texts(r@) == origin_names(refs@),
{
    let mut names: Vec<String> = Vec::new();
    let mut i: usize = 0;
    proof {
        assert(texts(names@) =~= origin_names(refs@.take(0)));
    }
    while i < refs.len()
        invariant
            i <= refs@.len(),
            names_in_order(texts(names@)),
            texts(names@) == origin_names(refs@.take(i as int)),
        decreases refs@.len() - i,
    {
        proof {
            assert(refs@.take(i + 1).drop_last() =~= refs@.take(i as int));
        }
        if is_on_origin(&refs[i]) {
            enter_name(&mut names, refs[i].name.as_str());
        }
        i = i + 1;
    }
    proof {
        assert(refs@.take(i as int) =~= refs@);
    }
    names
}

/// One of the texts is `x`.
pub fn holds(list: &Vec<String>, x: &str) -> (r: bool)
    ensures
        r == texts(list@).contains(x@),
{
    let mut i: usize = 0;
    while i < list.len()
        invariant
            i <= list@.len(),
            forall|j: int| 0 <= j < i ==> #[trigger] texts(list@)[j] != x@,
        decreases list@.len() - i,
    {
        if text::same(list[i].as_str(), x) {
            proof {
                assert(texts(list@)[i as int] == x@);
            }
            return true;
        }
        i = i + 1;
    }
    false
}

// ----- attaching --------------------------------------------------------------------------

/// A branch on the remote, as git names it.
pub open spec fn remote_ref(branch: Seq<char>) -> Seq<char> {
    REMOTE@ + "/"@ + branch
}

/// A branch on the remote, as git names it.
pub fn git_remote_ref(branch: &str) -> (r: String)
    ensures
        r@ == remote_ref(branch@),
{
    let mut out = REMOTE.to_string();
    out.append("/");
    out.append(branch);
    out
}

/// A bookmark on the remote, as jj names it.
pub open spec fn remote_bookmark(branch: Seq<char>) -> Seq<char> {
    branch + "@"@ + REMOTE@
}

/// A bookmark on the remote, as jj names it.
pub fn jj_remote_bookmark(branch: &str) -> (r: String)
    ensures
        r@ == remote_bookmark(branch@),
{
    let mut out = branch.to_string();
    out.append("@");
    out.append(REMOTE);
    out
}

/// How a local branch or bookmark comes to follow a remote branch.
#[derive(Debug, Clone, Copy, PartialEq, Eq, Structural)]
pub enum Attach {
    /// git: set the upstream; the name stays.
    SetUpstream,
    /// jj: follow the remote bookmark of the same name.
    Track,
    /// jj: take the name of the remote bookmark, then follow it.
    RenameAndTrack,
    /// jj: another local bookmark has that name. Nothing is changed.
    Refuse,
}

/// How `name` is attached to `remote_branch`, where `local` are the local
/// bookmarks. A jj bookmark follows a remote one by having its name.
pub open spec fn attach_plan(
    kind: BackendKind,
    name: Seq<char>,
    remote_branch: Seq<char>,
    local: Seq<Seq<char>>,
) -> Attach {
    match kind {
        BackendKind::Git => Attach::SetUpstream,
        BackendKind::Jj => if remote_branch == name {
            Attach::Track
        } else if local.contains(remote_branch) {
            Attach::Refuse
        } else {
            Attach::RenameAndTrack
        },
    }
}

/// Whether the local bookmarks matter for attaching.
pub fn attach_needs_bookmarks(kind: BackendKind, name: &str, remote_branch: &str) -> (r: bool)
    ensures
        r == (kind == BackendKind::Jj && remote_branch@ != name@),
{
    matches!(kind, BackendKind::Jj) && !text::same(remote_branch, name)
}

/// How `name` is attached to `remote_branch`.
pub fn attach(kind: BackendKind, name: &str, remote_branch: &str, local: &Vec<String>) -> (r: Attach)
    ensures
        r == attach_plan(kind, name@, remote_branch@, texts(local@)),
{
    match kind {
        BackendKind::Git => Attach::SetUpstream,
        BackendKind::Jj => if text::same(remote_branch, name) {
            Attach::Track
        } else if holds(local, remote_branch) {
            Attach::Refuse
        } else {
            Attach::RenameAndTrack
        },
    }
}

/// The local name after attaching: the remote one for a jj bookmark, the old one
/// otherwise.
pub open spec fn attached_name(
    plan: Attach,
    name: Seq<char>,
    remote_branch: Seq<char>,
) -> Seq<char> {
    match plan {
        Attach::RenameAndTrack => remote_branch,
        _ => name,
    }
}

/// The local name to go on with after attaching.
pub fn name_after(plan: Attach, name: &str, remote_branch: &str) -> (r: String)
    ensures
        r@ == attached_name(plan, name@, remote_branch@),
{
    match plan {
        Attach::RenameAndTrack => remote_branch.to_string(),
        _ => name.to_string(),
    }
}

/// Why attaching was refused.
pub fn taken_message(name: &str, remote_branch: &str) -> (r: String)
    ensures
        r@ == "a local bookmark '"@ + remote_branch@ + "' already exists; rename or delete it, or push '"@
            + name@ + "' as its own branch (Ctrl+N)"@,
{
    let mut out = "a local bookmark '".to_string();
    out.append(remote_branch);
    out.append("' already exists; rename or delete it, or push '");
    out.append(name);
    out.append("' as its own branch (Ctrl+N)");
    out
}

/// After attaching, a jj bookmark has the name of the remote branch; a git branch
/// keeps its own.
pub proof fn attaching_settles_the_name(
    kind: BackendKind,
    name: Seq<char>,
    remote_branch: Seq<char>,
    local: Seq<Seq<char>>,
)
    ensures
        ({
            let plan = attach_plan(kind, name, remote_branch, local);
            let after = attached_name(plan, name, remote_branch);
            &&& kind == BackendKind::Git ==> after == name
            &&& kind == BackendKind::Jj && plan != Attach::Refuse ==> after == remote_branch
            &&& plan == Attach::Refuse <==> kind == BackendKind::Jj && remote_branch != name
                && local.contains(remote_branch)
        }),
{
}

// ----- what holds of a snapshot ------------------------------------------------------------

/// Change `i` of a snapshot is file `i` of the diff: it has its path, its old path and
/// its kind of change, and there is no other change.
pub proof fn changes_are_the_files(files: Seq<FileDiff>, with_hunks: bool)
    ensures
        snapshot_of(files, with_hunks).changes.len() == files.len(),
        forall|i: int|
            #![trigger snapshot_of(files, with_hunks).changes[i]]
            #![trigger files[i]]
            0 <= i < files.len() ==> {
                let c = snapshot_of(files, with_hunks).changes[i];
                &&& c.path == files[i].path@
                &&& c.kind == files[i].kind
                &&& match files[i].old_path {
                    Some(old) => c.old_path == Some(old@),
                    None => c.old_path is None,
                }
            },
    decreases files.len(),
{
    if files.len() > 0 {
        let rest = files.drop_last();
        changes_are_the_files(rest, with_hunks);
        let all = snapshot_of(files, with_hunks).changes;
        let before = snapshot_of(rest, with_hunks).changes;
        assert forall|i: int| 0 <= i < files.len() implies {
            let c = #[trigger] all[i];
            &&& c.path == files[i].path@
            &&& c.kind == files[i].kind
            &&& match files[i].old_path {
                Some(old) => c.old_path == Some(old@),
                None => c.old_path is None,
            }
        } by {
            if i < rest.len() {
                assert(all[i] == before[i]);
                assert(rest[i] == files[i]);
            }
        }
    }
}

/// No file behind `i` has its path.
pub open spec fn last_of_its_path(files: Seq<FileDiff>, i: int) -> bool {
    forall|j: int| i < j < files.len() ==> (#[trigger] files[j]).path@ != files[i].path@
}

/// The diff of a path is the diff of the file there, as it stands; and only paths of
/// changed files have one.
pub proof fn diffs_are_those_of_the_files(files: Seq<FileDiff>, with_hunks: bool)
    ensures
        forall|i: int|
            0 <= i < files.len() && last_of_its_path(files, i)
                ==> snapshot_of(files, with_hunks).diffs.contains_key((#[trigger] files[i]).path@)
                && snapshot_of(files, with_hunks).diffs[files[i].path@] == files[i].raw@,
        forall|path: Seq<char>| #[trigger]
            snapshot_of(files, with_hunks).diffs.contains_key(path) ==> exists|i: int|
                0 <= i < files.len() && (#[trigger] files[i]).path@ == path,
    decreases files.len(),
{
    if files.len() > 0 {
        let rest = files.drop_last();
        let n = files.len() - 1;
        diffs_are_those_of_the_files(rest, with_hunks);
        let s = snapshot_of(files, with_hunks);
        let before = snapshot_of(rest, with_hunks);
        assert forall|i: int| 0 <= i < files.len() && last_of_its_path(files, i) implies s.diffs.contains_key(
            (#[trigger] files[i]).path@,
        ) && s.diffs[files[i].path@] == files[i].raw@ by {
            if i < n {
                assert(files[n].path@ != files[i].path@);
                assert(last_of_its_path(rest, i)) by {
                    assert forall|j: int| i < j < rest.len() implies (#[trigger] rest[j]).path@
                        != rest[i].path@ by {
                        assert(files[j].path@ != files[i].path@);
                    }
                }
                assert(rest[i] == files[i]);
                assert(before.diffs.contains_key(rest[i].path@));
            }
        }
        assert forall|path: Seq<char>| #[trigger] s.diffs.contains_key(path) implies exists|i: int|
            0 <= i < files.len() && (#[trigger] files[i]).path@ == path by {
            if files[n].path@ != path {
                assert(before.diffs.contains_key(path));
                let i = choose|i: int| 0 <= i < rest.len() && (#[trigger] rest[i]).path@ == path;
                assert(files[i].path@ == path);
            }
        }
    }
}

/// Hunks are known of exactly the files that are plain modifications with hunks, where
/// they are asked for: one for each of the diff, in order. Stated of a file that
/// shares its path with no other.
pub proof fn hunks_are_those_of_modified_files(files: Seq<FileDiff>, with_hunks: bool, i: int)
    requires
        0 <= i < files.len(),
        forall|j: int| 0 <= j < files.len() && j != i ==> (#[trigger] files[j]).path@ != files[i].path@,
    ensures
        ({
            let known = snapshot_of(files, with_hunks).hunks;
            let path = files[i].path@;
            &&& known.contains_key(path) <==> with_hunks && files[i].kind == ChangeKind::Modified
                && files[i].hunks@.len() > 0
            &&& known.contains_key(path) ==> known[path].len() == files[i].hunks@.len() && forall|
                k: int,
            |
                0 <= k < files[i].hunks@.len() ==> #[trigger] known[path][k] == hunk_of(
                    files[i].hunks@[k],
                )
        }),
    decreases files.len(),
{
    let rest = files.drop_last();
    let n = files.len() - 1;
    let path = files[i].path@;
    if i < n {
        assert forall|j: int| 0 <= j < rest.len() && j != i implies (#[trigger] rest[j]).path@
            != rest[i].path@ by {
            assert(files[j].path@ != path);
        }
        hunks_are_those_of_modified_files(rest, with_hunks, i);
        assert(files[n].path@ != path);
    } else {
        no_hunks_without_a_file(rest, with_hunks, path);
    }
}

proof fn no_hunks_without_a_file(files: Seq<FileDiff>, with_hunks: bool, path: Seq<char>)
    requires
        forall|j: int| 0 <= j < files.len() ==> (#[trigger] files[j]).path@ != path,
    ensures
        !snapshot_of(files, with_hunks).hunks.contains_key(path),
    decreases files.len(),
{
    if files.len() > 0 {
        let rest = files.drop_last();
        assert forall|j: int| 0 <= j < rest.len() implies (#[trigger] rest[j]).path@ != path by {
            assert(files[j].path@ != path);
        }
        assert(files[files.len() - 1].path@ != path);
        no_hunks_without_a_file(rest, with_hunks, path);
    }
}

/// A hunk is shown under its ranges and its section, `@@ -a,b +c,d @@ section`; then
/// its lines follow, each behind a space, a plus or a minus.
pub proof fn hunks_show_their_ranges_and_lines(h: Hunk)
    ensures
        hunk_of(h).header == "@@ -"@ + decimal_of(h.old_start as nat) + ","@ + decimal_of(
            h.old_lines as nat,
        ) + " +"@ + decimal_of(h.new_start as nat) + ","@ + decimal_of(h.new_lines as nat) + " @@"@
            + if h.section@.len() == 0 {
            seq![]
        } else {
            seq![' '] + h.section@
        },
        hunk_of(h).text.take(hunk_of(h).header.len() as int) == hunk_of(h).header,
        hunk_of(h).text[hunk_of(h).header.len() as int] == '\n',
        hunk_of(h).text.skip((hunk_of(h).header.len() + 1) as int) == prefixed(shown_lines(h.lines@)),
{
    let v = hunk_of(h);
    let ranges = "@@ -"@ + decimal_of(h.old_start as nat) + ","@ + decimal_of(h.old_lines as nat)
        + " +"@ + decimal_of(h.new_start as nat) + ","@ + decimal_of(h.new_lines as nat) + " @@"@;
    if h.section@.len() == 0 {
        assert(ranges + Seq::<char>::empty() =~= ranges);
    } else {
        assert(ranges + seq![' '] + h.section@ =~= ranges + (seq![' '] + h.section@));
    }
    assert(v.text.take(v.header.len() as int) =~= v.header);
    assert(v.text.skip((v.header.len() + 1) as int) =~= prefixed(shown_lines(h.lines@)));
}

/// The lines of a hunk are shown one after the other: an unchanged one behind a space,
/// an added one behind a plus, a removed one behind a minus.
pub proof fn shown_lines_keep_their_sign(lines: Seq<DiffLine>, more: DiffLine)
    ensures
        shown_lines(seq![]).len() == 0,
        prefixed(seq![]).len() == 0,
        prefixed(shown_lines(lines.push(more))) == prefixed(shown_lines(lines)) + match more {
            DiffLine::Context(s) => seq![' '] + s@ + seq!['\n'],
            DiffLine::Added(s) => seq!['+'] + s@ + seq!['\n'],
            DiffLine::Removed(s) => seq!['-'] + s@ + seq!['\n'],
            DiffLine::Other => seq![],
        },
{
    let all = lines.push(more);
    let before = shown_lines(lines);
    assert(all.drop_last() =~= lines);
    match more {
        DiffLine::Context(s) => {
            assert(before.push((' ', s@)).drop_last() =~= before);
            assert(prefixed(shown_lines(all)) =~= prefixed(before) + (seq![' '] + s@ + seq!['\n']));
        },
        DiffLine::Added(s) => {
            assert(before.push(('+', s@)).drop_last() =~= before);
            assert(prefixed(shown_lines(all)) =~= prefixed(before) + (seq!['+'] + s@ + seq!['\n']));
        },
        DiffLine::Removed(s) => {
            assert(before.push(('-', s@)).drop_last() =~= before);
            assert(prefixed(shown_lines(all)) =~= prefixed(before) + (seq!['-'] + s@ + seq!['\n']));
        },
        DiffLine::Other => {
            assert(prefixed(before) + Seq::<char>::empty() =~= prefixed(before));
        },
    }
}

/// An untracked file comes behind the other changes, as one, with its preview for a
/// diff; everything else stays.
pub proof fn untracked_files_are_added(s: SnapshotView, path: Seq<char>, preview: Seq<char>)
    ensures
        ({
            let t = with_untracked(s, path, preview);
            &&& t.changes.len() == s.changes.len() + 1
            &&& t.changes.drop_last() == s.changes
            &&& t.changes.last().path == path
            &&& t.changes.last().old_path is None
            &&& t.changes.last().kind == ChangeKind::Untracked
            &&& t.diffs.contains_key(path) && t.diffs[path] == preview
            &&& forall|p: Seq<char>|
                p != path ==> (#[trigger] t.diffs.contains_key(p) <==> s.diffs.contains_key(p)) && (
                s.diffs.contains_key(p) ==> t.diffs[p] == s.diffs[p])
            &&& t.hunks == s.hunks
        }),
{
    assert(with_untracked(s, path, preview).changes.drop_last() =~= s.changes);
}

/// A path is untracked exactly if a record of the status is that path behind `?? `.
pub proof fn untracked_are_the_marked_records(records: Seq<Seq<char>>, path: Seq<char>)
    ensures
        untracked_in(records).contains(path) <==> records.contains(seq!['?', '?', ' '] + path),
    decreases records.len(),
{
    let out = untracked_in(records);
    let wanted = seq!['?', '?', ' '] + path;
    if records.len() == 0 {
        assert(!out.contains(path));
    } else {
        let rest = records.drop_last();
        let last = records.last();
        let before = untracked_in(rest);
        untracked_are_the_marked_records(rest, path);
        assert(records =~= rest.push(last));
        if has_prefix(last, untracked_mark()) {
            assert(last =~= seq!['?', '?', ' '] + last.skip(3)) by {
                assert(last.take(3) =~= untracked_mark());
            }
            assert(out == before.push(last.skip(3)));
            assert(out[before.len() as int] == last.skip(3));
        }
        if last == wanted {
            assert(last.take(3) =~= untracked_mark());
            assert(last.skip(3) =~= path);
            assert(records[rest.len() as int] == wanted);
        }
        if before.contains(path) {
            let k = choose|k: int| 0 <= k < before.len() && before[k] == path;
            assert(out[k] == path);
            let j = choose|j: int| 0 <= j < rest.len() && rest[j] == wanted;
            assert(records[j] == wanted);
        }
        if out.contains(path) && !before.contains(path) {
            let k = choose|k: int| 0 <= k < out.len() && out[k] == path;
            if k < before.len() {
                assert(before[k] == path);
            }
            assert(last == wanted);
            assert(records[rest.len() as int] == wanted);
        }
        if records.contains(wanted) && last != wanted {
            let j = choose|j: int| 0 <= j < records.len() && records[j] == wanted;
            assert(rest[j] == wanted);
        }
    }
}

/// What an untracked file is shown as: a notice if it cannot be read, or if a NUL is
/// among its first 8192 bytes; else its lines, of at most its first 200000 bytes,
/// and then a note that there is more.
pub proof fn previews_show_text_alone(bytes: Seq<u8>)
    ensures
        preview_of(None) == "(unreadable file)"@,
        (exists|i: int| 0 <= i < bytes.len() && i < 8192 && #[trigger] bytes[i] == 0)
            ==> preview_of(Some(bytes)) == "(binary file — content not shown)"@,
        (forall|i: int| 0 <= i < bytes.len() && i < 8192 ==> #[trigger] bytes[i] != 0) ==> preview_of(
            Some(bytes),
        ) == if bytes.len() <= 200000 {
            preview_text(lossy(bytes), false)
        } else {
            preview_text(lossy(bytes.take(200000)), true)
        },
{
}

/// The lines of a preview are those of the text, each behind a plus; an empty text
/// and a text that goes on are noted.
pub proof fn previews_add_every_line(content: Seq<char>, lines: Seq<Seq<char>>, more: Seq<char>)
    ensures
        added_lines(seq![]).len() == 0,
        added_lines(lines.push(more)) == added_lines(lines) + (seq!['+'] + more + seq!['\n']),
        preview_text(content, true) == added_lines(line_list(content)) + "... (truncated)\n"@,
        line_list(content).len() > 0 ==> preview_text(content, false) == added_lines(
            line_list(content),
        ),
        line_list(content).len() == 0 ==> preview_text(content, false) == "(empty file)\n"@,
{
    assert(lines.push(more).drop_last() =~= lines);
    assert(added_lines(lines.push(more)) =~= added_lines(lines) + (seq!['+'] + more + seq!['\n']));
    let all = line_list(content);
    if all.len() > 0 {
        assert(added_lines(all).len() > 0);
    }
}

// ----- what holds of names and targets -----------------------------------------------------

/// What is on the remote is named by `origin`, in the way of git and in that of jj.
pub proof fn remote_names(name: Seq<char>, branch: Seq<char>)
    ensures
        remote_ref(branch) == "origin"@ + "/"@ + branch,
        remote_bookmark(branch) == branch + "@"@ + "origin"@,
        git_behind_text(name, branch) == name + ".."@ + "origin"@ + "/"@ + branch,
        jj_behind_text(name, branch) == branch + "@"@ + "origin"@ + " ~ ::"@ + name,
        review_text(name, branch) == "origin"@ + "/"@ + name + "..."@ + "origin"@ + "/"@ + branch,
{
}

/// The upstream of a branch is read back from its name on the remote, and a name on
/// any other remote is none: a text without white space around it that has no
/// `origin/` at its start.
pub proof fn upstreams_are_on_the_remote(branch: Seq<char>, other: Seq<char>)
    ensures
        trimmed("origin"@ + "/"@ + branch) == "origin"@ + "/"@ + branch ==> upstream_branch(
            "origin"@ + "/"@ + branch,
        ) == Some(branch),
        trimmed(other) == other && upstream_branch(other) is Some ==> other == "origin"@ + "/"@
            + upstream_branch(other)->0,
        trimmed(other) == other && (forall|b: Seq<char>| other != #[trigger] ("origin"@ + "/"@ + b))
            ==> upstream_branch(other) is None,
{
    let head = "origin"@ + "/"@;
    let s = head + branch;
    assert(s.take(head.len() as int) =~= head);
    assert(s.skip(head.len() as int) =~= branch);
    if upstream_branch(other) is Some && trimmed(other) == other {
        assert(other =~= head + other.skip(head.len() as int)) by {
            assert(other.take(head.len() as int) == head);
            assert(other =~= other.take(head.len() as int) + other.skip(head.len() as int));
        }
        let b = other.skip(head.len() as int);
        assert(other == "origin"@ + "/"@ + b);
    }
}

/// The target of a git commit is the branch; without one, the label tells where the
/// head is.
pub proof fn git_commits_land_on_the_branch(branch: Seq<char>, short: Seq<char>)
    ensures
        git_target_view(Some(branch), short).label == branch,
        git_target_view(Some(branch), short).revision is None,
        git_target_view(None, short).label == "detached HEAD @ "@ + trimmed(short),
        git_target_view(None, short).revision is None,
{
}

/// The bookmark is offered as target `k`, under its own name and with the commit that
/// it points at.
pub open spec fn offered_at(targets: Seq<TargetView>, b: Bookmark, k: int) -> bool {
    0 <= k < targets.len() && targets[k].label == b.name@ && targets[k].revision == Some(b.target@)
}

/// With bookmarks near, those are the targets: each of them, in order, and nothing else.
pub proof fn near_bookmarks_are_the_targets(near: Seq<Bookmark>, all: Seq<Bookmark>)
    requires
        near.len() > 0,
    ensures
        jj_target_views(near, all).len() == near.len(),
        forall|i: int|
            0 <= i < near.len() ==> offered_at(jj_target_views(near, all), #[trigger] near[i], i),
{
}

/// Without near bookmarks every local one is a target, under its own name and with the
/// commit that it points at; one of a remote, which has `@` in its name, is not; and
/// last there is the commit that moves none.
pub proof fn local_bookmarks_are_targets(all: Seq<Bookmark>)
    ensures
        ({
            let targets = jj_target_views(seq![], all);
            &&& targets.len() > 0
            &&& targets.last().label.len() == 0 && targets.last().revision is None
            &&& forall|i: int|
                0 <= i < all.len() && !(#[trigger] all[i]).name@.contains('@') ==> exists|k: int| #[trigger]
                    offered_at(targets, all[i], k)
            &&& forall|k: int|
                0 <= k < targets.len() - 1 ==> !(#[trigger] targets[k]).label.contains('@') && exists|
                    i: int,
                | 0 <= i < all.len() && offered_at(targets, #[trigger] all[i], k)
        }),
{
    let local = local_targets(all);
    let targets = jj_target_views(seq![], all);
    local_targets_facts(all);
    assert(targets == local.push(TargetView { label: seq![], revision: None }));
    assert forall|i: int| 0 <= i < all.len() && !(#[trigger] all[i]).name@.contains('@') implies exists|
        k: int,
    | #[trigger] offered_at(targets, all[i], k) by {
        let k = choose|k: int| #[trigger] offered_at(local, all[i], k);
        assert(offered_at(targets, all[i], k));
    }
    assert forall|k: int| 0 <= k < targets.len() - 1 implies !(#[trigger] targets[k]).label.contains(
        '@',
    ) && exists|i: int| 0 <= i < all.len() && offered_at(targets, #[trigger] all[i], k) by {
        assert(targets[k] == local[k]);
        let i = choose|i: int| 0 <= i < all.len() && offered_at(local, #[trigger] all[i], k);
        assert(offered_at(targets, all[i], k));
    }
}

proof fn local_targets_facts(all: Seq<Bookmark>)
    ensures
        forall|i: int|
            0 <= i < all.len() && !(#[trigger] all[i]).name@.contains('@') ==> exists|k: int| #[trigger]
                offered_at(local_targets(all), all[i], k),
        forall|k: int|
            0 <= k < local_targets(all).len() ==> !(#[trigger] local_targets(all)[k]).label.contains(
                '@',
            ) && exists|i: int| 0 <= i < all.len() && offered_at(local_targets(all), #[trigger] all[i], k),
    decreases all.len(),
{
    if all.len() > 0 {
        let rest = all.drop_last();
        let n = all.len() - 1;
        let before = local_targets(rest);
        let out = local_targets(all);
        local_targets_facts(rest);
        if !all[n].name@.contains('@') {
            assert(offered_at(out, all[n], before.len() as int));
        }
        assert forall|i: int| 0 <= i < all.len() && !(#[trigger] all[i]).name@.contains('@') implies exists|
            k: int,
        | #[trigger] offered_at(out, all[i], k) by {
            if i < n {
                assert(rest[i] == all[i]);
                let k = choose|k: int| #[trigger] offered_at(before, rest[i], k);
                assert(offered_at(out, all[i], k));
            }
        }
        assert forall|k: int| 0 <= k < out.len() implies !(#[trigger] out[k]).label.contains('@')
            && exists|i: int| 0 <= i < all.len() && offered_at(out, #[trigger] all[i], k) by {
            if k < before.len() {
                assert(before[k] == out[k]);
                let i = choose|i: int| 0 <= i < rest.len() && offered_at(before, #[trigger] rest[i], k);
                assert(offered_at(out, all[i], k));
            } else {
                assert(offered_at(out, all[n], k));
            }
        }
    }
}

/// What a push advances: in git the branch, if there is one; in jj the bookmark of the
/// target, if it has one.
pub proof fn pushes_advance_the_branch(branch: Option<Seq<char>>, label: Seq<char>)
    ensures
        pushed_name(BackendKind::Git, branch, label) == branch,
        trimmed(label).len() == 0 ==> pushed_name(BackendKind::Jj, branch, label) is None,
        trimmed(label).len() > 0 ==> pushed_name(BackendKind::Jj, branch, label) == Some(
            trimmed(label),
        ),
{
}

/// A bookmark is on the remote exactly if that is `origin`, and is followed exactly if
/// one there has its name and is tracked.
pub proof fn followed_bookmarks(refs: Seq<BookmarkRef>, name: Seq<char>)
    ensures
        tracks(refs, name) <==> exists|i: int|
            0 <= i < refs.len() && (#[trigger] refs[i]).name@ == name && refs[i].is_tracked && (
            refs[i].remote matches Some(r) && r@ == "origin"@),
{
    if tracks(refs, name) {
        let i = choose|i: int|
            0 <= i < refs.len() && #[trigger] on_origin(refs[i]) && refs[i].name@ == name
                && refs[i].is_tracked;
        assert(refs[i].name@ == name);
    }
    if exists|i: int|
        0 <= i < refs.len() && (#[trigger] refs[i]).name@ == name && refs[i].is_tracked && (
        refs[i].remote matches Some(r) && r@ == "origin"@) {
        let i = choose|i: int|
            0 <= i < refs.len() && (#[trigger] refs[i]).name@ == name && refs[i].is_tracked && (
            refs[i].remote matches Some(r) && r@ == "origin"@);
        assert(on_origin(refs[i]));
    }
}

/// The conflicted paths are the lines of the list that are not empty.
pub proof fn conflicted_paths_are_the_lines(lines: Seq<Seq<char>>, x: Seq<char>)
    ensures
        filled(lines).contains(x) <==> lines.contains(x) && x.len() > 0,
        (forall|i: int| 0 <= i < lines.len() ==> (#[trigger] lines[i]).len() > 0) ==> filled(lines)
            == lines,
    decreases lines.len(),
{
    let out = filled(lines);
    if lines.len() == 0 {
        assert(out =~= lines);
    } else {
        let rest = lines.drop_last();
        let last = lines.last();
        let before = filled(rest);
        conflicted_paths_are_the_lines(rest, x);
        assert(lines =~= rest.push(last));
        if lines.contains(x) && x != last {
            let k = choose|k: int| 0 <= k < lines.len() && lines[k] == x;
            assert(rest[k] == x);
        }
        if rest.contains(x) {
            let k = choose|k: int| 0 <= k < rest.len() && rest[k] == x;
            assert(lines[k] == x);
        }
        assert(lines[rest.len() as int] == last);
        if last.len() > 0 {
            assert(out == before.push(last));
            assert(out[before.len() as int] == last);
            if before.contains(x) {
                let k = choose|k: int| 0 <= k < before.len() && before[k] == x;
                assert(out[k] == x);
            }
            if out.contains(x) && x != last {
                let k = choose|k: int| 0 <= k < out.len() && out[k] == x;
                assert(before[k] == x);
            }
        }
        if forall|i: int| 0 <= i < lines.len() ==> (#[trigger] lines[i]).len() > 0 {
            assert forall|i: int| 0 <= i < rest.len() implies (#[trigger] rest[i]).len() > 0 by {
                assert(lines[i].len() > 0);
            }
            assert(lines[rest.len() as int].len() > 0);
            assert(out =~= lines);
        }
    }
}

/// The local bookmarks are offered in the order in which they are listed.
pub proof fn local_targets_keep_their_order(all: Seq<Bookmark>)
    requires
        forall|i: int| 0 <= i < all.len() ==> !(#[trigger] all[i]).name@.contains('@'),
    ensures
        jj_target_views(seq![], all).len() == all.len() + 1,
        forall|i: int|
            0 <= i < all.len() ==> offered_at(jj_target_views(seq![], all), #[trigger] all[i], i),
    decreases all.len(),
{
    if all.len() > 0 {
        let rest = all.drop_last();
        assert forall|i: int| 0 <= i < rest.len() implies !(#[trigger] rest[i]).name@.contains('@') by {
            assert(!all[i].name@.contains('@'));
        }
        local_targets_keep_their_order(rest);
        assert(!all[all.len() - 1].name@.contains('@'));
        assert forall|i: int| 0 <= i < all.len() implies offered_at(
            jj_target_views(seq![], all),
            #[trigger] all[i],
            i,
        ) by {
            if i < rest.len() {
                assert(offered_at(jj_target_views(seq![], rest), rest[i], i));
            }
        }
    }
}

} // verus!
