//! Byte-level splitting of a single-file unified diff into its header and its
//! hunks, and reassembly of a subset of the hunks.
//!
//! Everything works on raw bytes: the patch comes from `git diff --output=<file>`
//! and goes back to `git apply`, so line endings and bytes that are not UTF-8
//! must survive untouched. Dropping whole hunks is safe for `git apply`: the
//! header of each kept hunk still matches its body, and a hunk is located by its
//! context lines.

use vstd::prelude::*;

verus! {

/// A hunk starts at `p`: the line that starts there starts with `@@`.
pub open spec fn hunk_start(patch: Seq<u8>, p: int) -> bool {
    &&& 0 <= p
    &&& p + 2 <= patch.len()
    &&& p == 0 || patch[p - 1] == 10u8
    &&& patch[p] == 64u8
    &&& patch[p + 1] == 64u8
}

/// The first hunk start at or after `from`; the end of the patch if there is none.
pub open spec fn next_start(patch: Seq<u8>, from: int) -> int
    decreases patch.len() - from,
{
    if from >= patch.len() {
        patch.len() as int
    } else if hunk_start(patch, from) {
        from
    } else {
        next_start(patch, from + 1)
    }
}

/// Everything before the first hunk.
pub open spec fn header_of(patch: Seq<u8>) -> Seq<u8> {
    patch.take(next_start(patch, 0))
}

/// The hunks from the one that starts at `from` on. Each runs to the next hunk
/// start, or to the end of the patch.
pub open spec fn hunks_from(patch: Seq<u8>, from: int) -> Seq<Seq<u8>>
    decreases patch.len() - from,
{
    let next = next_start(patch, from + 1);
    if 0 <= from < next <= patch.len() {
        seq![patch.subrange(from, next)] + hunks_from(patch, next)
    } else {
        seq![]
    }
}

/// The hunks of the patch, in order.
pub open spec fn hunks_of(patch: Seq<u8>) -> Seq<Seq<u8>> {
    hunks_from(patch, next_start(patch, 0))
}

/// Index `i` is among the selected ones.
pub open spec fn chosen(selected: Seq<usize>, i: int) -> bool {
    exists|j: int| 0 <= j < selected.len() && #[trigger] selected[j] == i
}

/// Those of the first `n` hunks whose index is selected, in order.
pub open spec fn kept(hunks: Seq<Seq<u8>>, selected: Seq<usize>, n: int) -> Seq<Seq<u8>>
    decreases n,
{
    if n <= 0 {
        seq![]
    } else if chosen(selected, n - 1) {
        kept(hunks, selected, n - 1).push(hunks[n - 1])
    } else {
        kept(hunks, selected, n - 1)
    }
}

/// The byte strings one after the other.
pub open spec fn run_together(parts: Seq<Seq<u8>>) -> Seq<u8>
    decreases parts.len(),
{
    if parts.len() == 0 {
        seq![]
    } else {
        run_together(parts.drop_last()) + parts.last()
    }
}

/// The header followed by the selected hunks.
pub open spec fn assembled(header: Seq<u8>, hunks: Seq<Seq<u8>>, selected: Seq<usize>) -> Seq<u8> {
    header + run_together(kept(hunks, selected, hunks.len() as int))
}

/// The vectors as byte sequences.
pub open spec fn byte_lists(v: Seq<Vec<u8>>) -> Seq<Seq<u8>> {
    v.map_values(|b: Vec<u8>| b@)
}

/// A copy of the bytes.
fn copied(bytes: &[u8]) -> (r: Vec<u8>)
    ensures
        r@ == bytes@,
{
    let mut out: Vec<u8> = Vec::new();
    push_bytes(&mut out, bytes);
    proof {
        assert(out@ =~= bytes@);
    }
    out
}

/// Append `more` to `out`.
fn push_bytes(out: &mut Vec<u8>, more: &[u8])
    ensures
        final(out)@ == old(out)@ + more@,
{
    let ghost before = out@;
    let mut i: usize = 0;
    while i < more.len()
        invariant
            i <= more@.len(),
            out@ == before + more@.take(i as int),
        decreases more@.len() - i,
    {
        out.push(more[i]);
        proof {
            assert(out@ =~= before + more@.take(i + 1));
        }
        i = i + 1;
    }
    proof {
        assert(more@.take(i as int) =~= more@);
    }
}

/// The first hunk start at or after `from`; the end of the patch if there is none.
fn find_start(patch: &[u8], from: usize) -> (r: usize)
    requires
        from <= patch@.len(),
    ensures
        r == next_start(patch@, from as int),
        from <= r <= patch@.len(),
{
    let mut p: usize = from;
    while p < patch.len()
        invariant
            from <= p <= patch@.len(),
            next_start(patch@, from as int) == next_start(patch@, p as int),
        decreases patch@.len() - p,
    {
        if (p == 0 || patch[p - 1] == 10) && patch.len() - p >= 2 && patch[p] == 64 && patch[p + 1]
            == 64 {
            return p;
        }
        p = p + 1;
    }
    p
}

/// Split a single-file patch into its header and its hunks. The header is
/// everything up to the first line that starts with `@@`; each hunk runs from
/// its `@@` line to the next one, or to the end.
pub fn split(patch: &[u8]) -> (r: (Vec<u8>, Vec<Vec<u8>>))
    ensures
        r.0@ == header_of(patch@),
        byte_lists(r.1@) == hunks_of(patch@),
{
    let first = find_start(patch, 0);
    let header = copied(&patch[0..first]);
    let mut hunks: Vec<Vec<u8>> = Vec::new();
    let mut from: usize = first;
    proof {
        assert(header@ =~= header_of(patch@));
        assert(byte_lists(hunks@) =~= seq![]);
    }
    while from < patch.len()
        invariant
            from <= patch@.len(),
            hunks_of(patch@) == byte_lists(hunks@) + hunks_from(patch@, from as int),
        decreases patch@.len() - from,
    {
        let ghost before = hunks@;
        let next = find_start(patch, from + 1);
        hunks.push(copied(&patch[from..next]));
        proof {
            let part = patch@.subrange(from as int, next as int);
            assert(byte_lists(hunks@) =~= byte_lists(before) + seq![part]);
            assert(hunks_of(patch@) =~= byte_lists(hunks@) + hunks_from(patch@, next as int));
        }
        from = next;
    }
    proof {
        assert(hunks_from(patch@, from as int) =~= seq![]);
        assert(hunks_of(patch@) =~= byte_lists(hunks@));
    }
    (header, hunks)
}

/// Whether `i` is among the selected indices.
fn picks(selected: &[usize], i: usize) -> (r: bool)
    ensures
        r == chosen(selected@, i as int),
{
    let mut k: usize = 0;
    while k < selected.len()
        invariant
            k <= selected@.len(),
            forall|j: int| 0 <= j < k ==> selected@[j] != i,
        decreases selected@.len() - k,
    {
        if selected[k] == i {
            proof {
                assert(selected@[k as int] == i);
            }
            return true;
        }
        k = k + 1;
    }
    false
}

/// The header and the hunks whose index is in `selected`. The order is that of
/// the hunks; an index with no hunk is ignored.
pub fn assemble(header: &[u8], hunks: &[Vec<u8>], selected: &[usize]) -> (r: Vec<u8>)
    ensures
        r@ == assembled(header@, byte_lists(hunks@), selected@),
{
    let mut out = copied(header);
    let mut i: usize = 0;
    let ghost all = byte_lists(hunks@);
    proof {
        assert(out@ =~= header@ + run_together(kept(all, selected@, 0)));
    }
    while i < hunks.len()
        invariant
            i <= hunks@.len(),
            all == byte_lists(hunks@),
            out@ == header@ + run_together(kept(all, selected@, i as int)),
        decreases hunks@.len() - i,
    {
        if picks(selected, i) {
            let ghost before = out@;
            push_bytes(&mut out, &hunks[i]);
            proof {
                let k0 = kept(all, selected@, i as int);
                let k1 = kept(all, selected@, i + 1);
                assert(k1.drop_last() =~= k0);
                assert(k1.last() == all[i as int]);
                assert(out@ =~= header@ + run_together(k1));
            }
        }
        i = i + 1;
    }
    out
}

// ----- laws --------------------------------------------------------------------

/// The next start, told by what stands before it.
proof fn next_start_is(patch: Seq<u8>, from: int, k: int)
    requires
        0 <= from <= k <= patch.len(),
        forall|j: int| from <= j < k ==> !hunk_start(patch, j),
        k < patch.len() ==> hunk_start(patch, k),
    ensures
        next_start(patch, from) == k,
    decreases k - from,
{
    if from < k {
        next_start_is(patch, from + 1, k);
    }
}

/// What stands at and before the next start.
proof fn next_start_facts(patch: Seq<u8>, from: int)
    requires
        0 <= from <= patch.len(),
    ensures
        from <= next_start(patch, from) <= patch.len(),
        forall|j: int| from <= j < next_start(patch, from) ==> !hunk_start(patch, j),
        next_start(patch, from) < patch.len() ==> hunk_start(patch, next_start(patch, from)),
    decreases patch.len() - from,
{
    if from < patch.len() && !hunk_start(patch, from) {
        next_start_facts(patch, from + 1);
    }
}

/// Running a longer list together, from its first part on.
proof fn run_together_front(first: Seq<u8>, rest: Seq<Seq<u8>>)
    ensures
        run_together(seq![first] + rest) == first + run_together(rest),
    decreases rest.len(),
{
    let all = seq![first] + rest;
    if rest.len() == 0 {
        assert(all.drop_last().len() == 0);
        assert(run_together(all.drop_last()) =~= seq![]);
        assert(all.last() == first);
        assert(run_together(all) =~= first);
        assert(first + run_together(rest) =~= first);
    } else {
        assert(all.drop_last() =~= seq![first] + rest.drop_last());
        run_together_front(first, rest.drop_last());
        assert(run_together(all) =~= first + run_together(rest));
    }
}

/// The hunks from a start on are the rest of the patch.
proof fn hunks_from_cover(patch: Seq<u8>, from: int)
    requires
        0 <= from <= patch.len(),
    ensures
        run_together(hunks_from(patch, from)) == patch.skip(from),
    decreases patch.len() - from,
{
    if from < patch.len() {
        next_start_facts(patch, from + 1);
        let next = next_start(patch, from + 1);
        hunks_from_cover(patch, next);
        run_together_front(patch.subrange(from, next), hunks_from(patch, next));
        assert(patch.subrange(from, next) + patch.skip(next) =~= patch.skip(from));
    } else {
        assert(hunks_from(patch, from) =~= seq![]);
        assert(patch.skip(from) =~= seq![]);
    }
}

/// Splitting loses nothing: the header and the hunks, one after the other, are
/// the patch byte for byte.
pub proof fn split_loses_nothing(patch: Seq<u8>)
    ensures
        header_of(patch) + run_together(hunks_of(patch)) == patch,
{
    next_start_facts(patch, 0);
    let first = next_start(patch, 0);
    hunks_from_cover(patch, first);
    assert(patch.take(first) + patch.skip(first) =~= patch);
}

/// With every index chosen all hunks are kept.
proof fn kept_all(hunks: Seq<Seq<u8>>, selected: Seq<usize>, n: int)
    requires
        0 <= n <= hunks.len(),
        forall|i: int| 0 <= i < n ==> #[trigger] chosen(selected, i),
    ensures
        kept(hunks, selected, n) == hunks.take(n),
    decreases n,
{
    if n > 0 {
        assert(chosen(selected, n - 1));
        kept_all(hunks, selected, n - 1);
        assert(hunks.take(n) =~= hunks.take(n - 1).push(hunks[n - 1]));
    }
}

/// A patch reassembled with all of its hunks is the patch, byte for byte.
pub proof fn full_selection_is_identity(patch: Seq<u8>, selected: Seq<usize>)
    requires
        forall|i: int| 0 <= i < hunks_of(patch).len() ==> #[trigger] chosen(selected, i),
    ensures
        assembled(header_of(patch), hunks_of(patch), selected) == patch,
{
    let hunks = hunks_of(patch);
    kept_all(hunks, selected, hunks.len() as int);
    assert(hunks.take(hunks.len() as int) =~= hunks);
    split_loses_nothing(patch);
}

proof fn kept_by_membership(hunks: Seq<Seq<u8>>, a: Seq<usize>, b: Seq<usize>, n: int)
    requires
        forall|i: int| 0 <= i < n ==> chosen(a, i) == chosen(b, i),
    ensures
        kept(hunks, a, n) == kept(hunks, b, n),
    decreases n,
{
    if n > 0 {
        kept_by_membership(hunks, a, b, n - 1);
    }
}

/// Only which hunks are selected matters: not the order of the indices, not
/// their repetition, and not indices that belong to no hunk.
pub proof fn selection_is_a_set(header: Seq<u8>, hunks: Seq<Seq<u8>>, a: Seq<usize>, b: Seq<usize>)
    requires
        forall|i: int| 0 <= i < hunks.len() ==> chosen(a, i) == chosen(b, i),
    ensures
        assembled(header, hunks, a) == assembled(header, hunks, b),
{
    kept_by_membership(hunks, a, b, hunks.len() as int);
}

/// `h` is one hunk: it starts with a hunk line and holds no other.
pub open spec fn one_hunk(h: Seq<u8>) -> bool {
    &&& hunk_start(h, 0)
    &&& forall|j: int| 0 < j ==> !hunk_start(h, j)
}

/// `h` ends with a newline.
pub open spec fn ends_line(h: Seq<u8>) -> bool {
    h.len() > 0 && h.last() == 10u8
}

proof fn hunks_from_are_hunks(patch: Seq<u8>, from: int)
    requires
        0 <= from <= patch.len(),
        from < patch.len() ==> hunk_start(patch, from),
    ensures
        forall|i: int| 0 <= i < hunks_from(patch, from).len() ==> one_hunk(#[trigger] hunks_from(patch, from)[i]),
        forall|i: int| 0 <= i < hunks_from(patch, from).len() - 1 ==> ends_line(#[trigger] hunks_from(patch, from)[i]),
    decreases patch.len() - from,
{
    if from < patch.len() {
        next_start_facts(patch, from + 1);
        let next = next_start(patch, from + 1);
        hunks_from_are_hunks(patch, next);
        let h = patch.subrange(from, next);
        let rest = hunks_from(patch, next);
        if next < patch.len() {
            assert(patch[next - 1] == 10u8);
            assert(next >= from + 2);
            assert(h.last() == 10u8);
        } else {
            assert(rest =~= seq![]);
        }
        assert(hunk_start(h, 0));
        assert forall|j: int| 0 < j implies !hunk_start(h, j) by {
            if hunk_start(h, j) {
                assert(hunk_start(patch, from + j));
            }
        }
        let all = hunks_from(patch, from);
        assert(all =~= seq![h] + rest);
        assert forall|i: int| 0 <= i < all.len() implies one_hunk(#[trigger] all[i]) by {
            if i > 0 {
                assert(all[i] == rest[i - 1]);
            }
        }
        assert forall|i: int| 0 <= i < all.len() - 1 implies ends_line(#[trigger] all[i]) by {
            if i > 0 {
                assert(all[i] == rest[i - 1]);
            } else if next >= patch.len() {
                assert(rest =~= seq![]);
            }
        }
    }
}

/// The parts of a split patch: no hunk starts in the header, each hunk is one
/// hunk, and whatever is followed by a hunk ends its line.
pub proof fn split_parts(patch: Seq<u8>)
    ensures
        forall|j: int| !hunk_start(header_of(patch), j),
        hunks_of(patch).len() > 0 ==> header_of(patch).len() == 0 || ends_line(header_of(patch)),
        forall|i: int| 0 <= i < hunks_of(patch).len() ==> one_hunk(#[trigger] hunks_of(patch)[i]),
        forall|i: int| 0 <= i < hunks_of(patch).len() - 1 ==> ends_line(#[trigger] hunks_of(patch)[i]),
{
    next_start_facts(patch, 0);
    let first = next_start(patch, 0);
    let header = header_of(patch);
    assert forall|j: int| !hunk_start(header, j) by {
        if hunk_start(header, j) {
            assert(hunk_start(patch, j));
        }
    }
    hunks_from_are_hunks(patch, first);
    if first >= patch.len() {
        assert(hunks_of(patch) =~= seq![]);
    } else if first > 0 {
        assert(header.last() == patch[first - 1]);
    }
}

proof fn run_together_skip(parts: Seq<Seq<u8>>, i: int)
    requires
        0 <= i < parts.len(),
    ensures
        run_together(parts.skip(i)) == parts[i] + run_together(parts.skip(i + 1)),
{
    run_together_front(parts[i], parts.skip(i + 1));
    assert(seq![parts[i]] + parts.skip(i + 1) =~= parts.skip(i));
}

/// Splitting what was put together from hunk `i` on, where `done` bytes stand
/// before it.
proof fn split_tail(q: Seq<u8>, done: int, parts: Seq<Seq<u8>>, i: int)
    requires
        0 <= i <= parts.len(),
        0 <= done <= q.len(),
        q.skip(done) == run_together(parts.skip(i)),
        i < parts.len() ==> done == 0 || q[done - 1] == 10u8,
        forall|k: int| 0 <= k < parts.len() ==> one_hunk(#[trigger] parts[k]),
        forall|k: int| 0 <= k < parts.len() - 1 ==> ends_line(#[trigger] parts[k]),
    ensures
        i < parts.len() ==> hunk_start(q, done),
        hunks_from(q, done) == parts.skip(i),
    decreases parts.len() - i,
{
    if i < parts.len() {
        run_together_skip(parts, i);
        let h = parts[i];
        let tail = run_together(parts.skip(i + 1));
        let next = done + h.len();
        assert(one_hunk(h));
        assert(q.skip(done) == h + tail);
        assert(next + tail.len() == q.len());
        assert forall|k: int| 0 <= k < h.len() implies q[done + k] == h[k] by {
            assert(q.skip(done)[k] == q[done + k]);
        }
        assert(q.skip(next) =~= tail) by {
            assert forall|k: int| 0 <= k < tail.len() implies q[next + k] == tail[k] by {
                assert(q.skip(done)[h.len() + k] == (h + tail)[h.len() + k]);
            }
        }
        assert(hunk_start(q, done));
        if i + 1 < parts.len() {
            assert(ends_line(h));
            assert(q[next - 1] == h[h.len() - 1]);
        } else {
            assert(parts.skip(i + 1) =~= seq![]);
            assert(tail.len() == 0);
        }
        split_tail(q, next, parts, i + 1);
        assert forall|j: int| done + 1 <= j < next implies !hunk_start(q, j) by {
            if hunk_start(q, j) {
                let k = j - done;
                assert(q[j] == h[k]);
                if k + 2 <= h.len() {
                    assert(q[j - 1] == h[k - 1]);
                    assert(q[j + 1] == h[k + 1]);
                    assert(hunk_start(h, k));
                }
            }
        }
        next_start_is(q, done + 1, next);
        assert(q.subrange(done, next) =~= h);
        assert(hunks_from(q, done) =~= seq![h] + parts.skip(i + 1));
        assert(seq![h] + parts.skip(i + 1) =~= parts.skip(i));
    } else {
        assert(parts.skip(i) =~= seq![]);
        assert(q.skip(done).len() == 0);
        assert(hunks_from(q, done) =~= seq![]);
    }
}

proof fn kept_are_hunks(hunks: Seq<Seq<u8>>, selected: Seq<usize>, n: int)
    requires
        0 <= n <= hunks.len(),
        forall|k: int| 0 <= k < hunks.len() ==> one_hunk(#[trigger] hunks[k]),
        forall|k: int| 0 <= k < hunks.len() - 1 ==> ends_line(#[trigger] hunks[k]),
    ensures
        kept(hunks, selected, n).len() <= n,
        forall|k: int| 0 <= k < kept(hunks, selected, n).len() ==> one_hunk(#[trigger] kept(hunks, selected, n)[k]),
        forall|k: int| 0 <= k < kept(hunks, selected, n).len() && (n < hunks.len() || k < kept(hunks, selected, n).len() - 1)
            ==> ends_line(#[trigger] kept(hunks, selected, n)[k]),
    decreases n,
{
    if n > 0 {
        kept_are_hunks(hunks, selected, n - 1);
        assert(one_hunk(hunks[n - 1]));
        if n < hunks.len() {
            assert(ends_line(hunks[n - 1]));
        }
    }
}

/// A reassembled patch splits back into the same header and exactly the hunks
/// that were selected: each kept hunk still stands under its own hunk line.
pub proof fn subset_splits_back(patch: Seq<u8>, selected: Seq<usize>)
    ensures
        ({
            let hunks = hunks_of(patch);
            let part = assembled(header_of(patch), hunks, selected);
            &&& header_of(part) == header_of(patch)
            &&& hunks_of(part) == kept(hunks, selected, hunks.len() as int)
        }),
{
    split_parts(patch);
    let header = header_of(patch);
    let hunks = hunks_of(patch);
    let parts = kept(hunks, selected, hunks.len() as int);
    let q = assembled(header, hunks, selected);
    kept_are_hunks(hunks, selected, hunks.len() as int);
    let done = header.len() as int;
    assert(parts.skip(0) =~= parts);
    assert(q.skip(done) =~= run_together(parts));
    if parts.len() > 0 && done > 0 {
        assert(ends_line(header));
        assert(q[done - 1] == header.last());
    }
    split_tail(q, done, parts, 0);
    assert forall|j: int| 0 <= j < done implies !hunk_start(q, j) by {
        if hunk_start(q, j) {
            assert(q[j] == header[j]);
            if j + 2 <= done {
                assert(q[j + 1] == header[j + 1]);
                assert(j == 0 || q[j - 1] == header[j - 1]);
                assert(hunk_start(header, j));
            } else if parts.len() > 0 {
                assert(header[j] == 10u8);
            } else {
                assert(q.len() == done);
            }
        }
    }
    if parts.len() == 0 {
        assert(run_together(parts) =~= seq![]);
    } else {
        assert(hunk_start(q, done));
    }
    next_start_is(q, 0, done);
    assert(q.take(done) =~= header);
}

/// The hunks that are kept are exactly those whose index is selected, in the order of
/// the patch: `at` tells where each comes from.
pub proof fn exactly_the_selected_are_kept(hunks: Seq<Seq<u8>>, selected: Seq<usize>, n: int) -> (at: Seq<int>)
    requires
        0 <= n <= hunks.len(),
    ensures
        at.len() == kept(hunks, selected, n).len(),
        forall|k: int|
            0 <= k < at.len() ==> 0 <= #[trigger] at[k] < n && kept(hunks, selected, n)[k] == hunks[at[k]]
                && exists|j: int| 0 <= j < selected.len() && #[trigger] selected[j] == at[k],
        forall|j: int, k: int| 0 <= j < k < at.len() ==> #[trigger] at[j] < #[trigger] at[k],
        forall|j: int|
            0 <= j < selected.len() && (#[trigger] selected[j]) < n ==> at.contains(selected[j] as int),
    decreases n,
{
    if n == 0 {
        seq![]
    } else {
        let before = exactly_the_selected_are_kept(hunks, selected, n - 1);
        let out = kept(hunks, selected, n);
        let short = kept(hunks, selected, n - 1);
        let at = if chosen(selected, n - 1) {
            before.push(n - 1)
        } else {
            before
        };
        assert forall|k: int| 0 <= k < at.len() implies 0 <= #[trigger] at[k] < n && out[k] == hunks[at[k]]
            && exists|j: int| 0 <= j < selected.len() && #[trigger] selected[j] == at[k] by {
            if k < before.len() {
                assert(at[k] == before[k]);
                assert(out[k] == short[k]);
            }
        }
        assert forall|j: int, k: int| 0 <= j < k < at.len() implies #[trigger] at[j] < #[trigger] at[k] by {
            assert(at[j] == before[j]);
            if k < before.len() {
                assert(at[k] == before[k]);
            }
        }
        assert forall|j: int| 0 <= j < selected.len() && (#[trigger] selected[j]) < n implies at.contains(
            selected[j] as int,
        ) by {
            let x = selected[j] as int;
            if x < n - 1 {
                let k = choose|k: int| 0 <= k < before.len() && before[k] == x;
                assert(at[k] == x);
            } else {
                assert(chosen(selected, n - 1));
                assert(at[before.len() as int] == x);
            }
        }
        at
    }
}

/// A hunk begins with a line that starts with `@@`, and everything before the first such
/// line is the header: without one, the whole patch.
pub proof fn hunks_begin_at_their_lines(patch: Seq<u8>, p: int)
    ensures
        hunk_start(patch, p) <==> 0 <= p && p + 2 <= patch.len() && patch[p] == 64 && patch[p + 1]
            == 64 && (p == 0 || patch[p - 1] == 10),
        hunks_of(patch).len() == 0 <==> header_of(patch) == patch,
        hunk_start(patch, p) ==> hunks_of(patch).len() > 0 && header_of(patch).len() <= p,
{
    next_start_facts(patch, 0);
    let first = next_start(patch, 0);
    if first < patch.len() {
        next_start_facts(patch, first + 1);
        assert(hunks_from(patch, first).len() > 0);
        assert(header_of(patch).len() < patch.len());
    } else {
        assert(header_of(patch) =~= patch);
        assert(hunks_from(patch, first).len() == 0);
    }
}

} // verus!
