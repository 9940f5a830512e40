//! Text as sequences of characters: the white space, line, piece and digit
//! rules that the rest of the crate states its results in.
//!
//! A string is read into its characters once ([`chars`]), worked on as a slice,
//! and written back with [`text`].

use vstd::prelude::*;

verus! {

/// `String::push`: the string gains the character at its end.
pub assume_specification[ String::push ](s: &mut String, c: char)
    ensures
        final(s)@ == old(s)@.push(c),
;

// ----- what the words mean ---------------------------------------------------

/// The characters with the Unicode property `White_Space`.
pub open spec fn is_space(c: char) -> bool {
    let n = c as u32;
    ||| 0x09 <= n <= 0x0d
    ||| n == 0x20
    ||| n == 0x85
    ||| n == 0xa0
    ||| n == 0x1680
    ||| 0x2000 <= n <= 0x200a
    ||| n == 0x2028
    ||| n == 0x2029
    ||| n == 0x202f
    ||| n == 0x205f
    ||| n == 0x3000
}

/// `s` without its leading white space.
pub open spec fn start_trimmed(s: Seq<char>) -> Seq<char>
    decreases s.len(),
{
    if s.len() > 0 && is_space(s[0]) {
        start_trimmed(s.drop_first())
    } else {
        s
    }
}

/// `s` without its trailing white space.
pub open spec fn end_trimmed(s: Seq<char>) -> Seq<char>
    decreases s.len(),
{
    if s.len() > 0 && is_space(s.last()) {
        end_trimmed(s.drop_last())
    } else {
        s
    }
}

/// `s` without the white space around it.
pub open spec fn trimmed(s: Seq<char>) -> Seq<char> {
    end_trimmed(start_trimmed(s))
}

/// The lower case of an ASCII letter; every other character is its own.
pub open spec fn lower_char(c: char) -> char {
    if 'A' <= c <= 'Z' {
        ((c as u32) + 32) as char
    } else {
        c
    }
}

/// `s` with its ASCII letters in lower case.
pub open spec fn lowered(s: Seq<char>) -> Seq<char> {
    s.map_values(|c: char| lower_char(c))
}

/// Where `c` first occurs in `s`; the length of `s` if it does not.
pub open spec fn position(s: Seq<char>, c: char) -> int
    decreases s.len(),
{
    if s.len() == 0 || s[0] == c {
        0
    } else {
        1 + position(s.drop_first(), c)
    }
}

/// The pieces of `s` between the occurrences of `c`: one more than there are
/// occurrences.
pub open spec fn pieces(s: Seq<char>, c: char) -> Seq<Seq<char>>
    decreases s.len(),
{
    let k = position(s, c);
    if 0 <= k < s.len() {
        seq![s.take(k)] + pieces(s.skip(k + 1), c)
    } else {
        seq![s]
    }
}

/// `line` without one carriage return at its end.
pub open spec fn chomped(line: Seq<char>) -> Seq<char> {
    if line.len() > 0 && line.last() == '\r' {
        line.drop_last()
    } else {
        line
    }
}

/// The lines of `s`. A line ends at a newline, with a carriage return before it
/// belonging to the line ending; a last line need not be terminated.
pub open spec fn line_list(s: Seq<char>) -> Seq<Seq<char>>
    decreases s.len(),
{
    let k = position(s, '\n');
    if s.len() == 0 {
        seq![]
    } else if 0 <= k < s.len() {
        seq![chomped(s.take(k))] + line_list(s.skip(k + 1))
    } else {
        seq![s]
    }
}

/// The parts one after the other, with `sep` between neighbours.
pub open spec fn joined(parts: Seq<Seq<char>>, sep: Seq<char>) -> Seq<char>
    decreases parts.len(),
{
    if parts.len() == 0 {
        seq![]
    } else if parts.len() == 1 {
        parts[0]
    } else {
        joined(parts.drop_last(), sep) + sep + parts.last()
    }
}

/// `needle` stands at offset `at` of `hay`.
pub open spec fn stands_at(hay: Seq<char>, needle: Seq<char>, at: int) -> bool {
    &&& 0 <= at
    &&& at + needle.len() <= hay.len()
    &&& hay.subrange(at, at + needle.len()) == needle
}

/// `needle` stands somewhere in `hay`.
pub open spec fn has_text(hay: Seq<char>, needle: Seq<char>) -> bool {
    exists|at: int| stands_at(hay, needle, at)
}

/// `s` starts with `head`.
pub open spec fn has_prefix(s: Seq<char>, head: Seq<char>) -> bool {
    s.len() >= head.len() && s.take(head.len() as int) == head
}

/// The maximal runs of `s` without white space.
pub open spec fn word_list(s: Seq<char>) -> Seq<Seq<char>>
    decreases s.len(),
{
    let t = start_trimmed(s);
    let k = word_len(t);
    if 0 < k <= t.len() <= s.len() {
        seq![t.take(k)] + word_list(t.skip(k))
    } else {
        seq![]
    }
}

/// How many characters stand in `s` before its first white space.
pub open spec fn word_len(s: Seq<char>) -> int
    decreases s.len(),
{
    if s.len() == 0 || is_space(s[0]) {
        0
    } else {
        1 + word_len(s.drop_first())
    }
}

/// The decimal digit `d`.
pub open spec fn digit(d: nat) -> char {
    (48 + d) as char
}

/// `n` in decimal, without leading zeros.
pub open spec fn decimal_of(n: nat) -> Seq<char>
    decreases n,
{
    if n < 10 {
        seq![digit(n)]
    } else {
        decimal_of(n / 10).push(digit(n % 10))
    }
}

/// `a` does not come after `b` in the order of their characters.
pub open spec fn text_le(a: Seq<char>, b: Seq<char>) -> bool
    decreases a.len(),
{
    if a.len() == 0 {
        true
    } else if b.len() == 0 {
        false
    } else if a[0] == b[0] {
        text_le(a.drop_first(), b.drop_first())
    } else {
        a[0] < b[0]
    }
}

/// The strings as sequences of characters.
pub open spec fn texts(v: Seq<String>) -> Seq<Seq<char>> {
    v.map_values(|s: String| s@)
}

/// The slices as sequences of characters.
pub open spec fn slices(v: Seq<&[char]>) -> Seq<Seq<char>> {
    v.map_values(|s: &[char]| s@)
}

// ----- reading and writing -----------------------------------------------------

/// The characters of `s`.
pub fn chars(s: &str) -> (r: Vec<char>)
    ensures
        r@ == s@,
{
    let mut out: Vec<char> = Vec::new();
    for c in it: s.chars()
        invariant
            out@ == s@.take(it.index()),
            it.seq() == s@,
    {
        out.push(c);
    }
    out
}

/// The string of the given characters.
pub fn text(s: &[char]) -> (r: String)
    ensures
        r@ == s@,
{
    let mut out = String::new();
    let mut i: usize = 0;
    while i < s.len()
        invariant
            i <= s@.len(),
            out@ == s@.take(i as int),
        decreases s@.len() - i,
    {
        out.push(s[i]);
        i = i + 1;
    }
    out
}

/// Whether the two slices hold the same characters.
pub fn same_chars(a: &[char], b: &[char]) -> (r: bool)
    ensures
        r == (a@ == b@),
{
    if a.len() != b.len() {
        return false;
    }
    let mut i: usize = 0;
    while i < a.len()
        invariant
            i <= a@.len(),
            a@.len() == b@.len(),
            forall|j: int| 0 <= j < i ==> a@[j] == b@[j],
        decreases a@.len() - i,
    {
        if a[i] != b[i] {
            return false;
        }
        i = i + 1;
    }
    assert(a@ =~= b@);
    true
}

/// Whether the two strings hold the same characters.
pub fn same(a: &str, b: &str) -> (r: bool)
    ensures
        r == (a@ == b@),
{
    same_chars(&chars(a), &chars(b))
}

/// Owned copies of the strings, in order.
pub fn owned(parts: &[&str]) -> (r: Vec<String>)
    ensures
        texts(r@) == parts@.map_values(|s: &str| s@),
{
    let mut out: Vec<String> = Vec::new();
    let mut i: usize = 0;
    while i < parts.len()
        invariant
            i <= parts@.len(),
            texts(out@) == parts@.take(i as int).map_values(|s: &str| s@),
        decreases parts@.len() - i,
    {
        let ghost before = out@;
        out.push(parts[i].to_string());
        proof {
            assert(texts(out@) =~= texts(before).push(parts@[i as int]@));
            assert(parts@.take(i + 1) =~= parts@.take(i as int).push(parts@[i as int]));
        }
        i = i + 1;
    }
    proof {
        assert(parts@.take(i as int) =~= parts@);
    }
    out
}

// ----- white space and case ------------------------------------------------------

/// Whether `c` has the Unicode property `White_Space`.
pub fn white_space(c: char) -> (r: bool)
    ensures
        r == is_space(c),
{
    let n: u32 = c as u32;
    (0x09 <= n && n <= 0x0d) || n == 0x20 || n == 0x85 || n == 0xa0 || n == 0x1680 || (0x2000 <= n
        && n <= 0x200a) || n == 0x2028 || n == 0x2029 || n == 0x202f || n == 0x205f || n == 0x3000
}

/// `s` without its leading white space.
pub fn trim_start(s: &[char]) -> (r: &[char])
    ensures
        r@ == start_trimmed(s@),
{
    let mut i: usize = 0;
    proof {
        assert(s@.skip(0) =~= s@);
    }
    while i < s.len() && white_space(s[i])
        invariant
            i <= s@.len(),
            start_trimmed(s@) == start_trimmed(s@.skip(i as int)),
        decreases s@.len() - i,
    {
        proof {
            assert(s@.skip(i as int).drop_first() =~= s@.skip(i + 1));
        }
        i = i + 1;
    }
    let r = &s[i..s.len()];
    proof {
        assert(r@ =~= s@.skip(i as int));
    }
    r
}

/// `s` without its trailing white space.
pub fn trim_end(s: &[char]) -> (r: &[char])
    ensures
        r@ == end_trimmed(s@),
{
    let mut n: usize = s.len();
    proof {
        assert(s@.take(n as int) =~= s@);
    }
    while n > 0 && white_space(s[n - 1])
        invariant
            n <= s@.len(),
            end_trimmed(s@) == end_trimmed(s@.take(n as int)),
        decreases n,
    {
        proof {
            assert(s@.take(n as int).drop_last() =~= s@.take(n - 1));
        }
        n = n - 1;
    }
    let r = &s[0..n];
    proof {
        assert(r@ =~= s@.take(n as int));
    }
    r
}

/// `s` without the white space around it.
pub fn trim(s: &[char]) -> (r: &[char])
    ensures
        r@ == trimmed(s@),
{
    trim_end(trim_start(s))
}

/// `s` with its ASCII letters in lower case.
pub fn lower(s: &[char]) -> (r: Vec<char>)
    ensures
        r@ == lowered(s@),
{
    let mut out: Vec<char> = Vec::new();
    let mut i: usize = 0;
    while i < s.len()
        invariant
            i <= s@.len(),
            out@ == lowered(s@.take(i as int)),
        decreases s@.len() - i,
    {
        let c = s[i];
        let d = if 'A' <= c && c <= 'Z' {
            ((c as u8) + 32) as char
        } else {
            c
        };
        out.push(d);
        proof {
            assert(s@.take(i + 1) =~= s@.take(i as int).push(c));
            assert(lowered(s@.take(i + 1)) =~= lowered(s@.take(i as int)).push(lower_char(c)));
        }
        i = i + 1;
    }
    proof {
        assert(s@.take(i as int) =~= s@);
    }
    out
}

// ----- searching and cutting --------------------------------------------------------

/// The first occurrence of `c`, told by what stands before it.
pub proof fn position_is(s: Seq<char>, c: char, k: int)
    requires
        0 <= k <= s.len(),
        forall|j: int| 0 <= j < k ==> s[j] != c,
        k < s.len() ==> s[k] == c,
    ensures
        position(s, c) == k,
    decreases k,
{
    if k > 0 {
        position_is(s.drop_first(), c, k - 1);
    }
}

/// What stands at and before the first occurrence of `c`.
pub proof fn position_facts(s: Seq<char>, c: char)
    ensures
        0 <= position(s, c) <= s.len(),
        forall|j: int| 0 <= j < position(s, c) ==> s[j] != c,
        position(s, c) < s.len() ==> s[position(s, c)] == c,
    decreases s.len(),
{
    if s.len() > 0 && s[0] != c {
        let t = s.drop_first();
        position_facts(t, c);
        assert forall|j: int| 0 <= j < position(s, c) implies s[j] != c by {
            if j > 0 {
                assert(t[j - 1] == s[j]);
            }
        }
    }
}

/// Where `c` first occurs in `s`; the length of `s` if it does not.
pub fn find(s: &[char], c: char) -> (k: usize)
    ensures
        k == position(s@, c),
        k <= s@.len(),
{
    let mut i: usize = 0;
    while i < s.len() && s[i] != c
        invariant
            i <= s@.len(),
            forall|j: int| 0 <= j < i ==> s@[j] != c,
        decreases s@.len() - i,
    {
        i = i + 1;
    }
    proof {
        position_is(s@, c, i as int);
    }
    i
}

/// The pieces of `s` between the occurrences of `c`.
pub fn split(s: &[char], c: char) -> (r: Vec<&[char]>)
    ensures
        slices(r@) == pieces(s@, c),
{
    let mut out: Vec<&[char]> = Vec::new();
    let mut from: usize = 0;
    proof {
        assert(s@.skip(0) =~= s@);
        assert(slices(out@) =~= seq![]);
    }
    loop
        invariant
            from <= s@.len(),
            pieces(s@, c) == slices(out@) + pieces(s@.skip(from as int), c),
        decreases s@.len() - from,
    {
        let ghost before = out@;
        let ghost t = s@.skip(from as int);
        let rest = &s[from..s.len()];
        proof {
            assert(rest@ =~= t);
        }
        let k = find(rest, c);
        if k == rest.len() {
            out.push(rest);
            proof {
                assert(slices(out@) =~= slices(before) + seq![t]);
            }
            return out;
        }
        let piece = &rest[0..k];
        out.push(piece);
        proof {
            assert(piece@ =~= t.take(k as int));
            assert(slices(out@) =~= slices(before) + seq![t.take(k as int)]);
            assert(t.skip(k + 1) =~= s@.skip(from + k + 1));
            assert(pieces(s@, c) =~= slices(out@) + pieces(s@.skip(from + k + 1), c));
        }
        from = from + k + 1;
    }
}

/// `line` without one carriage return at its end.
fn chomp(line: &[char]) -> (r: &[char])
    ensures
        r@ == chomped(line@),
{
    let n = line.len();
    if n > 0 && line[n - 1] == '\r' {
        let r = &line[0..n - 1];
        proof {
            assert(r@ =~= line@.drop_last());
        }
        r
    } else {
        line
    }
}

/// The lines of `s`, without their endings.
pub fn lines(s: &[char]) -> (r: Vec<&[char]>)
    ensures
        slices(r@) == line_list(s@),
{
    let mut out: Vec<&[char]> = Vec::new();
    let mut from: usize = 0;
    proof {
        assert(s@.skip(0) =~= s@);
        assert(slices(out@) =~= seq![]);
    }
    while from < s.len()
        invariant
            from <= s@.len(),
            line_list(s@) == slices(out@) + line_list(s@.skip(from as int)),
        decreases s@.len() - from,
    {
        let ghost before = out@;
        let ghost t = s@.skip(from as int);
        let rest = &s[from..s.len()];
        proof {
            assert(rest@ =~= t);
        }
        let k = find(rest, '\n');
        if k == rest.len() {
            out.push(rest);
            proof {
                assert(slices(out@) =~= slices(before) + seq![t]);
            }
            return out;
        }
        let line = chomp(&rest[0..k]);
        out.push(line);
        proof {
            assert(rest@.subrange(0, k as int) =~= t.take(k as int));
            assert(slices(out@) =~= slices(before) + seq![chomped(t.take(k as int))]);
            assert(t.skip(k + 1) =~= s@.skip(from + k + 1));
            assert(line_list(s@) =~= slices(out@) + line_list(s@.skip(from + k + 1)));
        }
        from = from + k + 1;
    }
    proof {
        assert(s@.skip(from as int) =~= seq![]);
    }
    out
}

/// The runs of `s` without white space.
pub fn words(s: &[char]) -> (r: Vec<&[char]>)
    ensures
        slices(r@) == word_list(s@),
{
    let mut out: Vec<&[char]> = Vec::new();
    let mut rest: &[char] = s;
    proof {
        assert(slices(out@) =~= seq![]);
    }
    loop
        invariant
            word_list(s@) == slices(out@) + word_list(rest@),
        decreases rest@.len(),
    {
        let ghost before = out@;
        let ghost whole = rest@;
        let t = trim_start(rest);
        proof {
            start_trimmed_len(rest@);
        }
        let mut k: usize = 0;
        proof {
            assert(t@.skip(0) =~= t@);
        }
        while k < t.len() && !white_space(t[k])
            invariant
                k <= t@.len(),
                word_len(t@) == k + word_len(t@.skip(k as int)),
            decreases t@.len() - k,
        {
            proof {
                assert(t@.skip(k as int).drop_first() =~= t@.skip(k + 1));
            }
            k = k + 1;
        }
        if k == 0 {
            return out;
        }
        let word = &t[0..k];
        out.push(word);
        rest = &t[k..t.len()];
        proof {
            assert(word@ =~= t@.take(k as int));
            assert(rest@ =~= t@.skip(k as int));
            assert(slices(out@) =~= slices(before) + seq![t@.take(k as int)]);
            assert(word_list(s@) =~= slices(out@) + word_list(rest@));
        }
    }
}

/// Trimming does not lengthen.
pub proof fn start_trimmed_len(s: Seq<char>)
    ensures
        start_trimmed(s).len() <= s.len(),
    decreases s.len(),
{
    if s.len() > 0 && is_space(s[0]) {
        start_trimmed_len(s.drop_first());
    }
}

/// Trimming leaves no white space at the end, and does not lengthen.
pub proof fn end_trimmed_facts(s: Seq<char>)
    ensures
        end_trimmed(s).len() <= s.len(),
        end_trimmed(s).len() > 0 ==> !is_space(end_trimmed(s).last()),
    decreases s.len(),
{
    if s.len() > 0 && is_space(s.last()) {
        end_trimmed_facts(s.drop_last());
    }
}

/// Whether `s` starts with `head`.
pub fn starts_with(s: &[char], head: &[char]) -> (r: bool)
    ensures
        r == has_prefix(s@, head@),
{
    if s.len() < head.len() {
        return false;
    }
    let cut = &s[0..head.len()];
    proof {
        assert(cut@ =~= s@.take(head@.len() as int));
    }
    same_chars(cut, head)
}

/// Whether `needle` stands somewhere in `hay`.
pub fn contains(hay: &[char], needle: &[char]) -> (r: bool)
    ensures
        r == has_text(hay@, needle@),
{
    let mut at: usize = 0;
    while at <= hay.len() && needle.len() <= hay.len() - at
        invariant
            at <= hay@.len() + 1,
            forall|j: int| 0 <= j < at ==> !stands_at(hay@, needle@, j),
        decreases hay@.len() + 1 - at,
    {
        if same_chars(&hay[at..at + needle.len()], needle) {
            proof {
                assert(stands_at(hay@, needle@, at as int));
            }
            return true;
        }
        if at == hay.len() {
            return false;
        }
        at = at + 1;
    }
    false
}

/// The parts one after the other, with `sep` between neighbours.
pub fn join(parts: &Vec<&[char]>, sep: char) -> (r: Vec<char>)
    ensures
        r@ == joined(slices(parts@), seq![sep]),
{
    let mut out: Vec<char> = Vec::new();
    let mut i: usize = 0;
    let ghost all = slices(parts@);
    while i < parts.len()
        invariant
            i <= parts@.len(),
            all == slices(parts@),
            out@ == joined(all.take(i as int), seq![sep]),
        decreases parts@.len() - i,
    {
        let ghost before = out@;
        if i > 0 {
            out.push(sep);
        }
        push_all(&mut out, parts[i]);
        proof {
            assert(all.take(i + 1).drop_last() =~= all.take(i as int));
            if i > 0 {
                assert(before + seq![sep] + all[i as int] =~= out@);
            } else {
                assert(out@ =~= all[0]);
            }
        }
        i = i + 1;
    }
    proof {
        assert(all.take(i as int) =~= all);
    }
    out
}

/// Append `more` to `out`.
pub fn push_all(out: &mut Vec<char>, more: &[char])
    ensures
        final(out)@ == old(out)@ + more@,
{
    let ghost before = out@;
    let mut i: usize = 0;
    while i < more.len()
        invariant
            i <= more@.len(),
            out@ == before + more@.take(i as int),
        decreases more@.len() - i,
    {
        out.push(more[i]);
        proof {
            assert(out@ =~= before + more@.take(i + 1));
        }
        i = i + 1;
    }
    proof {
        assert(more@.take(i as int) =~= more@);
    }
}

// ----- order ---------------------------------------------------------------------------

/// Whether `a` does not come after `b`.
pub fn not_after(a: &[char], b: &[char]) -> (r: bool)
    ensures
        r == text_le(a@, b@),
{
    let mut i: usize = 0;
    proof {
        assert(a@.skip(0) =~= a@);
        assert(b@.skip(0) =~= b@);
    }
    while i < a.len() && i < b.len()
        invariant
            i <= a@.len(),
            i <= b@.len(),
            text_le(a@, b@) == text_le(a@.skip(i as int), b@.skip(i as int)),
        decreases a@.len() - i,
    {
        if a[i] != b[i] {
            return a[i] < b[i];
        }
        proof {
            assert(a@.skip(i as int).drop_first() =~= a@.skip(i + 1));
            assert(b@.skip(i as int).drop_first() =~= b@.skip(i + 1));
        }
        i = i + 1;
    }
    i == a.len()
}

/// A text does not come after itself.
pub proof fn text_le_reflexive(a: Seq<char>)
    ensures
        text_le(a, a),
    decreases a.len(),
{
    if a.len() > 0 {
        text_le_reflexive(a.drop_first());
    }
}

/// Two texts neither of which comes after the other are the same.
pub proof fn text_le_antisymmetric(a: Seq<char>, b: Seq<char>)
    requires
        text_le(a, b),
        text_le(b, a),
    ensures
        a == b,
    decreases a.len(),
{
    if a.len() > 0 && b.len() > 0 {
        text_le_antisymmetric(a.drop_first(), b.drop_first());
        assert(a =~= seq![a[0]] + a.drop_first());
        assert(b =~= seq![b[0]] + b.drop_first());
    } else {
        assert(a =~= b);
    }
}

/// The order is transitive.
pub proof fn text_le_transitive(a: Seq<char>, b: Seq<char>, c: Seq<char>)
    requires
        text_le(a, b),
        text_le(b, c),
    ensures
        text_le(a, c),
    decreases a.len(),
{
    if a.len() > 0 && b.len() > 0 && c.len() > 0 && a[0] == b[0] && b[0] == c[0] {
        text_le_transitive(a.drop_first(), b.drop_first(), c.drop_first());
    }
}

/// Of two texts one does not come after the other.
pub proof fn text_le_total(a: Seq<char>, b: Seq<char>)
    ensures
        text_le(a, b) || text_le(b, a),
    decreases a.len(),
{
    if a.len() > 0 && b.len() > 0 && a[0] == b[0] {
        text_le_total(a.drop_first(), b.drop_first());
    }
}

// ----- numbers ------------------------------------------------------------------------

/// Append `n` in decimal.
pub fn push_decimal(out: &mut String, n: u128)
    ensures
        final(out)@ == old(out)@ + decimal_of(n as nat),
    decreases n,
{
    let ghost before = out@;
    if n >= 10 {
        push_decimal(out, n / 10);
    }
    let d: u8 = (n % 10) as u8;
    out.push((48 + d) as char);
    proof {
        assert(out@ =~= before + decimal_of(n as nat));
    }
}

/// `n` in decimal.
pub fn decimal(n: u128) -> (r: String)
    ensures
        r@ == decimal_of(n as nat),
{
    let mut out = String::new();
    push_decimal(&mut out, n);
    proof {
        assert(out@ =~= decimal_of(n as nat));
    }
    out
}

/// Different numbers are written differently.
pub proof fn decimal_injective(a: nat, b: nat)
    requires
        decimal_of(a) == decimal_of(b),
    ensures
        a == b,
    decreases a,
{
    decimal_facts(a);
    decimal_facts(b);
    if a >= 10 && b >= 10 {
        assert(decimal_of(a).drop_last() =~= decimal_of(a / 10));
        assert(decimal_of(b).drop_last() =~= decimal_of(b / 10));
        decimal_injective(a / 10, b / 10);
        assert(decimal_of(a).last() == digit(a % 10));
        assert(decimal_of(b).last() == digit(b % 10));
    } else if a >= 10 {
        decimal_facts(a / 10);
        assert(decimal_of(a).len() > 1);
    } else if b >= 10 {
        decimal_facts(b / 10);
        assert(decimal_of(b).len() > 1);
    } else {
        assert(decimal_of(a)[0] == digit(a));
        assert(decimal_of(b)[0] == digit(b));
    }
}

/// A number is written in digits, and in at least one.
pub proof fn decimal_facts(n: nat)
    ensures
        decimal_of(n).len() > 0,
        forall|i: int| 0 <= i < decimal_of(n).len() ==> '0' <= #[trigger] decimal_of(n)[i] <= '9',
    decreases n,
{
    if n >= 10 {
        decimal_facts(n / 10);
    }
}

/// The parts joined, told from the first one on.
pub proof fn joined_front(first: Seq<char>, rest: Seq<Seq<char>>, sep: Seq<char>)
    requires
        rest.len() > 0,
    ensures
        joined(seq![first] + rest, sep) == first + sep + joined(rest, sep),
    decreases rest.len(),
{
    let all = seq![first] + rest;
    if rest.len() == 1 {
        assert(all.drop_last() =~= seq![first]);
        assert(joined(seq![first], sep) == first);
        assert(joined(rest, sep) == rest[0]);
        assert(joined(all, sep) =~= first + sep + joined(rest, sep));
    } else {
        joined_front(first, rest.drop_last(), sep);
        assert(all.drop_last() =~= seq![first] + rest.drop_last());
        assert(all.last() == rest.last());
        assert(joined(all, sep) =~= first + sep + joined(rest, sep));
    }
}

/// The pieces of a text between the occurrences of a character, joined by it, are
/// the text.
pub proof fn pieces_join_back(s: Seq<char>, c: char)
    ensures
        joined(pieces(s, c), seq![c]) == s,
    decreases s.len(),
{
    position_facts(s, c);
    let k = position(s, c);
    if k < s.len() {
        let rest = s.skip(k + 1);
        pieces_join_back(rest, c);
        assert(pieces(rest, c).len() > 0);
        joined_front(s.take(k), pieces(rest, c), seq![c]);
        assert(s.take(k) + seq![c] + rest =~= s);
    } else {
        assert(pieces(s, c) =~= seq![s]);
    }
}

// ----- what the words come to -------------------------------------------------------

/// Among the ASCII characters white space is the space and what breaks or feeds lines
/// and columns.
pub proof fn ascii_white_space(c: char)
    requires
        (c as u32) < 128,
    ensures
        is_space(c) <==> c == ' ' || c == '\t' || c == '\n' || c == '\r' || c == '\x0b' || c
            == '\x0c',
{
}

/// All characters from `a` to `b` are white space.
pub open spec fn all_space(s: Seq<char>, a: int, b: int) -> bool {
    forall|i: int| a <= i < b ==> is_space(#[trigger] s[i])
}

proof fn start_trimmed_at(s: Seq<char>) -> (k: int)
    ensures
        0 <= k <= s.len(),
        start_trimmed(s) == s.skip(k),
        all_space(s, 0, k),
        k < s.len() ==> !is_space(s[k]),
    decreases s.len(),
{
    if s.len() > 0 && is_space(s[0]) {
        let rest = s.drop_first();
        let k = start_trimmed_at(rest);
        assert(rest.skip(k) =~= s.skip(k + 1));
        assert forall|i: int| 0 <= i < k + 1 implies is_space(#[trigger] s[i]) by {
            if i > 0 {
                assert(is_space(rest[i - 1]));
            }
        }
        if k < rest.len() {
            assert(rest[k] == s[k + 1]);
        }
        k + 1
    } else {
        assert(s.skip(0) =~= s);
        0
    }
}

proof fn end_trimmed_at(s: Seq<char>) -> (k: int)
    ensures
        0 <= k <= s.len(),
        end_trimmed(s) == s.take(k),
        all_space(s, k, s.len() as int),
        k > 0 ==> !is_space(s[k - 1]),
    decreases s.len(),
{
    if s.len() > 0 && is_space(s.last()) {
        let rest = s.drop_last();
        let k = end_trimmed_at(rest);
        assert(rest.take(k) =~= s.take(k));
        assert forall|i: int| k <= i < s.len() implies is_space(#[trigger] s[i]) by {
            if i < rest.len() {
                assert(is_space(rest[i]));
            }
        }
        if k > 0 {
            assert(rest[k - 1] == s[k - 1]);
        }
        k
    } else {
        assert(s.take(s.len() as int) =~= s);
        s.len() as int
    }
}

/// The text stands from `a` to `b`, and around it there is white space alone.
pub open spec fn stands_trimmed(s: Seq<char>, t: Seq<char>, a: int, b: int) -> bool {
    &&& 0 <= a <= b <= s.len()
    &&& t == s.subrange(a, b)
    &&& all_space(s, 0, a)
    &&& all_space(s, b, s.len() as int)
}

/// Trimming takes away white space alone, and all of it at either end.
pub proof fn trimming_takes_white_space_alone(s: Seq<char>)
    ensures
        exists|a: int, b: int| #[trigger] stands_trimmed(s, trimmed(s), a, b),
        exists|b: int| #[trigger] stands_trimmed(s, end_trimmed(s), 0, b),
        exists|a: int| #[trigger] stands_trimmed(s, start_trimmed(s), a, s.len() as int),
        trimmed(s).len() > 0 ==> !is_space(trimmed(s)[0]) && !is_space(trimmed(s).last()),
        end_trimmed(s).len() > 0 ==> !is_space(end_trimmed(s).last()),
        start_trimmed(s).len() > 0 ==> !is_space(start_trimmed(s)[0]),
{
    let a = start_trimmed_at(s);
    let t = start_trimmed(s);
    let k = end_trimmed_at(t);
    let b = a + k;
    assert(trimmed(s) =~= s.subrange(a, b));
    assert forall|i: int| b <= i < s.len() implies is_space(#[trigger] s[i]) by {
        assert(is_space(t[i - a]));
    }
    assert(stands_trimmed(s, trimmed(s), a, b));
    assert(t =~= s.subrange(a, s.len() as int));
    assert(stands_trimmed(s, t, a, s.len() as int));
    let e = end_trimmed_at(s);
    assert(end_trimmed(s) =~= s.subrange(0, e));
    assert(stands_trimmed(s, end_trimmed(s), 0, e));
}

/// A text with no white space at its ends is trimmed already.
pub proof fn trimmed_stays(s: Seq<char>)
    requires
        s.len() > 0 ==> !is_space(s[0]) && !is_space(s.last()),
    ensures
        trimmed(s) == s,
{
}

/// The lines of a text are its pieces between the newlines. A carriage return before a
/// newline goes with it; what follows the last newline is a line only if it is not
/// empty.
pub proof fn lines_are_pieces(s: Seq<char>)
    ensures
        ({
            let all = pieces(s, '\n');
            let ended = all.drop_last().map_values(|l: Seq<char>| chomped(l));
            line_list(s) == if all.last().len() == 0 {
                ended
            } else {
                ended.push(all.last())
            }
        }),
    decreases s.len(),
{
    position_facts(s, '\n');
    let k = position(s, '\n');
    let all = pieces(s, '\n');
    let ended = all.drop_last().map_values(|l: Seq<char>| chomped(l));
    if s.len() == 0 {
        assert(all =~= seq![s]);
        assert(line_list(s) =~= ended);
    } else if k < s.len() {
        let rest = s.skip(k + 1);
        let more = pieces(rest, '\n');
        lines_are_pieces(rest);
        assert(more.len() > 0);
        assert(all =~= seq![s.take(k)] + more);
        assert(all.last() == more.last());
        assert(all.drop_last() =~= seq![s.take(k)] + more.drop_last());
        assert(ended =~= seq![chomped(s.take(k))] + more.drop_last().map_values(
            |l: Seq<char>| chomped(l),
        ));
        if all.last().len() == 0 {
            assert(line_list(s) =~= ended);
        } else {
            assert(line_list(s) =~= ended.push(all.last()));
        }
    } else {
        assert(all =~= seq![s]);
        assert(line_list(s) =~= ended.push(all.last()));
    }
}

/// One carriage return is taken from the end of a line, and nothing else.
pub proof fn chomping_takes_one_return(line: Seq<char>, c: char)
    ensures
        chomped(line.push('\r')) == line,
        c != '\r' ==> chomped(line.push(c)) == line.push(c),
        chomped(seq![]).len() == 0,
{
    assert(line.push('\r').drop_last() =~= line);
}

/// The number that digits stand for.
pub open spec fn number_of(digits: Seq<char>) -> int
    decreases digits.len(),
{
    if digits.len() == 0 {
        0
    } else {
        10 * number_of(digits.drop_last()) + (digits.last() as int - '0' as int)
    }
}

/// A number is written so that its digits stand for it, and without a zero in front.
pub proof fn decimals_stand_for_the_number(n: nat)
    ensures
        number_of(decimal_of(n)) == n,
        n > 0 ==> decimal_of(n)[0] != '0',
        decimal_of(0) == seq!['0'],
    decreases n,
{
    let s = decimal_of(n);
    if n < 10 {
        assert(s.drop_last() =~= seq![]);
        assert(number_of(s.drop_last()) == 0);
    } else {
        decimals_stand_for_the_number(n / 10);
        decimal_facts(n / 10);
        assert(s.drop_last() =~= decimal_of(n / 10));
        assert(s[0] == decimal_of(n / 10)[0]);
    }
    assert(decimal_of(0) =~= seq!['0']);
}

/// Texts are in the order of the first character in which they differ; and the start of
/// a text comes before it.
pub proof fn first_difference_decides(a: Seq<char>, b: Seq<char>, k: int)
    requires
        0 <= k <= a.len(),
        k <= b.len(),
        a.take(k) == b.take(k),
    ensures
        k < a.len() && k < b.len() && a[k] < b[k] ==> text_le(a, b) && !text_le(b, a),
        k == a.len() ==> text_le(a, b),
        k == a.len() && k < b.len() ==> !text_le(b, a),
    decreases k,
{
    if k > 0 {
        assert(a[0] == a.take(k)[0]);
        assert(b[0] == b.take(k)[0]);
        assert(a.drop_first().take(k - 1) =~= a.take(k).drop_first());
        assert(b.drop_first().take(k - 1) =~= b.take(k).drop_first());
        first_difference_decides(a.drop_first(), b.drop_first(), k - 1);
    }
}

/// Lower case changes the ASCII capitals alone, each to its letter.
pub proof fn lower_case_of_letters(s: Seq<char>, i: int)
    requires
        0 <= i < s.len(),
    ensures
        lowered(s).len() == s.len(),
        'A' <= s[i] <= 'Z' ==> lowered(s)[i] as u32 == s[i] as u32 + 32,
        !('A' <= s[i] <= 'Z') ==> lowered(s)[i] == s[i],
{
}

proof fn word_len_of(w: Seq<char>, rest: Seq<char>)
    requires
        forall|i: int| 0 <= i < w.len() ==> !is_space(#[trigger] w[i]),
        rest.len() > 0 ==> is_space(rest[0]),
    ensures
        word_len(w + rest) == w.len(),
    decreases w.len(),
{
    let s = w + rest;
    if w.len() > 0 {
        assert(s[0] == w[0]);
        let v = w.drop_first();
        assert forall|i: int| 0 <= i < v.len() implies !is_space(#[trigger] v[i]) by {
            assert(!is_space(w[i + 1]));
        }
        word_len_of(v, rest);
        assert(s.drop_first() =~= v + rest);
    } else {
        assert(s =~= rest);
    }
}

/// The words of a text are its runs without white space: one at its start is the first,
/// and white space before it does not matter.
pub proof fn words_are_runs(w: Seq<char>, c: char, rest: Seq<char>)
    requires
        forall|i: int| 0 <= i < w.len() ==> !is_space(#[trigger] w[i]),
        is_space(c),
    ensures
        word_list(seq![]).len() == 0,
        w.len() > 0 ==> word_list(w) == seq![w],
        w.len() > 0 ==> word_list(w + (seq![c] + rest)) == seq![w] + word_list(rest),
        word_list(seq![c] + rest) == word_list(rest),
{
    let none: Seq<char> = seq![];
    assert(start_trimmed(none) == none);
    assert(word_len(none) == 0);
    let gap = seq![c] + rest;
    assert(gap.drop_first() =~= rest);
    assert(gap[0] == c);
    assert(start_trimmed(gap) == start_trimmed(rest));
    start_trimmed_len(rest);
    assert(word_list(gap) == word_list(rest));
    if w.len() > 0 {
        assert(!is_space(w[0]));
        word_len_of(w, none);
        assert(w + none =~= w);
        assert(w.take(w.len() as int) =~= w);
        assert(w.skip(w.len() as int) =~= none);
        assert(word_list(w) =~= seq![w] + word_list(none));
        let s = w + gap;
        assert(s[0] == w[0]);
        word_len_of(w, gap);
        assert(s.take(w.len() as int) =~= w);
        assert(s.skip(w.len() as int) =~= gap);
    }
}

/// A text starts with another exactly if that stands in front of the rest of it.
pub proof fn prefixes_stand_in_front(s: Seq<char>, head: Seq<char>, rest: Seq<char>)
    ensures
        has_prefix(head + rest, head),
        has_prefix(s, head) ==> s == head + s.skip(head.len() as int),
        s.len() < head.len() ==> !has_prefix(s, head),
{
    assert((head + rest).take(head.len() as int) =~= head);
    if has_prefix(s, head) {
        assert(s =~= s.take(head.len() as int) + s.skip(head.len() as int));
    }
}

/// A text stands in another exactly if it is a stretch of it.
pub proof fn needles_are_stretches(hay: Seq<char>, a: Seq<char>, needle: Seq<char>, b: Seq<char>)
    ensures
        has_text(a + needle + b, needle),
        has_text(hay, needle) ==> exists|at: int|
            0 <= at && at + needle.len() <= hay.len() && #[trigger] hay.subrange(
                at,
                at + needle.len(),
            ) == needle,
{
    let all = a + needle + b;
    let n = a.len() as int;
    assert(all.subrange(n, n + needle.len()) =~= needle);
    assert(stands_at(all, needle, n));
    if has_text(hay, needle) {
        let at = choose|at: int| stands_at(hay, needle, at);
        assert(hay.subrange(at, at + needle.len()) =~= needle);
    }
}

} // verus!
