//! A list picker that typing narrows: remote branches, or types of commits.

use vstd::prelude::*;

use crate::text;
use crate::text::{has_text, texts};
use crate::ui::{Key, KeyCode};

verus! {

/// What was chosen in the picker.
#[derive(Debug, PartialEq, Eq)]
pub enum Pick {
    /// The highlighted entry.
    Existing(String),
    /// The other action, on `Ctrl+N`, where there is one.
    NewBranch,
    /// Nothing.
    Cancel,
}

/// What was chosen, as a mathematical value.
pub enum PickView {
    Existing(Seq<char>),
    NewBranch,
    Cancel,
}

impl View for Pick {
    type V = PickView;

    open spec fn view(&self) -> PickView {
        match self {
            Pick::Existing(s) => PickView::Existing(s@),
            Pick::NewBranch => PickView::NewBranch,
            Pick::Cancel => PickView::Cancel,
        }
    }
}

// ----- matching ---------------------------------------------------------------------------

/// What `str::to_lowercase` makes of a text.
pub uninterp spec fn lowercase(s: Seq<char>) -> Seq<char>;

/// `str::to_lowercase`: the text in lower case, by the rules of Unicode. Claimed of
/// it: the result depends on the text alone.
#[verifier::external_body]
fn to_lower(s: &str) -> (r: String)
    ensures
        r@ == lowercase(s@),
{
    s.to_lowercase()
}

/// The rule of the filter: the needle stands in the entry, whatever the case. An
/// empty needle matches everything.
pub open spec fn passes(item: Seq<char>, needle: Seq<char>) -> bool {
    needle.len() == 0 || has_text(lowercase(item), lowercase(needle))
}

/// Whether the needle stands in the text, both in lower case.
pub fn stands_in(lower_item: &str, lower_needle: &str) -> (r: bool)
    ensures
        r == has_text(lower_item@, lower_needle@),
{
    text::contains(&text::chars(lower_item), &text::chars(lower_needle))
}

/// Whether the entry passes the filter.
pub fn matches(item: &str, filter: &str) -> (r: bool)
    ensures
        r == passes(item@, filter@),
{
    filter.is_empty() || stands_in(to_lower(item).as_str(), to_lower(filter).as_str())
}

/// The indices of the entries that pass the filter, in order.
pub open spec fn passing(items: Seq<Seq<char>>, needle: Seq<char>) -> Seq<usize>
    decreases items.len(),
{
    if items.len() == 0 {
        seq![]
    } else {
        let before = passing(items.drop_last(), needle);
        if passes(items.last(), needle) {
            before.push((items.len() - 1) as usize)
        } else {
            before
        }
    }
}

/// The entries that pass are told in order, each once, and no others.
pub proof fn passing_facts(items: Seq<Seq<char>>, needle: Seq<char>)
    requires
        items.len() <= usize::MAX,
    ensures
        forall|k: int|
            0 <= k < passing(items, needle).len() ==> (#[trigger] passing(items, needle)[k]) < items.len()
                && passes(items[passing(items, needle)[k] as int], needle),
        forall|j: int, k: int|
            0 <= j < k < passing(items, needle).len() ==> (#[trigger] passing(items, needle)[j]) < (
            #[trigger] passing(items, needle)[k]),
        forall|i: int|
            0 <= i < items.len() && passes(#[trigger] items[i], needle) ==> passing(
                items,
                needle,
            ).contains(i as usize),
    decreases items.len(),
{
    if items.len() > 0 {
        let rest = items.drop_last();
        let n = items.len() - 1;
        passing_facts(rest, needle);
        let before = passing(rest, needle);
        let out = passing(items, needle);
        assert forall|k: int| 0 <= k < out.len() implies (#[trigger] out[k]) < items.len() && passes(
            items[out[k] as int],
            needle,
        ) by {
            if k < before.len() {
                assert(before[k] < rest.len());
                assert(passes(rest[before[k] as int], needle));
            }
        }
        assert forall|j: int, k: int| 0 <= j < k < out.len() implies (#[trigger] out[j]) < (
        #[trigger] out[k]) by {
            assert(before[j] < rest.len());
            if k < before.len() {
                assert(before[j] < before[k]);
            }
        }
        assert forall|i: int| 0 <= i < items.len() && passes(#[trigger] items[i], needle) implies out.contains(
            i as usize,
        ) by {
            if i < n {
                assert(rest[i] == items[i]);
                let k = choose|k: int| 0 <= k < before.len() && before[k] == i as usize;
                assert(out[k] == i as usize);
            } else {
                assert(out[before.len() as int] == i as usize);
            }
        }
    }
}

/// With an empty needle everything passes.
pub proof fn empty_needle_passes_all(items: Seq<Seq<char>>)
    requires
        items.len() <= usize::MAX,
    ensures
        passing(items, seq![]) == Seq::new(items.len(), |i: int| i as usize),
    decreases items.len(),
{
    if items.len() > 0 {
        empty_needle_passes_all(items.drop_last());
    }
    assert(passing(items, seq![]) =~= Seq::new(items.len(), |i: int| i as usize));
}

/// The indices of the entries that pass the filter.
pub fn visible(items: &[String], filter: &str) -> (r: Vec<usize>)
    ensures
        r@ == passing(texts(items@), filter@),
{
    let ghost list = texts(items@);
    let mut out: Vec<usize> = Vec::new();
    let mut i: usize = 0;
    proof {
        assert(out@ =~= passing(list.take(0), filter@));
    }
    while i < items.len()
        invariant
            i <= items@.len(),
            list == texts(items@),
            out@ == passing(list.take(i as int), filter@),
        decreases items@.len() - i,
    {
        proof {
            assert(list.take(i + 1).drop_last() =~= list.take(i as int));
        }
        if matches(items[i].as_str(), filter) {
            out.push(i);
        }
        i = i + 1;
    }
    proof {
        assert(list.take(i as int) =~= list);
    }
    out
}

// ----- keys -------------------------------------------------------------------------------

/// The highlight, kept inside a list of `count` entries.
pub open spec fn clamped(at: Option<usize>, count: nat) -> Option<usize> {
    match at {
        Some(i) if i < count => Some(i),
        _ => if count == 0 {
            None
        } else {
            Some((count - 1) as usize)
        },
    }
}

/// The picker's state: the needle, and which of the entries that pass is
/// highlighted.
pub struct Picker {
    needle: String,
    at: Option<usize>,
}

/// The picker's state as a mathematical value.
pub struct PickerView {
    pub needle: Seq<char>,
    pub at: Option<usize>,
}

impl View for Picker {
    type V = PickerView;

    closed spec fn view(&self) -> PickerView {
        PickerView { needle: self.needle@, at: self.at }
    }
}

/// The state and the choice after a key, when `shown` are the entries that pass
/// and the highlight is inside them.
pub open spec fn picker_next(
    v: PickerView,
    shown: Seq<Seq<char>>,
    key: Key,
    other: bool,
) -> (PickerView, Option<PickView>) {
    let n = shown.len();
    match key.code {
        KeyCode::Enter => (
            v,
            Some(
                match v.at {
                    Some(i) => PickView::Existing(shown[i as int]),
                    None => PickView::Cancel,
                },
            ),
        ),
        KeyCode::Esc => (v, Some(PickView::Cancel)),
        KeyCode::Up => (
            PickerView {
                at: Some(
                    match v.at {
                        Some(i) if i > 0 => (i - 1) as usize,
                        _ => 0,
                    },
                ),
                ..v
            },
            None,
        ),
        KeyCode::Down => (
            PickerView {
                at: Some(
                    if n == 0 {
                        0
                    } else {
                        match v.at {
                            Some(i) if i + 1 < n => (i + 1) as usize,
                            _ => (n - 1) as usize,
                        }
                    },
                ),
                ..v
            },
            None,
        ),
        KeyCode::Backspace => (
            PickerView {
                needle: if v.needle.len() > 0 {
                    v.needle.drop_last()
                } else {
                    v.needle
                },
                ..v
            },
            None,
        ),
        KeyCode::Char(c) => if key.ctrl {
            if (c == 'n' || c == 'N') && other {
                (v, Some(PickView::NewBranch))
            } else if c == 'c' {
                (v, Some(PickView::Cancel))
            } else {
                (v, None)
            }
        } else {
            (PickerView { needle: v.needle.push(c), ..v }, None)
        },
        _ => (v, None),
    }
}

/// The entries at the given indices.
pub open spec fn entries_at(items: Seq<Seq<char>>, at: Seq<usize>) -> Seq<Seq<char>> {
    at.map_values(|i: usize| items[i as int])
}

/// The entries that pass the filter.
pub open spec fn shown_entries(items: Seq<Seq<char>>, needle: Seq<char>) -> Seq<Seq<char>> {
    entries_at(items, passing(items, needle))
}

/// The picker with its highlight inside the entries that pass.
pub open spec fn settled(v: PickerView, items: Seq<Seq<char>>) -> PickerView {
    PickerView { at: clamped(v.at, passing(items, v.needle).len()), ..v }
}

/// A choice, if there is one, as a mathematical value.
pub open spec fn chosen(pick: Option<Pick>) -> Option<PickView> {
    match pick {
        Some(p) => Some(p@),
        None => None,
    }
}

/// The text without its last character.
pub fn without_last(s: &String) -> (r: String)
    ensures
        r@ == if s@.len() > 0 {
            s@.drop_last()
        } else {
            s@
        },
{
    let all = text::chars(s.as_str());
    if all.len() > 0 {
        let rest = &all[0..all.len() - 1];
        proof {
            assert(rest@ =~= s@.drop_last());
        }
        text::text(rest)
    } else {
        s.clone()
    }
}

impl Picker {
    /// A picker without a needle, with the first entry highlighted.
    pub fn new() -> (r: Self)
        ensures
            r@ == (PickerView { needle: seq![], at: Some(0) }),
    {
        let needle = String::new();
        proof {
            assert(needle@ =~= seq![]);
        }
        Picker { needle, at: Some(0) }
    }

    /// What was typed so far.
    pub fn needle(&self) -> (r: &str)
        ensures
            r@ == self@.needle,
    {
        self.needle.as_str()
    }

    /// Which of the entries that pass is highlighted.
    pub fn highlighted(&self) -> (r: Option<usize>)
        ensures
            r == self@.at,
    {
        self.at
    }

    /// Keep the highlight inside the entries that pass, and tell those.
    pub fn settle(&mut self, items: &[String]) -> (r: Vec<usize>)
        ensures
            r@ == passing(texts(items@), old(self)@.needle),
            final(self)@ == settled(old(self)@, texts(items@)),
    {
        let shown = visible(items, self.needle.as_str());
        self.at = match self.at {
            Some(i) if i < shown.len() => Some(i),
            _ => if shown.len() == 0 {
                None
            } else {
                Some(shown.len() - 1)
            },
        };
        shown
    }

    /// What a key does when the entries at `shown` are listed; `other` says whether
    /// there is another action on `Ctrl+N`. The choice is `None` while there is none
    /// yet.
    pub fn press(&mut self, items: &[String], shown: &Vec<usize>, key: &Key, other: bool) -> (r:
        Option<Pick>)
        requires
            forall|k: int| 0 <= k < shown@.len() ==> #[trigger] shown@[k] < items@.len(),
            old(self)@.at matches Some(i) ==> i < shown@.len(),
        ensures
            (final(self)@, chosen(r)) == picker_next(
                old(self)@,
                entries_at(texts(items@), shown@),
                *key,
                other,
            ),
    {
        let ghost entries = entries_at(texts(items@), shown@);
        match key.code {
            KeyCode::Enter => match self.at {
                Some(i) => {
                    let k = shown[i];
                    proof {
                        assert(k < items@.len());
                        assert(entries[i as int] == items@[k as int]@);
                    }
                    Some(Pick::Existing(items[k].clone()))
                },
                None => Some(Pick::Cancel),
            },
            KeyCode::Esc => Some(Pick::Cancel),
            KeyCode::Up => {
                self.at = Some(
                    match self.at {
                        Some(i) if i > 0 => i - 1,
                        _ => 0,
                    },
                );
                None
            },
            KeyCode::Down => {
                self.at = Some(
                    if shown.len() == 0 {
                        0
                    } else {
                        match self.at {
                            Some(i) if i < shown.len() - 1 => i + 1,
                            _ => shown.len() - 1,
                        }
                    },
                );
                None
            },
            KeyCode::Backspace => {
                self.needle = without_last(&self.needle);
                None
            },
            KeyCode::Char(c) => {
                if key.ctrl {
                    if (c == 'n' || c == 'N') && other {
                        Some(Pick::NewBranch)
                    } else if c == 'c' {
                        Some(Pick::Cancel)
                    } else {
                        None
                    }
                } else {
                    self.needle.push(c);
                    None
                }
            },
            _ => None,
        }
    }

    /// What a key does: on the entries that pass, with the highlight among them.
    pub fn run(&mut self, items: &[String], key: &Key, other: bool) -> (r: Option<Pick>)
        ensures
            (final(self)@, chosen(r)) == picker_next(
                settled(old(self)@, texts(items@)),
                shown_entries(texts(items@), old(self)@.needle),
                *key,
                other,
            ),
    {
        proof {
            assert(texts(items@).len() == items.len());
            passing_facts(texts(items@), self@.needle);
        }
        let shown = self.settle(items);
        self.press(items, &shown, key, other)
    }
}

/// What is picked is one of the entries and passes the filter; the other action is
/// picked only where there is one.
pub proof fn picks_are_entries(
    before: PickerView,
    items: Seq<Seq<char>>,
    key: Key,
    other: bool,
)
    requires
        items.len() <= usize::MAX,
    ensures
        match picker_next(
            settled(before, items),
            shown_entries(items, before.needle),
            key,
            other,
        ).1 {
            Some(PickView::Existing(x)) => items.contains(x) && passes(x, before.needle),
            Some(PickView::NewBranch) => other,
            _ => true,
        },
{
    let v = settled(before, items);
    passing_facts(items, v.needle);
    let at = passing(items, v.needle);
    if let Some(i) = v.at {
        assert(at[i as int] < items.len());
        assert(items[at[i as int] as int] == shown_entries(items, v.needle)[i as int]);
    }
}

/// The keys, below the list.
pub fn hints(other: Option<&str>) -> (r: String)
    ensures
        r@ == match other {
            Some(action) => "Enter use highlighted   Ctrl+N "@ + action@ + "   Esc cancel"@,
            None => "Enter use highlighted   Esc cancel"@,
        },
{
    match other {
        Some(action) => {
            let mut out = "Enter use highlighted   Ctrl+N ".to_string();
            out.append(action);
            out.append("   Esc cancel");
            out
        },
        None => "Enter use highlighted   Esc cancel".to_string(),
    }
}

/// An entry passes exactly if the needle stands somewhere in it, both in lower case; and
/// without a needle every entry does.
pub proof fn needles_stand_in_the_entry(
    item: Seq<char>,
    needle: Seq<char>,
    a: Seq<char>,
    b: Seq<char>,
)
    ensures
        needle.len() == 0 ==> passes(item, needle),
        lowercase(item) == a + lowercase(needle) + b ==> passes(item, needle),
        needle.len() > 0 && passes(item, needle) ==> exists|at: int|
            0 <= at && at + lowercase(needle).len() <= lowercase(item).len()
                && #[trigger] lowercase(item).subrange(at, at + lowercase(needle).len()) == lowercase(
                needle,
            ),
{
    let hay = lowercase(item);
    let low = lowercase(needle);
    if hay == a + low + b {
        let at = a.len() as int;
        assert(hay.subrange(at, at + low.len()) =~= low);
        assert(text::stands_at(hay, low, at));
    }
    if needle.len() > 0 && passes(item, needle) {
        let at = choose|at: int| text::stands_at(hay, low, at);
        assert(hay.subrange(at, at + low.len()) =~= low);
    }
}

/// The entries that are shown are those that pass, in the order of the list.
pub proof fn shown_entries_pass(items: Seq<Seq<char>>, needle: Seq<char>, k: int)
    requires
        items.len() <= usize::MAX,
        0 <= k < shown_entries(items, needle).len(),
    ensures
        shown_entries(items, needle).len() == passing(items, needle).len(),
        passing(items, needle)[k] < items.len(),
        shown_entries(items, needle)[k] == items[passing(items, needle)[k] as int],
        passes(shown_entries(items, needle)[k], needle),
{
    passing_facts(items, needle);
}

/// The highlight stays where it is as long as that is among the entries that pass, else
/// it goes to the last of them; where none passes there is none. The needle stays.
pub proof fn highlights_settle(v: PickerView, items: Seq<Seq<char>>)
    requires
        items.len() <= usize::MAX,
    ensures
        ({
            let n = passing(items, v.needle).len();
            let w = settled(v, items);
            &&& w.needle == v.needle
            &&& (v.at matches Some(i) && i < n ==> w.at == v.at)
            &&& (v.at matches Some(i) && i >= n && n > 0 ==> w.at == Some((n - 1) as usize))
            &&& v.at is None && n > 0 ==> w.at == Some((n - 1) as usize)
            &&& n == 0 ==> w.at is None
        }),
{
}

/// What each key does in the picker: `Enter` picks the highlighted entry, `Esc` and
/// `Ctrl+C` cancel, the arrows move the highlight by one and stop at the ends, and the
/// other action is on `Ctrl+N`, where there is one.
pub proof fn picker_keys(v: PickerView, shown: Seq<Seq<char>>, i: usize, ctrl: bool, other: bool)
    requires
        shown.len() <= usize::MAX,
        i < shown.len(),
        v.at == Some(i),
    ensures
        picker_next(v, shown, Key { code: KeyCode::Enter, ctrl }, other) == (
            v,
            Some(PickView::Existing(shown[i as int])),
        ),
        picker_next(v, shown, Key { code: KeyCode::Esc, ctrl }, other) == (
            v,
            Some(PickView::Cancel),
        ),
        picker_next(v, shown, Key { code: KeyCode::Char('c'), ctrl: true }, other) == (
            v,
            Some(PickView::Cancel),
        ),
        picker_next(v, shown, Key { code: KeyCode::Char('n'), ctrl: true }, true) == (
            v,
            Some(PickView::NewBranch),
        ),
        picker_next(v, shown, Key { code: KeyCode::Char('N'), ctrl: true }, true) == (
            v,
            Some(PickView::NewBranch),
        ),
        i > 0 ==> picker_next(v, shown, Key { code: KeyCode::Up, ctrl }, other) == (
            PickerView { needle: v.needle, at: Some((i - 1) as usize) },
            None::<PickView>,
        ),
        i == 0 ==> picker_next(v, shown, Key { code: KeyCode::Up, ctrl }, other) == (
            v,
            None::<PickView>,
        ),
        i + 1 < shown.len() ==> picker_next(v, shown, Key { code: KeyCode::Down, ctrl }, other) == (
            PickerView { needle: v.needle, at: Some((i + 1) as usize) },
            None::<PickView>,
        ),
        i + 1 == shown.len() ==> picker_next(v, shown, Key { code: KeyCode::Down, ctrl }, other)
            == (v, None::<PickView>),
{
}

/// What typing does: a character goes behind the needle, `Backspace` takes it off again,
/// and neither picks anything nor moves the highlight. With control no character is
/// typed.
pub proof fn typing_narrows(v: PickerView, shown: Seq<Seq<char>>, c: char, ctrl: bool, other: bool)
    ensures
        ({
            let (w, pick) = picker_next(
                v,
                shown,
                Key { code: KeyCode::Char(c), ctrl: false },
                other,
            );
            &&& w.needle == v.needle + seq![c] && w.at == v.at && pick is None
            &&& picker_next(w, shown, Key { code: KeyCode::Backspace, ctrl }, other) == (
                v,
                None::<PickView>,
            )
            &&& picker_next(v, shown, Key { code: KeyCode::Char(c), ctrl: true }, other).0 == v
            &&& c != 'c' && !((c == 'n' || c == 'N') && other) ==> picker_next(
                v,
                shown,
                Key { code: KeyCode::Char(c), ctrl: true },
                other,
            ).1 is None
        }),
        v.needle.len() == 0 ==> picker_next(
            v,
            shown,
            Key { code: KeyCode::Backspace, ctrl },
            other,
        ) == (v, None::<PickView>),
{
    assert(v.needle.push(c) =~= v.needle + seq![c]);
    assert(v.needle.push(c).drop_last() =~= v.needle);
}

/// With nothing to pick, `Enter` cancels.
pub proof fn nothing_to_pick(v: PickerView, items: Seq<Seq<char>>, ctrl: bool, other: bool)
    requires
        passing(items, v.needle).len() == 0,
    ensures
        picker_next(
            settled(v, items),
            shown_entries(items, v.needle),
            Key { code: KeyCode::Enter, ctrl },
            other,
        ).1 == Some(PickView::Cancel),
{
}

} // verus!
