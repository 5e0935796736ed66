//! What holds of every listing.
use vstd::prelude::*;
use vstd::relations::*;
use vstd::seq_lib::*;
use crate::entry::{
    entry_le, is_dotfile, lemma_entry_le_total_ordering, style_spec, EntryKind, Style,
};
use crate::listing::{by_entry, dots, listing, shown};
use crate::order::{lemma_name_lt_irreflexive, lemma_name_lt_total, name_lt};

verus! {

broadcast use vstd::seq_lib::group_to_multiset_ensures;

proof fn lemma_shown_no_dotfiles(s: Seq<(Seq<char>, Option<EntryKind>)>)
    ensures
        shown(s, false, false) is Ok ==> forall|i: int|
            0 <= i < shown(s, false, false)->Ok_0.len() ==> !is_dotfile(
                #[trigger] shown(s, false, false)->Ok_0[i].0,
            ),
    decreases s.len(),
{
    if s.len() > 0 {
        lemma_shown_no_dotfiles(s.drop_first());
    }
}

proof fn lemma_shown_unfiltered(s: Seq<(Seq<char>, Option<EntryKind>)>, show_all: bool, show_almost_all: bool)
    requires
        show_all || show_almost_all,
    ensures
        shown(s, show_all, show_almost_all) is Ok ==> {
            let v = shown(s, show_all, show_almost_all)->Ok_0;
            &&& v.len() == s.len()
            &&& forall|i: int| 0 <= i < s.len() ==> {
                &&& #[trigger] s[i].1 is Some
                &&& v[i] == (s[i].0, style_spec(s[i].1->0))
            }
        },
    decreases s.len(),
{
    if s.len() > 0 {
        lemma_shown_unfiltered(s.drop_first(), show_all, show_almost_all);
        if shown(s, show_all, show_almost_all) is Ok {
            let v = shown(s, show_all, show_almost_all)->Ok_0;
            let w = shown(s.drop_first(), show_all, show_almost_all)->Ok_0;
            assert forall|i: int| 0 <= i < s.len() implies {
                &&& #[trigger] s[i].1 is Some
                &&& v[i] == (s[i].0, style_spec(s[i].1->0))
            } by {
                if i > 0 {
                    assert(s[i] == s.drop_first()[i - 1]);
                }
            }
        }
    }
}

proof fn lemma_shown_bounded(s: Seq<(Seq<char>, Option<EntryKind>)>, show_all: bool, show_almost_all: bool, lo: Seq<char>)
    requires
        forall|k: int| 0 <= k < s.len() ==> !name_lt(#[trigger] s[k].0, lo),
    ensures
        shown(s, show_all, show_almost_all) is Ok ==> forall|i: int|
            0 <= i < shown(s, show_all, show_almost_all)->Ok_0.len() ==> !name_lt(
                #[trigger] shown(s, show_all, show_almost_all)->Ok_0[i].0,
                lo,
            ),
    decreases s.len(),
{
    if s.len() > 0 {
        assert(forall|k: int| 0 <= k < s.drop_first().len() ==> s.drop_first()[k] == s[k + 1]);
        lemma_shown_bounded(s.drop_first(), show_all, show_almost_all, lo);
    }
}

proof fn lemma_shown_ascending(s: Seq<(Seq<char>, Option<EntryKind>)>, show_all: bool, show_almost_all: bool)
    requires
        sorted_by(s, by_entry()),
    ensures
        shown(s, show_all, show_almost_all) is Ok ==> forall|i: int, j: int|
            0 <= i < j < shown(s, show_all, show_almost_all)->Ok_0.len() ==> !name_lt(
                #[trigger] shown(s, show_all, show_almost_all)->Ok_0[j].0,
                #[trigger] shown(s, show_all, show_almost_all)->Ok_0[i].0,
            ),
    decreases s.len(),
{
    if s.len() > 0 {
        let t = s.drop_first();
        assert forall|i: int, j: int| 0 <= i < j < t.len() implies #[trigger] (by_entry())(t[i], t[j]) by {
            assert((by_entry())(s[i + 1], s[j + 1]));
        }
        lemma_shown_ascending(t, show_all, show_almost_all);
        assert forall|k: int| 0 <= k < t.len() implies !name_lt(#[trigger] t[k].0, s[0].0) by {
            assert((by_entry())(s[0], s[k + 1]));
            assert(entry_le(s[0], t[k]));
            lemma_name_lt_total(s[0].0, t[k].0);
            lemma_name_lt_irreflexive(s[0].0);
        }
        lemma_shown_bounded(t, show_all, show_almost_all, s[0].0);
        if shown(s, show_all, show_almost_all) is Ok {
            let v = shown(s, show_all, show_almost_all)->Ok_0;
            let w = shown(t, show_all, show_almost_all)->Ok_0;
            if !(show_all || show_almost_all) && is_dotfile(s[0].0) {
            } else {
                assert forall|i: int, j: int| 0 <= i < j < v.len() implies !name_lt(#[trigger] v[j].0, #[trigger] v[i].0) by {
                    assert(v[j] == w[j - 1]);
                    if i > 0 {
                        assert(v[i] == w[i - 1]);
                    }
                }
            }
        }
    }
}

/// Without flags, no listed name begins with `.`.
pub proof fn lemma_default_hides_dotfiles(entries: Seq<(Seq<char>, Option<EntryKind>)>)
    ensures
        listing(entries, false, false) is Ok ==> forall|i: int|
            0 <= i < listing(entries, false, false)->Ok_0.len() ==> !is_dotfile(
                #[trigger] listing(entries, false, false)->Ok_0[i].0,
            ),
{
    let s = entries.sort_by(by_entry());
    lemma_shown_no_dotfiles(s);
    if shown(s, false, false) is Ok {
        assert(dots(false) + shown(s, false, false)->Ok_0 =~= shown(s, false, false)->Ok_0);
    }
}

/// With all entries asked for, the listing is `.` and `..`, both styled as
/// directories, then every entry in sorted order, dotfiles included.
pub proof fn lemma_all_lists_dots_then_everything(entries: Seq<(Seq<char>, Option<EntryKind>)>, show_almost_all: bool)
    ensures
        listing(entries, true, show_almost_all) is Ok ==> {
            let v = listing(entries, true, show_almost_all)->Ok_0;
            let s = entries.sort_by(by_entry());
            &&& v.len() == entries.len() + 2
            &&& v[0] == (seq!['.'], Style::Directory)
            &&& v[1] == (seq!['.', '.'], Style::Directory)
            &&& forall|i: int| 0 <= i < entries.len() ==> {
                &&& #[trigger] s[i].1 is Some
                &&& v[i + 2] == (s[i].0, style_spec(s[i].1->0))
            }
        },
{
    let s = entries.sort_by(by_entry());
    lemma_entry_le_total_ordering();
    entries.lemma_sort_by_ensures(by_entry());
    lemma_shown_unfiltered(s, true, show_almost_all);
    assert(s.len() == entries.len()) by {
        to_multiset_len(s);
        to_multiset_len(entries);
    }
    if shown(s, true, show_almost_all) is Ok {
        let w = shown(s, true, show_almost_all)->Ok_0;
        let v = listing(entries, true, show_almost_all)->Ok_0;
        assert(v == dots(true) + w);
        assert forall|i: int| 0 <= i < entries.len() implies {
            &&& #[trigger] s[i].1 is Some
            &&& v[i + 2] == (s[i].0, style_spec(s[i].1->0))
        } by {
            assert(v[i + 2] == w[i]);
        }
    }
}

/// With dotfiles asked for but not `.` and `..`, the listing is every entry in
/// sorted order and nothing before it.
pub proof fn lemma_almost_all_lists_everything(entries: Seq<(Seq<char>, Option<EntryKind>)>)
    ensures
        listing(entries, false, true) is Ok ==> {
            let v = listing(entries, false, true)->Ok_0;
            let s = entries.sort_by(by_entry());
            &&& v.len() == entries.len()
            &&& forall|i: int| 0 <= i < entries.len() ==> {
                &&& #[trigger] s[i].1 is Some
                &&& v[i] == (s[i].0, style_spec(s[i].1->0))
            }
        },
{
    let s = entries.sort_by(by_entry());
    lemma_entry_le_total_ordering();
    entries.lemma_sort_by_ensures(by_entry());
    lemma_shown_unfiltered(s, false, true);
    assert(s.len() == entries.len()) by {
        to_multiset_len(s);
        to_multiset_len(entries);
    }
    if shown(s, false, true) is Ok {
        let w = shown(s, false, true)->Ok_0;
        assert(dots(false) + w =~= w);
    }
}

/// The listing does not depend on the order in which the entries were read.
pub proof fn lemma_listing_order_independent(
    a: Seq<(Seq<char>, Option<EntryKind>)>,
    b: Seq<(Seq<char>, Option<EntryKind>)>,
    show_all: bool,
    show_almost_all: bool,
)
    requires
        a.to_multiset() == b.to_multiset(),
    ensures
        listing(a, show_all, show_almost_all) == listing(b, show_all, show_almost_all),
{
    lemma_entry_le_total_ordering();
    a.lemma_sort_by_ensures(by_entry());
    b.lemma_sort_by_ensures(by_entry());
    lemma_sorted_unique(a.sort_by(by_entry()), b.sort_by(by_entry()), by_entry());
}

/// After `.` and `..`, where they are shown, names are listed in ascending
/// order.
pub proof fn lemma_listing_ascending(entries: Seq<(Seq<char>, Option<EntryKind>)>, show_all: bool, show_almost_all: bool)
    ensures
        listing(entries, show_all, show_almost_all) is Ok ==> {
            let v = listing(entries, show_all, show_almost_all)->Ok_0;
            forall|i: int, j: int|
                dots(show_all).len() <= i < j < v.len() ==> !name_lt(#[trigger] v[j].0, #[trigger] v[i].0)
        },
{
    let s = entries.sort_by(by_entry());
    lemma_entry_le_total_ordering();
    entries.lemma_sort_by_ensures(by_entry());
    lemma_shown_ascending(s, show_all, show_almost_all);
    if shown(s, show_all, show_almost_all) is Ok {
        let w = shown(s, show_all, show_almost_all)->Ok_0;
        let v = listing(entries, show_all, show_almost_all)->Ok_0;
        let d = dots(show_all).len();
        assert(v == dots(show_all) + w);
        assert forall|i: int, j: int| d <= i < j < v.len() implies !name_lt(#[trigger] v[j].0, #[trigger] v[i].0) by {
            assert(v[i] == w[i - d] && v[j] == w[j - d]);
        }
    }
}

/// Directories are styled apart from everything else, and every other kind
/// shares one style.
pub proof fn lemma_directories_styled_apart(k: EntryKind)
    ensures
        style_spec(k) == Style::Directory <==> k == EntryKind::Directory,
        k != EntryKind::Directory ==> style_spec(k) == style_spec(EntryKind::File),
{
}

} // verus!
