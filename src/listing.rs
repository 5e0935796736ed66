//! Turning the entries of a directory into the sequence that is shown.
use vstd::prelude::*;
use vstd::multiset::Multiset;
use vstd::relations::*;
use vstd::seq_lib::*;
use crate::entry::{
    displays_view, entries_view, entry_le, is_dotfile, kind_rank, lemma_entry_le_total_ordering,
    starts_with_dot, style_of, style_spec, DirectoryEntry, DisplayEntry, EntryKind, Style,
};
use crate::order::{chars_of, lemma_name_lt_total, name_before};

verus! {

broadcast use vstd::seq_lib::group_to_multiset_ensures;

/// The order in which entries are listed.
pub open spec fn by_entry() -> spec_fn((Seq<char>, Option<EntryKind>), (Seq<char>, Option<EntryKind>)) -> bool {
    |a: (Seq<char>, Option<EntryKind>), b: (Seq<char>, Option<EntryKind>)| entry_le(a, b)
}

fn rank_of(k: Option<EntryKind>) -> (r: u8)
    ensures
        r as int == kind_rank(k),
{
    match k {
        None => 0,
        Some(EntryKind::Directory) => 1,
        Some(EntryKind::File) => 2,
        Some(EntryKind::Other) => 3,
    }
}

/// Whether an entry named `an` of kind `ak` may stand before one named `bn` of
/// kind `bk`.
pub fn entry_before_eq(an: &Vec<char>, ak: Option<EntryKind>, bn: &Vec<char>, bk: Option<EntryKind>) -> (r: bool)
    ensures
        r == entry_le((an@, ak), (bn@, bk)),
{
    if name_before(an, bn) {
        true
    } else if name_before(bn, an) {
        false
    } else {
        proof {
            lemma_name_lt_total(an@, bn@);
        }
        rank_of(ak) <= rank_of(bk)
    }
}

/// The entries in ascending order of name, whatever order they came in.
pub fn sort_entries(entries: Vec<DirectoryEntry>) -> (r: Vec<DirectoryEntry>)
    ensures
        entries_view(r@) == entries_view(entries@).sort_by(by_entry()),
{
    let ghost input = entries_view(entries@);
    let mut src = entries;
    let mut out: Vec<DirectoryEntry> = Vec::new();
    let mut keys: Vec<Vec<char>> = Vec::new();
    proof {
        lemma_entry_le_total_ordering();
        assert(entries_view(out@).to_multiset() =~= Multiset::empty());
    }
    while src.len() > 0
        invariant
            total_ordering(by_entry()),
            keys@.len() == out@.len(),
            forall|k: int| 0 <= k < out@.len() ==> #[trigger] keys@[k]@ == out@[k].name@,
            forall|i: int, j: int|
                0 <= i < j < out@.len() ==> entry_le(#[trigger] out@[i]@, #[trigger] out@[j]@),
            entries_view(src@).to_multiset().add(entries_view(out@).to_multiset())
                == input.to_multiset(),
        decreases src@.len(),
    {
        let ghost old_src = src@;
        let ghost old_out = out@;
        let e = src.pop().unwrap();
        let key = chars_of(e.name.as_str());
        let mut p: usize = 0;
        while p < out.len() && entry_before_eq(&keys[p], out[p].kind, &key, e.kind)
            invariant
                p <= out@.len(),
                out@ == old_out,
                key@ == e.name@,
                keys@.len() == out@.len(),
                forall|k: int| 0 <= k < out@.len() ==> #[trigger] keys@[k]@ == out@[k].name@,
                forall|k: int| 0 <= k < p ==> entry_le(#[trigger] out@[k]@, e@),
            decreases out@.len() - p,
        {
            p = p + 1;
        }
        proof {
            let le = by_entry();
            if p < out@.len() {
                assert(!entry_le(out@[p as int]@, e@));
                assert(le(out@[p as int]@, e@) || le(e@, out@[p as int]@));
                assert forall|k: int| p <= k < out@.len() implies entry_le(e@, #[trigger] out@[k]@) by {
                    if k > p {
                        assert(entry_le(out@[p as int]@, out@[k]@));
                        assert(le(e@, out@[p as int]@) && le(out@[p as int]@, out@[k]@));
                    }
                }
            }
        }
        out.insert(p, e);
        keys.insert(p, key);
        proof {
            assert(old_src =~= src@.push(e));
            assert(entries_view(old_src) =~= entries_view(src@).push(e@));
            assert(entries_view(out@) =~= entries_view(old_out).insert(p as int, e@));
            assert forall|i: int, j: int| 0 <= i < j < out@.len() implies entry_le(
                #[trigger] out@[i]@,
                #[trigger] out@[j]@,
            ) by {
                if j < p {
                    assert(out@[i] == old_out[i] && out@[j] == old_out[j]);
                } else if j == p {
                    assert(out@[i] == old_out[i]);
                } else if i < p {
                    assert(out@[i] == old_out[i] && out@[j] == old_out[j - 1]);
                } else if i == p {
                    assert(out@[j] == old_out[j - 1]);
                } else {
                    assert(out@[i] == old_out[i - 1] && out@[j] == old_out[j - 1]);
                }
            }
            assert forall|k: int| 0 <= k < out@.len() implies #[trigger] keys@[k]@ == out@[k].name@ by {
                if k < p {
                } else if k > p {
                    assert(out@[k] == old_out[k - 1]);
                }
            }
        }
    }
    proof {
        let le = by_entry();
        let v = entries_view(out@);
        assert(entries_view(src@) =~= Seq::empty());
        assert(v.to_multiset() =~= input.to_multiset());
        assert forall|i: int, j: int| 0 <= i < j < v.len() implies #[trigger] le(v[i], v[j]) by {
            assert(entry_le(out@[i]@, out@[j]@));
        }
        input.lemma_sort_by_ensures(le);
        lemma_sorted_unique(v, input.sort_by(le), le);
    }
    out
}

/// What to list, and which entries to show.
#[derive(Clone, Debug)]
pub struct ListingOptions {
    /// Show dotfiles, and put `.` and `..` first.
    pub show_all: bool,
    /// Show dotfiles, without `.` and `..`.
    pub show_almost_all: bool,
    /// The directory to list.
    pub target_path: String,
}

/// Why a listing could not be made.
#[derive(Clone, Debug)]
pub enum ListError {
    /// The kind of a shown entry could not be told; the listing is abandoned
    /// rather than shown in part.
    UnknownType { name: String },
}

/// An entry of this name is left out.
pub open spec fn hidden(name: Seq<char>, show_all: bool, show_almost_all: bool) -> bool {
    !show_all && !show_almost_all && is_dotfile(name)
}

/// `p` put before a listing; an error stays as it is.
pub open spec fn prepend(
    p: Seq<(Seq<char>, Style)>,
    r: Result<Seq<(Seq<char>, Style)>, Seq<char>>,
) -> Result<Seq<(Seq<char>, Style)>, Seq<char>> {
    match r {
        Ok(v) => Ok(p + v),
        Err(n) => Err(n),
    }
}

/// The entries of `s` that are shown, in the order of `s`, each with its
/// style; or the name of the first shown entry whose kind is unknown.
pub open spec fn shown(s: Seq<(Seq<char>, Option<EntryKind>)>, show_all: bool, show_almost_all: bool) -> Result<Seq<(Seq<char>, Style)>, Seq<char>>
    decreases s.len(),
{
    if s.len() == 0 {
        Ok(Seq::empty())
    } else if hidden(s[0].0, show_all, show_almost_all) {
        shown(s.drop_first(), show_all, show_almost_all)
    } else {
        match s[0].1 {
            None => Err(s[0].0),
            Some(k) => prepend(seq![(s[0].0, style_spec(k))], shown(s.drop_first(), show_all, show_almost_all)),
        }
    }
}

/// `.` then `..`, both styled as directories, where all entries are asked for.
pub open spec fn dots(show_all: bool) -> Seq<(Seq<char>, Style)> {
    if show_all {
        seq![(seq!['.'], Style::Directory), (seq!['.', '.'], Style::Directory)]
    } else {
        Seq::empty()
    }
}

/// The listing of a directory holding `entries`.
pub open spec fn listing(entries: Seq<(Seq<char>, Option<EntryKind>)>, show_all: bool, show_almost_all: bool) -> Result<Seq<(Seq<char>, Style)>, Seq<char>> {
    prepend(dots(show_all), shown(entries.sort_by(by_entry()), show_all, show_almost_all))
}

/// The entries to show for a directory holding `entries`, in order.
pub fn list_entries(entries: Vec<DirectoryEntry>, options: &ListingOptions) -> (r: Result<Vec<DisplayEntry>, ListError>)
    ensures
        match r {
            Ok(v) => listing(entries_view(entries@), options.show_all, options.show_almost_all) == Ok::<Seq<(Seq<char>, Style)>, Seq<char>>(displays_view(v@)),
            Err(ListError::UnknownType { name }) => listing(entries_view(entries@), options.show_all, options.show_almost_all) == Err::<Seq<(Seq<char>, Style)>, Seq<char>>(name@),
        },
{
    let all = options.show_all;
    let almost = options.show_almost_all;
    let sorted = sort_entries(entries);
    let ghost sv = entries_view(sorted@);
    let mut out: Vec<DisplayEntry> = Vec::new();
    if all {
        let dot = ".".to_owned();
        let dotdot = "..".to_owned();
        proof {
            reveal_strlit(".");
            reveal_strlit("..");
            assert(dot@ =~= seq!['.']);
            assert(dotdot@ =~= seq!['.', '.']);
        }
        out.push(DisplayEntry { name: dot, style: Style::Directory });
        out.push(DisplayEntry { name: dotdot, style: Style::Directory });
    }
    proof {
        assert(displays_view(out@) =~= dots(all));
        assert(sv.skip(0) =~= sv);
    }
    let mut i: usize = 0;
    while i < sorted.len()
        invariant
            i <= sorted@.len(),
            sv == entries_view(sorted@),
            sv == entries_view(entries@).sort_by(by_entry()),
            all == options.show_all,
            almost == options.show_almost_all,
            prepend(dots(all), shown(sv, all, almost)) == prepend(displays_view(out@), shown(sv.skip(i as int), all, almost)),
        decreases sorted@.len() - i,
    {
        let ghost before = out@;
        let key = chars_of(sorted[i].name.as_str());
        proof {
            assert(sv.skip(i as int).drop_first() =~= sv.skip(i + 1));
            assert(sv.skip(i as int)[0] == sv[i as int]);
        }
        if all || almost || !starts_with_dot(&key) {
            match sorted[i].kind {
                None => {
                    proof {
                        assert(sv[i as int] == sorted@[i as int]@);
                        assert(shown(sv.skip(i as int), all, almost) == Err::<Seq<(Seq<char>, Style)>, Seq<char>>(sv[i as int].0));
                    }
                    return Err(ListError::UnknownType { name: sorted[i].name.clone() });
                },
                Some(k) => {
                    let name = sorted[i].name.clone();
                    let style = style_of(k);
                    out.push(DisplayEntry { name, style });
                    proof {
                        let item = seq![(sv[i as int].0, style_spec(k))];
                        assert(displays_view(out@) =~= displays_view(before) + item);
                        let rest = shown(sv.skip(i + 1), all, almost);
                        match rest {
                            Ok(w) => {
                                assert(displays_view(before) + (item + w) =~= displays_view(out@) + w);
                            },
                            Err(_) => {},
                        }
                    }
                },
            }
        }
        i = i + 1;
    }
    proof {
        assert(sv.skip(i as int) =~= Seq::empty());
        assert(displays_view(out@) + Seq::empty() =~= displays_view(out@));
    }
    Ok(out)
}

} // verus!
