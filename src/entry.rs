//! Directory entries as the file system reports them, and as they are shown.
use vstd::prelude::*;
use vstd::relations::*;
use crate::order::{lemma_name_lt_irreflexive, lemma_name_lt_total, lemma_name_lt_transitive, name_lt};

verus! {

/// What the operating system reports an entry to be.
#[derive(Clone, Copy, Debug, PartialEq, Eq, Structural)]
pub enum EntryKind {
    Directory,
    File,
    /// A symbolic link, a device, a socket, a pipe, or anything else.
    Other,
}

/// How an entry is shown.
#[derive(Clone, Copy, Debug, PartialEq, Eq, Structural)]
pub enum Style {
    Directory,
    Plain,
}

/// One entry of a directory: its name and, where the operating system could
/// report it, its kind.
#[derive(Clone, Debug)]
pub struct DirectoryEntry {
    pub name: String,
    pub kind: Option<EntryKind>,
}

/// A name ready to be shown, with its style.
#[derive(Clone, Debug)]
pub struct DisplayEntry {
    pub name: String,
    pub style: Style,
}

impl View for DirectoryEntry {
    type V = (Seq<char>, Option<EntryKind>);

    open spec fn view(&self) -> (Seq<char>, Option<EntryKind>) {
        (self.name@, self.kind)
    }
}

impl View for DisplayEntry {
    type V = (Seq<char>, Style);

    open spec fn view(&self) -> (Seq<char>, Style) {
        (self.name@, self.style)
    }
}

pub open spec fn entries_view(s: Seq<DirectoryEntry>) -> Seq<(Seq<char>, Option<EntryKind>)> {
    s.map_values(|e: DirectoryEntry| e@)
}

pub open spec fn displays_view(s: Seq<DisplayEntry>) -> Seq<(Seq<char>, Style)> {
    s.map_values(|e: DisplayEntry| e@)
}

/// Directories get their own style; every other kind is plain.
pub open spec fn style_spec(k: EntryKind) -> Style {
    match k {
        EntryKind::Directory => Style::Directory,
        _ => Style::Plain,
    }
}

pub fn style_of(k: EntryKind) -> (r: Style)
    ensures
        r == style_spec(k),
        r == Style::Directory <==> k == EntryKind::Directory,
{
    match k {
        EntryKind::Directory => Style::Directory,
        _ => Style::Plain,
    }
}

/// A dotfile is an entry whose name begins with `.`.
pub open spec fn is_dotfile(name: Seq<char>) -> bool {
    name.len() > 0 && name[0] == '.'
}

pub fn starts_with_dot(name: &Vec<char>) -> (r: bool)
    ensures
        r == is_dotfile(name@),
{
    name.len() > 0 && name[0] == '.'
}

/// Breaks ties between entries of one name, so that entries are totally
/// ordered. Within one directory names are distinct, so the listing is ordered
/// by name alone.
pub open spec fn kind_rank(k: Option<EntryKind>) -> int {
    match k {
        None => 0,
        Some(EntryKind::Directory) => 1,
        Some(EntryKind::File) => 2,
        Some(EntryKind::Other) => 3,
    }
}

/// Entries ordered by name, and entries of one name by kind.
pub open spec fn entry_le(a: (Seq<char>, Option<EntryKind>), b: (Seq<char>, Option<EntryKind>)) -> bool {
    name_lt(a.0, b.0) || (a.0 == b.0 && kind_rank(a.1) <= kind_rank(b.1))
}

/// `entry_le` is a total order.
pub proof fn lemma_entry_le_total_ordering()
    ensures
        total_ordering(|a: (Seq<char>, Option<EntryKind>), b: (Seq<char>, Option<EntryKind>)| entry_le(a, b)),
{
    let le = |a: (Seq<char>, Option<EntryKind>), b: (Seq<char>, Option<EntryKind>)| entry_le(a, b);
    assert forall|x: (Seq<char>, Option<EntryKind>), y: (Seq<char>, Option<EntryKind>)|
        #[trigger] le(x, y) && #[trigger] le(y, x) implies x == y by {
        lemma_name_lt_total(x.0, y.0);
        lemma_name_lt_irreflexive(x.0);
    }
    assert forall|x: (Seq<char>, Option<EntryKind>), y: (Seq<char>, Option<EntryKind>), z: (Seq<char>, Option<EntryKind>)|
        #[trigger] le(x, y) && #[trigger] le(y, z) implies le(x, z) by {
        if name_lt(x.0, y.0) && name_lt(y.0, z.0) {
            lemma_name_lt_transitive(x.0, y.0, z.0);
        }
    }
    assert forall|x: (Seq<char>, Option<EntryKind>), y: (Seq<char>, Option<EntryKind>)|
        #[trigger] le(x, y) || #[trigger] le(y, x) by {
        lemma_name_lt_total(x.0, y.0);
    }
}

} // verus!
