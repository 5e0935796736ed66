//! Rendering a listing as one line of text, directories in blue.
use colored::Colorize;
use vstd::prelude::*;
use crate::entry::{entries_view, DirectoryEntry, DisplayEntry, Style};
use crate::listing::{list_entries, listing, ListError, ListingOptions};

verus! {

/// The sequence that turns the foreground blue.
pub open spec fn blue_on() -> Seq<char> {
    seq!['\x1b', '[', '3', '4', 'm']
}

/// The sequence that resets all styling.
pub open spec fn style_reset() -> Seq<char> {
    seq!['\x1b', '[', '0', 'm']
}

/// Relies on colored's `Colorize::blue` and on how its `ColoredString` is
/// displayed: the text unchanged where colouring is switched off, else the text
/// between the blue and reset sequences, and unchanged inside them where it
/// holds no escape character.
#[verifier::external_body]
fn paint_blue(text: &str) -> (r: String)
    ensures
        !text@.contains('\x1b') ==> (r@ == text@ || r@ == blue_on() + text@ + style_reset()),
{
    text.blue().to_string()
}

/// `t` is how the entry `e` may be written: a plain name as it is, a
/// directory's name in blue where the terminal is coloured.
pub open spec fn styled_as(e: (Seq<char>, Style), t: Seq<char>) -> bool {
    match e.1 {
        Style::Plain => t == e.0,
        Style::Directory => !e.0.contains('\x1b') ==> (t == e.0 || t == blue_on() + e.0 + style_reset()),
    }
}

/// The text that shows one entry.
pub fn styled_name(e: &DisplayEntry) -> (r: String)
    ensures
        styled_as(e@, r@),
{
    match e.style {
        Style::Directory => paint_blue(e.name.as_str()),
        Style::Plain => e.name.clone(),
    }
}

/// The pieces, each followed by two spaces.
pub open spec fn joined(pieces: Seq<Seq<char>>) -> Seq<char>
    decreases pieces.len(),
{
    if pieces.len() == 0 {
        Seq::empty()
    } else {
        joined(pieces.drop_last()) + pieces.last() + seq![' ', ' ']
    }
}

/// The line that shows the pieces: each followed by two spaces, then a
/// newline.
pub open spec fn line_of(pieces: Seq<Seq<char>>) -> Seq<char> {
    joined(pieces) + seq!['\n']
}

pub open spec fn strings_view(s: Seq<String>) -> Seq<Seq<char>> {
    s.map_values(|t: String| t@)
}

/// Puts already styled pieces on one line.
pub fn render_line(pieces: &Vec<String>) -> (r: String)
    ensures
        r@ == line_of(strings_view(pieces@)),
{
    let mut out = String::new();
    let mut i: usize = 0;
    while i < pieces.len()
        invariant
            i <= pieces@.len(),
            out@ == joined(strings_view(pieces@.take(i as int))),
        decreases pieces@.len() - i,
    {
        out.append(pieces[i].as_str());
        out.append("  ");
        proof {
            reveal_strlit("  ");
            assert(pieces@.take(i + 1).drop_last() =~= pieces@.take(i as int));
            assert(strings_view(pieces@.take(i + 1)).drop_last() =~= strings_view(pieces@.take(i as int)));
        }
        i = i + 1;
    }
    out.append("\n");
    proof {
        reveal_strlit("\n");
        assert(pieces@.take(i as int) =~= pieces@);
    }
    out
}

/// The line that shows a listing.
pub fn render(entries: &Vec<DisplayEntry>) -> (r: String)
    ensures
        exists|pieces: Seq<Seq<char>>|
            {
                &&& pieces.len() == entries@.len()
                &&& forall|i: int| 0 <= i < entries@.len() ==> styled_as(#[trigger] entries@[i]@, pieces[i])
                &&& r@ == line_of(pieces)
            },
{
    let mut pieces: Vec<String> = Vec::new();
    let mut i: usize = 0;
    while i < entries.len()
        invariant
            i <= entries@.len(),
            pieces@.len() == i,
            forall|k: int| 0 <= k < i ==> styled_as(#[trigger] entries@[k]@, pieces@[k]@),
        decreases entries@.len() - i,
    {
        let t = styled_name(&entries[i]);
        pieces.push(t);
        i = i + 1;
    }
    let r = render_line(&pieces);
    assert(r@ == line_of(strings_view(pieces@)));
    r
}

/// The line that lists a directory holding `entries`, or why there is none.
pub fn listing_line(entries: Vec<DirectoryEntry>, options: &ListingOptions) -> (r: Result<String, ListError>)
    ensures
        match listing(entries_view(entries@), options.show_all, options.show_almost_all) {
            Ok(v) => r is Ok && exists|pieces: Seq<Seq<char>>|
                {
                    &&& pieces.len() == v.len()
                    &&& forall|i: int| 0 <= i < v.len() ==> styled_as(#[trigger] v[i], pieces[i])
                    &&& r->Ok_0@ == line_of(pieces)
                },
            Err(n) => r is Err && (r->Err_0 matches ListError::UnknownType { name } && name@ == n),
        },
{
    match list_entries(entries, options) {
        Ok(v) => {
            let line = render(&v);
            Ok(line)
        },
        Err(e) => Err(e),
    }
}

} // verus!
