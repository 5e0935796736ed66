use ls::args::LsArgs;
use ls::entry::{style_of, DirectoryEntry, DisplayEntry, EntryKind, Style};
use ls::listing::{list_entries, sort_entries, ListError, ListingOptions};
use ls::order::{chars_of, name_before};
use ls::render::{listing_line, render, render_line, styled_name};

fn entry(name: &str, kind: Option<EntryKind>) -> DirectoryEntry {
    DirectoryEntry { name: name.to_string(), kind }
}

fn sample() -> Vec<DirectoryEntry> {
    vec![
        entry("b.txt", Some(EntryKind::File)),
        entry("a.txt", Some(EntryKind::File)),
        entry(".hidden", Some(EntryKind::File)),
        entry("sub", Some(EntryKind::Directory)),
    ]
}

fn options(show_all: bool, show_almost_all: bool) -> ListingOptions {
    ListingOptions { show_all, show_almost_all, target_path: ".".to_string() }
}

fn names(v: &[DisplayEntry]) -> Vec<String> {
    v.iter().map(|e| e.name.clone()).collect()
}

fn styles(v: &[DisplayEntry]) -> Vec<Style> {
    v.iter().map(|e| e.style).collect()
}

#[test]
fn default_listing_hides_dotfiles_and_sorts() {
    let v = list_entries(sample(), &options(false, false)).unwrap();
    assert_eq!(names(&v), vec!["a.txt", "b.txt", "sub"]);
    assert_eq!(styles(&v), vec![Style::Plain, Style::Plain, Style::Directory]);
}

#[test]
fn default_line_without_colour() {
    colored::control::set_override(false);
    let line = listing_line(sample(), &options(false, false)).unwrap();
    assert_eq!(line, "a.txt  b.txt  sub  \n");
}

#[test]
fn default_line_colours_the_directory() {
    colored::control::set_override(true);
    let line = listing_line(sample(), &options(false, false)).unwrap();
    assert_eq!(line, "a.txt  b.txt  \x1b[34msub\x1b[0m  \n");
}

#[test]
fn all_lists_dots_first_then_everything() {
    let v = list_entries(sample(), &options(true, false)).unwrap();
    assert_eq!(names(&v), vec![".", "..", ".hidden", "a.txt", "b.txt", "sub"]);
    assert_eq!(
        styles(&v),
        vec![Style::Directory, Style::Directory, Style::Plain, Style::Plain, Style::Plain, Style::Directory]
    );
}

#[test]
fn all_line_without_colour() {
    colored::control::set_override(false);
    let line = listing_line(sample(), &options(true, false)).unwrap();
    assert_eq!(line, ".  ..  .hidden  a.txt  b.txt  sub  \n");
}

#[test]
fn almost_all_lists_dotfiles_without_dots() {
    let v = list_entries(sample(), &options(false, true)).unwrap();
    assert_eq!(names(&v), vec![".hidden", "a.txt", "b.txt", "sub"]);
}

#[test]
fn both_flags_list_dots() {
    let v = list_entries(sample(), &options(true, true)).unwrap();
    assert_eq!(names(&v), vec![".", "..", ".hidden", "a.txt", "b.txt", "sub"]);
}

#[test]
fn empty_directory_prints_a_newline() {
    colored::control::set_override(false);
    let v = list_entries(vec![], &options(false, false)).unwrap();
    assert!(v.is_empty());
    assert_eq!(render(&v), "\n");
    assert_eq!(listing_line(vec![], &options(false, false)).unwrap(), "\n");
}

#[test]
fn empty_directory_with_all_lists_dots() {
    colored::control::set_override(false);
    assert_eq!(listing_line(vec![], &options(true, false)).unwrap(), ".  ..  \n");
}

#[test]
fn order_does_not_depend_on_reading_order() {
    let mut reversed = sample();
    reversed.reverse();
    let a = list_entries(sample(), &options(true, false)).unwrap();
    let b = list_entries(reversed, &options(true, false)).unwrap();
    assert_eq!(names(&a), names(&b));
    assert_eq!(styles(&a), styles(&b));
}

#[test]
fn sort_is_by_code_point() {
    let input = vec![
        entry("ab", Some(EntryKind::File)),
        entry("a", Some(EntryKind::File)),
        entry("B", Some(EntryKind::File)),
        entry("é", Some(EntryKind::File)),
        entry("z", Some(EntryKind::File)),
        entry("_", Some(EntryKind::File)),
    ];
    let sorted: Vec<String> = sort_entries(input).into_iter().map(|e| e.name).collect();
    assert_eq!(sorted, vec!["B", "_", "a", "ab", "z", "é"]);
}

#[test]
fn name_comparison() {
    let a = chars_of("abc");
    let b = chars_of("abd");
    let p = chars_of("ab");
    assert_eq!(a, vec!['a', 'b', 'c']);
    assert!(name_before(&a, &b));
    assert!(!name_before(&b, &a));
    assert!(name_before(&p, &a));
    assert!(!name_before(&a, &a));
}

#[test]
fn unknown_type_of_a_shown_entry_fails() {
    let input = vec![entry("b", Some(EntryKind::File)), entry("a", None), entry("c", None)];
    match list_entries(input, &options(false, false)) {
        Err(ListError::UnknownType { name }) => assert_eq!(name, "a"),
        Ok(_) => panic!("expected an error"),
    }
}

#[test]
fn unknown_type_of_a_hidden_entry_is_ignored() {
    let input = vec![entry("b", Some(EntryKind::File)), entry(".a", None)];
    let v = list_entries(input.clone(), &options(false, false)).unwrap();
    assert_eq!(names(&v), vec!["b"]);
    assert!(matches!(
        list_entries(input, &options(false, true)),
        Err(ListError::UnknownType { .. })
    ));
}

#[test]
fn only_directories_get_their_own_style() {
    assert_eq!(style_of(EntryKind::Directory), Style::Directory);
    assert_eq!(style_of(EntryKind::File), Style::Plain);
    assert_eq!(style_of(EntryKind::Other), Style::Plain);
    let input = vec![entry("link", Some(EntryKind::Other)), entry("dir", Some(EntryKind::Directory))];
    let v = list_entries(input, &options(false, false)).unwrap();
    assert_eq!(styles(&v), vec![Style::Directory, Style::Plain]);
}

#[test]
fn styled_names() {
    colored::control::set_override(true);
    let dir = DisplayEntry { name: "d".to_string(), style: Style::Directory };
    let file = DisplayEntry { name: "f".to_string(), style: Style::Plain };
    assert_eq!(styled_name(&dir), "\x1b[34md\x1b[0m");
    assert_eq!(styled_name(&file), "f");
    colored::control::set_override(false);
    assert_eq!(styled_name(&dir), "d");
}

#[test]
fn line_of_pieces() {
    assert_eq!(render_line(&vec!["x".to_string(), "y".to_string()]), "x  y  \n");
    assert_eq!(render_line(&vec![]), "\n");
}

#[test]
fn arguments_give_options() {
    let args = LsArgs { all: true, almost_all: false, long_listing: true, value: "/tmp".to_string() };
    let o = args.options();
    assert!(o.show_all);
    assert!(!o.show_almost_all);
    assert_eq!(o.target_path, "/tmp");
}
