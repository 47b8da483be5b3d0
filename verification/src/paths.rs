//! Filesystem candidates for a path being typed.

use vstd::prelude::*;
use vstd::string::*;

use crate::commands::{argument_views, build_text, ArgumentView, CommandArgument};
use crate::scoring::{has_prefix, starts_with};
use crate::strings::{chars_of, ends_are_boundaries, same_text, slice_text, utf8};
use crate::text::push_char;

verus! {

/// One entry of a directory.
pub struct DirectoryEntry {
    /// Its name.
    pub name: String,
    /// Whether it is a directory itself.
    pub directory: bool,
}

/// The names of directory entries, and whether they are directories.
pub open spec fn entry_pairs(entries: Seq<DirectoryEntry>) -> Seq<(Seq<char>, bool)> {
    entries.map_values(|entry: DirectoryEntry| (entry.name@, entry.directory))
}

/// Where a path being typed points.
pub enum Origin {
    /// At the home directory itself, offered as such.
    Home,
    /// At a place under the home directory.
    UnderHome(String),
    /// At the working directory.
    Here,
    /// Where it says.
    Typed,
}

/// Where a path being typed points.
pub enum OriginView {
    /// At the home directory itself.
    Home,
    /// At a place under the home directory.
    UnderHome(Seq<char>),
    /// At the working directory.
    Here,
    /// Where it says.
    Typed,
}

impl View for Origin {
    type V = OriginView;

    open spec fn view(&self) -> OriginView {
        match *self {
            Origin::Home => OriginView::Home,
            Origin::UnderHome(rest) => OriginView::UnderHome(rest@),
            Origin::Here => OriginView::Here,
            Origin::Typed => OriginView::Typed,
        }
    }
}

/// Whether a character separates the names of a path.
pub open spec fn separates(c: char) -> bool {
    c == '/' || c == '\\'
}

/// A path without the separators it starts with, from `at` on.
pub open spec fn past_separators(path: Seq<char>, at: int) -> Seq<char>
    decreases path.len() - at,
{
    if 0 <= at < path.len() && separates(path[at]) {
        past_separators(path, at + 1)
    } else {
        path.subrange(at, path.len() as int)
    }
}

/// Where a path being typed points: a tilde stands for the home directory, and
/// nothing for the working directory.
pub open spec fn origin_of(partial: Seq<char>) -> OriginView {
    if partial.len() == 0 {
        OriginView::Here
    } else if partial[0] != '~' {
        OriginView::Typed
    } else if partial.len() == 1 {
        OriginView::Home
    } else {
        OriginView::UnderHome(past_separators(partial, 1))
    }
}

/// Finds where a path being typed points.
pub fn origin(partial: &str) -> (found: Origin)
    ensures
        found@ == origin_of(partial@),
{
    let chars: Vec<char> = chars_of(partial);
    if chars.len() == 0 {
        return Origin::Here;
    }
    if chars[0] != '~' {
        return Origin::Typed;
    }
    if chars.len() == 1 {
        return Origin::Home;
    }
    let mut at: usize = 1;
    while at < chars.len() && (chars[at] == '/' || chars[at] == '\\')
        invariant
            1 <= at <= chars.len(),
            past_separators(chars@, 1) == past_separators(chars@, at as int),
        decreases chars.len() - at,
    {
        at += 1;
    }
    Origin::UnderHome(build_text(&chars, at, chars.len()))
}

/// Whether a path being typed names a directory to list as a whole, and not the
/// start of a name in one.
pub fn lists_whole(partial: &str) -> (whole: bool)
    ensures
        whole == (partial@.len() == 0 || separates(partial@.last())),
{
    let chars: Vec<char> = chars_of(partial);
    if chars.len() == 0 {
        return true;
    }
    let last: char = chars[chars.len() - 1];
    last == '/' || last == '\\'
}

/// Position behind the last separator before `at`.
pub open spec fn parent_end(bytes: Seq<u8>, at: int) -> int
    decreases at,
{
    if at <= 0 {
        0
    } else if bytes[at - 1] == 47 || bytes[at - 1] == 92 {
        at
    } else {
        parent_end(bytes, at - 1)
    }
}

/// The part of a path up to and with its last separator.
pub fn typed_parent(partial: &str) -> (parent: &str)
    ensures
        utf8(parent@) == utf8(partial@).subrange(
            0,
            parent_end(utf8(partial@), utf8(partial@).len() as int),
        ),
{
    let bytes: &[u8] = partial.as_bytes();
    let mut at: usize = bytes.len();
    while at > 0 && bytes[at - 1] != 47 && bytes[at - 1] != 92
        invariant
            at <= bytes.len(),
            bytes@ == utf8(partial@),
            parent_end(bytes@, bytes@.len() as int) == parent_end(bytes@, at as int),
        decreases at,
    {
        at -= 1;
    }
    proof {
        ends_are_boundaries(partial@);
        if at > 0 {
            crate::codes::ascii_byte_boundaries(partial@, at - 1);
        }
    }
    slice_text(partial, 0, at)
}

/// Whether `a` comes before `b`, byte by byte from `at` on.
pub open spec fn comes_before(a: Seq<u8>, b: Seq<u8>, at: int) -> bool
    decreases a.len() - at,
{
    if at >= b.len() {
        false
    } else if at >= a.len() {
        true
    } else if a[at] != b[at] {
        a[at] < b[at]
    } else {
        comes_before(a, b, at + 1)
    }
}

/// Whether `a` comes before `b` byte by byte.
pub fn is_before(a: &[u8], b: &[u8]) -> (yes: bool)
    ensures
        yes == comes_before(a@, b@, 0),
{
    let mut at: usize = 0;
    while at < a.len() && at < b.len() && a[at] == b[at]
        invariant
            at <= a.len(),
            at <= b.len(),
            comes_before(a@, b@, 0) == comes_before(a@, b@, at as int),
        decreases a.len() - at,
    {
        at += 1;
    }
    if at >= b.len() {
        false
    } else if at >= a.len() {
        true
    } else {
        a[at] < b[at]
    }
}

/// The candidate of a directory entry: a directory ends with the separator.
pub open spec fn path_candidate(
    parent: Seq<char>,
    name: Seq<char>,
    directory: bool,
    separator: char,
) -> ArgumentView {
    ArgumentView {
        value: if directory {
            parent + name + seq![separator]
        } else {
            parent + name
        },
        description: if directory {
            "directory"@
        } else {
            "file"@
        },
        usage: None,
    }
}

/// Whether an entry is offered: it starts as typed and is no repository.
pub open spec fn offered_name(name: Seq<char>, prefix: Seq<u8>) -> bool {
    name != ".git"@ && starts_with(utf8(name), prefix)
}

/// Where a candidate goes among the first `at` of a sorted list.
pub open spec fn sorted_position(list: Seq<ArgumentView>, item: ArgumentView, at: int) -> int
    decreases at,
{
    if at <= 0 {
        0
    } else if comes_before(utf8(item.value), utf8(list[at - 1].value), 0) {
        sorted_position(list, item, at - 1)
    } else {
        at
    }
}

/// The candidates with those of the entries from `at` on, sorted by path.
pub open spec fn path_candidates(
    list: Seq<ArgumentView>,
    entries: Seq<(Seq<char>, bool)>,
    parent: Seq<char>,
    prefix: Seq<u8>,
    separator: char,
    at: int,
) -> Seq<ArgumentView>
    decreases entries.len() - at,
{
    if at >= entries.len() {
        list
    } else if !offered_name(entries[at].0, prefix) {
        path_candidates(list, entries, parent, prefix, separator, at + 1)
    } else {
        let item = path_candidate(parent, entries[at].0, entries[at].1, separator);
        path_candidates(
            list.insert(sorted_position(list, item, list.len() as int), item),
            entries,
            parent,
            prefix,
            separator,
            at + 1,
        )
    }
}

/// The candidates for a path being typed: `parent` is its directory part as
/// typed, `prefix` the start of the wanted name, and `entries` what the
/// directory holds.
pub fn path_arguments(
    parent: &str,
    prefix: &str,
    entries: &Vec<DirectoryEntry>,
    separator: char,
) -> (candidates: Vec<CommandArgument>)
    ensures
        argument_views(candidates@) == path_candidates(
            Seq::empty(),
            entry_pairs(entries@),
            parent@,
            utf8(prefix@),
            separator,
            0,
        ),
{
    let ghost pairs = entry_pairs(entries@);
    let mut list: Vec<CommandArgument> = Vec::new();
    let mut at: usize = 0;
    assert(argument_views(list@) =~= Seq::<ArgumentView>::empty());
    while at < entries.len()
        invariant
            at <= entries.len(),
            pairs == entry_pairs(entries@),
            path_candidates(Seq::empty(), pairs, parent@, utf8(prefix@), separator, 0)
                == path_candidates(
                argument_views(list@),
                pairs,
                parent@,
                utf8(prefix@),
                separator,
                at as int,
            ),
        decreases entries.len() - at,
    {
        let entry: &DirectoryEntry = &entries[at];
        assert(pairs[at as int] == (entry.name@, entry.directory));
        if !same_text(entry.name.as_str(), ".git") && has_prefix(
            entry.name.as_str().as_bytes(),
            prefix.as_bytes(),
        ) {
            let mut value: String = parent.to_owned();
            value.append(entry.name.as_str());
            if entry.directory {
                push_char(&mut value, separator);
                assert(value@ =~= parent@ + entry.name@ + seq![separator]);
            }
            let description: String = if entry.directory {
                "directory".to_owned()
            } else {
                "file".to_owned()
            };
            insert_sorted(&mut list, CommandArgument { value, description, usage: None });
        }
        at += 1;
    }
    list
}

/// Puts a candidate in where it belongs.
fn insert_sorted(list: &mut Vec<CommandArgument>, item: CommandArgument)
    ensures
        argument_views(final(list)@) == argument_views(old(list)@).insert(
            sorted_position(
                argument_views(old(list)@),
                item@,
                argument_views(old(list)@).len() as int,
            ),
            item@,
        ),
{
    let ghost views = argument_views(list@);
    let mut at: usize = list.len();
    while at > 0 && is_before(item.value.as_str().as_bytes(), list[at - 1].value.as_str().as_bytes())
        invariant
            at <= list.len(),
            views == argument_views(list@),
            *list == *old(list),
            sorted_position(views, item@, views.len() as int) == sorted_position(
                views,
                item@,
                at as int,
            ),
        decreases at,
    {
        assert(views[at - 1] == list@[at - 1]@);
        at -= 1;
    }
    proof {
        if at > 0 {
            assert(views[at - 1] == list@[at - 1]@);
        }
    }
    let ghost added = item@;
    list.insert(at, item);
    assert(argument_views(list@) =~= views.insert(at as int, added));
}

/// The candidates for a lone `~`.
pub fn home_argument() -> (candidate: CommandArgument)
    ensures
        candidate@ == (ArgumentView {
            value: "~/"@,
            description: "home directory"@,
            usage: None,
        }),
{
    CommandArgument {
        value: "~/".to_owned(),
        description: "home directory".to_owned(),
        usage: None,
    }
}

} // verus!
