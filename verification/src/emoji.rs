//! Emoticons and emoji shortcodes.

use vstd::prelude::*;
use vstd::slice::*;
use vstd::string::*;

use crate::buffer::{BufferView, EditBuffer};
use crate::completion::{
    suggestion_views, DisplayView, Picker, PickerView, Suggestion, SuggestionDisplay,
    SuggestionView,
};
use crate::scoring::{
    has_prefix, is_at, lower_bytes, same_bytes, stands_at, starts_with, to_lower_bytes,
};
use crate::strings::{
    at_boundary, boundary, byte_len, ends_are_boundaries, slice_text, utf8, utf8_of_concat,
};
use crate::text::push_char;

verus! {

/// Most rows of the built-in emoji dropdown.
pub const MAX_EMOJI_SUGGESTIONS: usize = 12;

/// Emoticons and the emoji they stand for, in the order they are tried.
pub open spec fn emoticons() -> Seq<(Seq<char>, Seq<char>)> {
    seq![
        (":'-("@, "😢"@),
        (">:-("@, "😠"@),
        (":-)"@, "🙂"@),
        (":-("@, "🙁"@),
        (":-D"@, "😃"@),
        (":-P"@, "😛"@),
        (":-p"@, "😛"@),
        (":-O"@, "😮"@),
        (":-o"@, "😮"@),
        (":-|"@, "😐"@),
        (":-/"@, "😕"@),
        (":-\\"@, "😕"@),
        (":-*"@, "😘"@),
        (";-)"@, "😉"@),
        (";-P"@, "😜"@),
        (":')"@, "🥲"@),
        (":'D"@, "😂"@),
        (":'("@, "😢"@),
        ("</3"@, "💔"@),
        (">:("@, "😠"@),
        ("B-)"@, "😎"@),
        ("8-)"@, "😎"@),
        ("o.O"@, "😳"@),
        ("O.o"@, "😳"@),
        (":)"@, "🙂"@),
        (":("@, "🙁"@),
        (":D"@, "😃"@),
        (":P"@, "😛"@),
        (":p"@, "😛"@),
        (":O"@, "😮"@),
        (":o"@, "😮"@),
        (":|"@, "😐"@),
        (":/"@, "😕"@),
        (":\\"@, "😕"@),
        (":*"@, "😘"@),
        (";)"@, "😉"@),
        (":3"@, "😺"@),
        ("<3"@, "❤️"@),
        ("xD"@, "😆"@),
        ("XD"@, "😆"@),
        ("B)"@, "😎"@),
        ("8)"@, "😎"@),
    ]
}

/// Emoticons and the emoji they stand for, in the order they are tried.
pub fn emoticon_table() -> (table: Vec<(&'static str, &'static str)>)
    ensures
        table.len() == emoticons().len(),
        forall|i: int|
            0 <= i < table.len() ==> (#[trigger] table@[i]).0@ == emoticons()[i].0
                && table@[i].1@ == emoticons()[i].1,
{
    vec![
        (":'-(", "😢"),
        (">:-(", "😠"),
        (":-)", "🙂"),
        (":-(", "🙁"),
        (":-D", "😃"),
        (":-P", "😛"),
        (":-p", "😛"),
        (":-O", "😮"),
        (":-o", "😮"),
        (":-|", "😐"),
        (":-/", "😕"),
        (":-\\", "😕"),
        (":-*", "😘"),
        (";-)", "😉"),
        (";-P", "😜"),
        (":')", "🥲"),
        (":'D", "😂"),
        (":'(", "😢"),
        ("</3", "💔"),
        (">:(", "😠"),
        ("B-)", "😎"),
        ("8-)", "😎"),
        ("o.O", "😳"),
        ("O.o", "😳"),
        (":)", "🙂"),
        (":(", "🙁"),
        (":D", "😃"),
        (":P", "😛"),
        (":p", "😛"),
        (":O", "😮"),
        (":o", "😮"),
        (":|", "😐"),
        (":/", "😕"),
        (":\\", "😕"),
        (":*", "😘"),
        (";)", "😉"),
        (":3", "😺"),
        ("<3", "❤️"),
        ("xD", "😆"),
        ("XD", "😆"),
        ("B)", "😎"),
        ("8)", "😎"),
    ]
}

/// One emoji of the shortcode catalog.
pub struct EmojiEntry {
    /// The shortcode name, in lower case.
    pub name: String,
    /// The emoji.
    pub emoji: String,
}

/// The names and emoji of a catalog.
pub open spec fn entry_views(catalog: Seq<EmojiEntry>) -> Seq<(Seq<char>, Seq<char>)> {
    catalog.map_values(|entry: EmojiEntry| (entry.name@, entry.emoji@))
}

/// Whether a byte may stand in a shortcode name.
pub open spec fn name_byte(byte: u8) -> bool {
    48 <= byte <= 57 || 65 <= byte <= 90 || 97 <= byte <= 122 || byte == 95 || byte == 43 || byte
        == 45
}

/// Whether a byte may stand in a shortcode name.
pub fn is_name_byte(byte: u8) -> (yes: bool)
    ensures
        yes == name_byte(byte),
{
    byte >= 48 && byte <= 57 || byte >= 65 && byte <= 90 || byte >= 97 && byte <= 122 || byte == 95
        || byte == 43 || byte == 45
}

/// Whether an emoticon or shortcode may start at a byte.
pub open spec fn left_boundary(bytes: Seq<u8>, index: int) -> bool {
    index == 0 || {
        let byte = bytes[index - 1];
        byte == 32 || byte == 9 || byte == 10 || byte == 13 || byte == 40 || byte == 91 || byte
            == 123 || byte == 62
    }
}

/// Whether an emoticon or shortcode may start at a byte.
pub fn has_left_boundary(bytes: &[u8], index: usize) -> (yes: bool)
    requires
        index <= bytes.len(),
    ensures
        yes == left_boundary(bytes@, index as int),
{
    if index == 0 {
        return true;
    }
    let byte: u8 = bytes[index - 1];
    byte == 32 || byte == 9 || byte == 10 || byte == 13 || byte == 40 || byte == 91 || byte == 123
        || byte == 62
}

/// Start of the run of name bytes that ends before `at`.
pub open spec fn name_start(bytes: Seq<u8>, at: int) -> int
    decreases at,
{
    if at > 0 && name_byte(bytes[at - 1]) {
        name_start(bytes, at - 1)
    } else {
        at
    }
}

/// Start of the run of name bytes that ends before `at`.
fn find_name_start(bytes: &[u8], at: usize) -> (start: usize)
    requires
        at <= bytes.len(),
    ensures
        start == name_start(bytes@, at as int),
        start <= at,
        forall|i: int| start <= i < at ==> name_byte(bytes@[i]),
{
    let mut start: usize = at;
    while start > 0 && is_name_byte(bytes[start - 1])
        invariant
            start <= at <= bytes.len(),
            name_start(bytes@, at as int) == name_start(bytes@, start as int),
            forall|i: int| start <= i < at ==> name_byte(bytes@[i]),
        decreases start,
    {
        start -= 1;
    }
    start
}

/// End of the run of name bytes at `at`.
pub open spec fn name_stop(bytes: Seq<u8>, at: int) -> int
    decreases bytes.len() - at,
{
    if 0 <= at < bytes.len() && name_byte(bytes[at]) {
        name_stop(bytes, at + 1)
    } else {
        at
    }
}

/// End of the run of name bytes at the cursor.
pub fn emoji_token_end(text: &str, cursor: usize) -> (end: usize)
    requires
        boundary(utf8(text@), cursor as int),
    ensures
        end == name_stop(utf8(text@), cursor as int),
        cursor <= end <= utf8(text@).len(),
        boundary(utf8(text@), end as int),
{
    let bytes: &[u8] = text.as_bytes();
    let mut end: usize = cursor;
    while end < bytes.len() && is_name_byte(bytes[end])
        invariant
            cursor <= end <= bytes.len(),
            bytes@ == utf8(text@),
            boundary(bytes@, end as int),
            name_stop(bytes@, cursor as int) == name_stop(bytes@, end as int),
        decreases bytes.len() - end,
    {
        proof {
            crate::codes::ascii_byte_boundaries(text@, end as int);
        }
        end += 1;
    }
    end
}

/// The shortcode that a colon at the cursor closes: where it opens, and its
/// name in lower case.
pub open spec fn closed_shortcode(bytes: Seq<u8>, cursor: int) -> Option<(int, Seq<u8>)> {
    if cursor == 0 || bytes[cursor - 1] != 58 {
        None
    } else {
        let start = name_start(bytes, cursor - 1);
        if start == cursor - 1 || start == 0 || bytes[start - 1] != 58 || !left_boundary(
            bytes,
            start - 1,
        ) {
            None
        } else {
            Some((start - 1, lower_bytes(bytes.subrange(start, cursor - 1))))
        }
    }
}

/// The shortcode being typed at the cursor: where it opens, and its name so
/// far in lower case.
pub open spec fn open_shortcode(bytes: Seq<u8>, cursor: int) -> Option<(int, Seq<u8>)> {
    let start = name_start(bytes, cursor);
    if start == 0 || bytes[start - 1] != 58 || !left_boundary(bytes, start - 1) || start == cursor {
        None
    } else {
        Some((start - 1, lower_bytes(bytes.subrange(start, cursor))))
    }
}

/// The shortcode being typed at the cursor.
pub fn emoji_trigger(text: &str, cursor: usize) -> (trigger: Option<(usize, Vec<u8>)>)
    requires
        cursor <= utf8(text@).len(),
    ensures
        match trigger {
            Some((colon, query)) => open_shortcode(utf8(text@), cursor as int) == Some(
                (colon as int, query@),
            ) && boundary(utf8(text@), colon as int) && colon < cursor && query.len() > 0,
            None => open_shortcode(utf8(text@), cursor as int) is None,
        },
{
    let bytes: &[u8] = text.as_bytes();
    let start: usize = find_name_start(bytes, cursor);
    if start == 0 || bytes[start - 1] != 58 {
        return None;
    }
    if !has_left_boundary(bytes, start - 1) || start == cursor {
        return None;
    }
    proof {
        crate::codes::ascii_byte_boundaries(text@, start - 1);
    }
    let query: Vec<u8> = to_lower_bytes(slice_subrange(bytes, start, cursor));
    Some((start - 1, query))
}

/// The emoji of the first catalog entry, from `at` on, with the given name.
pub open spec fn named_emoji(catalog: Seq<(Seq<char>, Seq<char>)>, name: Seq<u8>, at: int) -> Option<
    Seq<char>,
>
    decreases catalog.len() - at,
{
    if at >= catalog.len() {
        None
    } else if utf8(catalog[at].0) == name {
        Some(catalog[at].1)
    } else {
        named_emoji(catalog, name, at + 1)
    }
}

/// The emoji with the given name.
pub fn lookup_emoji<'a>(catalog: &'a Vec<EmojiEntry>, name: &[u8]) -> (emoji: Option<&'a str>)
    ensures
        match emoji {
            Some(found) => named_emoji(entry_views(catalog@), name@, 0) == Some(found@),
            None => named_emoji(entry_views(catalog@), name@, 0) is None,
        },
{
    let ghost views = entry_views(catalog@);
    let mut at: usize = 0;
    while at < catalog.len()
        invariant
            at <= catalog.len(),
            views == entry_views(catalog@),
            named_emoji(views, name@, 0) == named_emoji(views, name@, at as int),
        decreases catalog.len() - at,
    {
        let entry: &EmojiEntry = &catalog[at];
        assert(views[at as int] == (entry.name@, entry.emoji@));
        if same_bytes(entry.name.as_str().as_bytes(), name) {
            return Some(entry.emoji.as_str());
        }
        at += 1;
    }
    None
}

/// The first emoticon, from `at` on, that ends before `tail`.
pub open spec fn emoticon_before(bytes: Seq<u8>, tail: int, at: int) -> Option<int>
    decreases emoticons().len() - at,
{
    if at >= emoticons().len() {
        None
    } else {
        let pattern = utf8(emoticons()[at].0);
        if stands_at(bytes, pattern, tail - pattern.len()) && left_boundary(
            bytes,
            tail - pattern.len(),
        ) {
            Some(at)
        } else {
            emoticon_before(bytes, tail, at + 1)
        }
    }
}

/// Whether an emoticon may end before a byte.
pub open spec fn right_boundary(bytes: Seq<u8>, end: int) -> bool {
    end == bytes.len() || bytes[end] == 32 || bytes[end] == 9 || bytes[end] == 10 || bytes[end]
        == 13
}

/// The first emoticon, from `at` on, that stands at `index` on its own.
pub open spec fn emoticon_at(bytes: Seq<u8>, index: int, at: int) -> Option<int>
    decreases emoticons().len() - at,
{
    if at >= emoticons().len() {
        None
    } else {
        let pattern = utf8(emoticons()[at].0);
        if stands_at(bytes, pattern, index) && right_boundary(bytes, index + pattern.len()) {
            Some(at)
        } else {
            emoticon_at(bytes, index, at + 1)
        }
    }
}

/// The bytes from `index` on with every emoticon replaced by its emoji.
pub open spec fn emoticons_replaced(bytes: Seq<u8>, index: int) -> Seq<u8>
    decreases bytes.len() - index,
{
    if index >= bytes.len() || index < 0 {
        Seq::empty()
    } else {
        let found = if left_boundary(bytes, index) {
            emoticon_at(bytes, index, 0)
        } else {
            None
        };
        match found {
            Some(i) => {
                let end = index + utf8(emoticons()[i].0).len();
                if index < end <= bytes.len() {
                    utf8(emoticons()[i].1) + emoticons_replaced(bytes, end)
                } else {
                    Seq::empty()
                }
            },
            None => seq![bytes[index]] + emoticons_replaced(bytes, index + 1),
        }
    }
}

/// The first emoticon that stands at `index` on its own, and where it ends.
fn find_emoticon(
    text: &str,
    index: usize,
    table: &Vec<(&'static str, &'static str)>,
) -> (found: Option<(usize, usize)>)
    requires
        index < utf8(text@).len(),
        boundary(utf8(text@), index as int),
        table.len() == emoticons().len(),
        forall|i: int|
            0 <= i < table.len() ==> (#[trigger] table@[i]).0@ == emoticons()[i].0
                && table@[i].1@ == emoticons()[i].1,
    ensures
        match found {
            Some((i, end)) => emoticon_at(utf8(text@), index as int, 0) == Some(i as int) && i
                < table.len() && end == index + utf8(emoticons()[i as int].0).len() && end <= utf8(
                text@,
            ).len() && boundary(utf8(text@), end as int),
            None => emoticon_at(utf8(text@), index as int, 0) is None,
        },
{
    let bytes: &[u8] = text.as_bytes();
    let mut at: usize = 0;
    while at < table.len()
        invariant
            at <= table.len(),
            bytes@ == utf8(text@),
            index < bytes.len(),
            boundary(bytes@, index as int),
            table.len() == emoticons().len(),
            forall|i: int|
                0 <= i < table.len() ==> (#[trigger] table@[i]).0@ == emoticons()[i].0
                    && table@[i].1@ == emoticons()[i].1,
            emoticon_at(bytes@, index as int, 0) == emoticon_at(bytes@, index as int, at as int),
        decreases table.len() - at,
    {
        let pattern: &[u8] = table[at].0.as_bytes();
        assert(table@[at as int].0@ == emoticons()[at as int].0);
        assert(pattern@ == utf8(emoticons()[at as int].0));
        if is_at(bytes, pattern, index) {
            let end: usize = index + pattern.len();
            if end == bytes.len() || bytes[end] == 32 || bytes[end] == 9 || bytes[end] == 10
                || bytes[end] == 13 {
                proof {
                    ends_are_boundaries(text@);
                    if end < bytes.len() {
                        crate::codes::ascii_byte_boundaries(text@, end as int);
                    }
                }
                return Some((at, end));
            }
        }
        at += 1;
    }
    None
}

/// Bytes of which none starts an emoticon stay as they are.
proof fn unreplaced_bytes_stay(bytes: Seq<u8>, from: int, to: int)
    requires
        0 <= from <= to <= bytes.len(),
        forall|i: int|
            from <= i < to ==> !left_boundary(bytes, i) || (#[trigger] emoticon_at(bytes, i, 0))
                is None,
    ensures
        emoticons_replaced(bytes, from) == bytes.subrange(from, to) + emoticons_replaced(
            bytes,
            to,
        ),
    decreases to - from,
{
    if from == to {
        assert(bytes.subrange(from, to) + emoticons_replaced(bytes, to) =~= emoticons_replaced(
            bytes,
            from,
        ));
    } else {
        assert(!left_boundary(bytes, from) || emoticon_at(bytes, from, 0) is None);
        unreplaced_bytes_stay(bytes, from + 1, to);
        assert(seq![bytes[from]] + (bytes.subrange(from + 1, to) + emoticons_replaced(bytes, to))
            =~= bytes.subrange(from, to) + emoticons_replaced(bytes, to));
    }
}

/// Emoticons start with a byte that starts a character and have at least one.
proof fn emoticons_lead(i: int)
    requires
        0 <= i < emoticons().len(),
    ensures
        utf8(emoticons()[i].0).len() > 0,
        !vstd::utf8::is_continuation_byte(utf8(emoticons()[i].0)[0]),
{
    emoticons_are_something(i);
    crate::strings::first_byte_leads(emoticons()[i].0);
}

/// No emoticon is empty.
proof fn emoticons_are_something(i: int)
    requires
        0 <= i < emoticons().len(),
    ensures
        emoticons()[i].0.len() > 0,
{
    reveal_strlit(":'-(");
    reveal_strlit(">:-(");
    reveal_strlit(":-)");
    reveal_strlit(":-(");
    reveal_strlit(":-D");
    reveal_strlit(":-P");
    reveal_strlit(":-p");
    reveal_strlit(":-O");
    reveal_strlit(":-o");
    reveal_strlit(":-|");
    reveal_strlit(":-/");
    reveal_strlit(":-\\");
    reveal_strlit(":-*");
    reveal_strlit(";-)");
    reveal_strlit(";-P");
    reveal_strlit(":')");
    reveal_strlit(":'D");
    reveal_strlit(":'(");
    reveal_strlit("</3");
    reveal_strlit(">:(");
    reveal_strlit("B-)");
    reveal_strlit("8-)");
    reveal_strlit("o.O");
    reveal_strlit("O.o");
    reveal_strlit(":)");
    reveal_strlit(":(");
    reveal_strlit(":D");
    reveal_strlit(":P");
    reveal_strlit(":p");
    reveal_strlit(":O");
    reveal_strlit(":o");
    reveal_strlit(":|");
    reveal_strlit(":/");
    reveal_strlit(":\\");
    reveal_strlit(":*");
    reveal_strlit(";)");
    reveal_strlit(":3");
    reveal_strlit("<3");
    reveal_strlit("xD");
    reveal_strlit("XD");
    reveal_strlit("B)");
    reveal_strlit("8)");
}

/// No emoticon starts inside a character.
proof fn emoticons_start_on_boundaries(bytes: Seq<u8>, index: int, at: int)
    requires
        0 <= at <= emoticons().len(),
        0 <= index < bytes.len(),
        !boundary(bytes, index),
    ensures
        emoticon_at(bytes, index, at) is None,
    decreases emoticons().len() - at,
{
    if at < emoticons().len() {
        emoticons_lead(at);
        let pattern = utf8(emoticons()[at].0);
        if stands_at(bytes, pattern, index) {
            assert(bytes.subrange(index, index + pattern.len())[0] == bytes[index]);
        }
        emoticons_start_on_boundaries(bytes, index, at + 1);
    }
}

/// `text` with every emoticon that stands on its own replaced by its emoji.
pub fn expand_emoticons(text: String) -> (result: String)
    ensures
        utf8(result@) == emoticons_replaced(utf8(text@), 0),
{
    let table: Vec<(&'static str, &'static str)> = emoticon_table();
    let ghost all = utf8(text@);
    let ghost goal = emoticons_replaced(all, 0);
    let length: usize = byte_len(text.as_str());
    proof {
        ends_are_boundaries(text@);
        reveal_strlit("");
        assert(utf8(""@) =~= Seq::<u8>::empty());
    }
    let mut output: String = "".to_owned();
    let mut copied: usize = 0;
    let mut index: usize = 0;
    assert(utf8(output@) + emoticons_replaced(all, 0) =~= goal);
    while index < length
        invariant
            copied <= index <= length,
            length == all.len(),
            all == utf8(text@),
            goal == emoticons_replaced(all, 0),
            boundary(all, copied as int),
            boundary(all, length as int),
            table.len() == emoticons().len(),
            forall|i: int|
                0 <= i < table.len() ==> (#[trigger] table@[i]).0@ == emoticons()[i].0
                    && table@[i].1@ == emoticons()[i].1,
            forall|i: int|
                copied <= i < index ==> !left_boundary(all, i) || (#[trigger] emoticon_at(
                    all,
                    i,
                    0,
                )) is None,
            utf8(output@) + emoticons_replaced(all, copied as int) == goal,
        decreases length - index,
    {
        let cut: bool = at_boundary(text.as_str(), index);
        if cut && has_left_boundary(text.as_str().as_bytes(), index) {
            if let Some((i, end)) = find_emoticon(text.as_str(), index, &table) {
                let ghost sofar = output@;
                let piece: &str = slice_text(text.as_str(), copied, index);
                output.append(piece);
                output.append(table[i].1);
                proof {
                    emoticons_lead(i as int);
                    unreplaced_bytes_stay(all, copied as int, index as int);
                    utf8_of_concat(sofar, piece@);
                    utf8_of_concat(sofar + piece@, table@[i as int].1@);
                    assert(utf8(output@) + emoticons_replaced(all, end as int) =~= utf8(sofar) + (
                    all.subrange(copied as int, index as int) + (utf8(emoticons()[i as int].1)
                        + emoticons_replaced(all, end as int))));
                }
                copied = end;
                index = end;
                continue;
            }
        }
        proof {
            if !cut {
                emoticons_start_on_boundaries(all, index as int, 0);
            }
        }
        index += 1;
    }
    let ghost sofar = output@;
    let piece: &str = slice_text(text.as_str(), copied, length);
    output.append(piece);
    proof {
        unreplaced_bytes_stay(all, copied as int, length as int);
        utf8_of_concat(sofar, piece@);
        assert(utf8(output@) =~= utf8(sofar) + (all.subrange(copied as int, length as int)
            + emoticons_replaced(all, length as int)));
    }
    output
}

/// The buffer with the shortcode closed at the cursor replaced by its emoji.
pub open spec fn shortcode_replaced(
    buffer: BufferView,
    catalog: Seq<(Seq<char>, Seq<char>)>,
) -> BufferView {
    match closed_shortcode(buffer.bytes, buffer.cursor) {
        Some((open, name)) => match named_emoji(catalog, name, 0) {
            Some(emoji) => buffer.with_replaced(open, buffer.cursor, utf8(emoji)),
            None => buffer,
        },
        None => buffer,
    }
}

/// The buffer with the emoticon before the last typed character replaced by
/// its emoji.
pub open spec fn emoticon_replaced(buffer: BufferView) -> BufferView {
    let ahead = crate::layout::part(buffer.bytes, 0, buffer.cursor);
    if ahead.len() == 0 {
        buffer
    } else {
        let tail = buffer.cursor - crate::strings::char_bytes(ahead.last());
        match emoticon_before(buffer.bytes, tail, 0) {
            Some(i) => buffer.with_replaced(
                tail - utf8(emoticons()[i].0).len(),
                buffer.cursor,
                utf8(emoticons()[i].1 + seq![ahead.last()]),
            ),
            None => buffer,
        }
    }
}

/// Whether an emoticon starts as typed, whatever the case.
pub open spec fn emoticon_fits(pattern: Seq<u8>, wanted: Seq<u8>) -> bool {
    pattern.len() >= wanted.len() && lower_bytes(pattern.subrange(0, wanted.len() as int))
        == lower_bytes(wanted)
}

/// The dropdown row of an emoji.
pub open spec fn emoji_row(emoji: Seq<char>, spelling: Seq<char>) -> SuggestionView {
    SuggestionView {
        value: emoji,
        display: DisplayView::Emoji { emoji, shortcode: spelling },
        description: None,
        icon: None,
        hint: None,
        category: Some("Emoji"@),
        match_spans: Seq::empty(),
        submits: false,
    }
}

/// Rows of the emoticons from `at` on that start as typed, as many as there
/// is room for.
pub open spec fn emoticon_rows(wanted: Seq<u8>, at: int, room: int) -> Seq<SuggestionView>
    decreases emoticons().len() - at,
{
    if at >= emoticons().len() || room <= 0 {
        Seq::empty()
    } else if emoticon_fits(utf8(emoticons()[at].0), wanted) {
        seq![emoji_row(emoticons()[at].1, emoticons()[at].0)] + emoticon_rows(
            wanted,
            at + 1,
            room - 1,
        )
    } else {
        emoticon_rows(wanted, at + 1, room)
    }
}

/// Rows of the catalog entries from `at` on whose names start with the query,
/// as many as there is room for.
pub open spec fn catalog_rows(
    catalog: Seq<(Seq<char>, Seq<char>)>,
    query: Seq<u8>,
    at: int,
    room: int,
) -> Seq<SuggestionView>
    decreases catalog.len() - at,
{
    if at >= catalog.len() || room <= 0 {
        Seq::empty()
    } else if starts_with(utf8(catalog[at].0), query) {
        seq![emoji_row(catalog[at].1, catalog[at].0)] + catalog_rows(
            catalog,
            query,
            at + 1,
            room - 1,
        )
    } else {
        catalog_rows(catalog, query, at + 1, room)
    }
}

/// All rows for a query: emoticons first.
pub open spec fn emoji_rows(catalog: Seq<(Seq<char>, Seq<char>)>, query: Seq<u8>) -> Seq<
    SuggestionView,
> {
    let first = emoticon_rows(seq![58u8] + query, 0, MAX_EMOJI_SUGGESTIONS as int);
    first + catalog_rows(catalog, query, 0, MAX_EMOJI_SUGGESTIONS - first.len())
}

/// The built-in emoji dropdown for a text and cursor.
pub open spec fn emoji_dropdown(
    bytes: Seq<u8>,
    cursor: int,
    generation: u64,
    rows: int,
    catalog: Seq<(Seq<char>, Seq<char>)>,
) -> Option<PickerView> {
    match open_shortcode(bytes, cursor) {
        None => None,
        Some((colon, query)) => {
            let items = emoji_rows(catalog, query);
            if items.len() == 0 {
                None
            } else {
                Some(
                    PickerView {
                        start: colon,
                        end: name_stop(bytes, cursor),
                        suggestions: items,
                        selected: 0,
                        source_generation: generation,
                        source_text: bytes,
                        source_cursor: cursor,
                        cursor_offset: 0,
                        provided: false,
                        rows,
                    },
                )
            }
        },
    }
}

/// The dropdown row of an emoji.
fn emoji_suggestion(emoji: &str, spelling: &str) -> (row: Suggestion)
    ensures
        row@ == emoji_row(emoji@, spelling@),
{
    let row = Suggestion {
        value: emoji.to_owned(),
        display: SuggestionDisplay::Emoji {
            emoji: emoji.to_owned(),
            shortcode: spelling.to_owned(),
        },
        description: None,
        icon: None,
        hint: None,
        category: Some("Emoji".to_owned()),
        match_spans: Vec::new(),
        submits: false,
    };
    assert(row@ =~= emoji_row(emoji@, spelling@));
    row
}

/// Whether an emoticon starts as typed, whatever the case.
fn is_fitting(pattern: &[u8], wanted: &[u8]) -> (yes: bool)
    ensures
        yes == emoticon_fits(pattern@, wanted@),
{
    if pattern.len() < wanted.len() {
        return false;
    }
    let head: Vec<u8> = to_lower_bytes(slice_subrange(pattern, 0, wanted.len()));
    let lower: Vec<u8> = to_lower_bytes(wanted);
    same_bytes(head.as_slice(), lower.as_slice())
}

/// All rows for a query: emoticons first.
pub fn list_emoji(catalog: &Vec<EmojiEntry>, query: &Vec<u8>) -> (items: Vec<Suggestion>)
    ensures
        suggestion_views(items@) == emoji_rows(entry_views(catalog@), query@),
{
    let table: Vec<(&'static str, &'static str)> = emoticon_table();
    let mut wanted: Vec<u8> = Vec::new();
    wanted.push(58);
    let mut i: usize = 0;
    while i < query.len()
        invariant
            i <= query.len(),
            wanted@ == seq![58u8] + query@.take(i as int),
        decreases query.len() - i,
    {
        wanted.push(query[i]);
        i += 1;
        assert(wanted@ =~= seq![58u8] + query@.take(i as int));
    }
    assert(query@.take(i as int) =~= query@);
    let ghost max = MAX_EMOJI_SUGGESTIONS as int;
    let ghost first = emoticon_rows(wanted@, 0, max);
    let mut items: Vec<Suggestion> = Vec::new();
    let mut at: usize = 0;
    assert(suggestion_views(items@) + first =~= first);
    while at < table.len() && items.len() < MAX_EMOJI_SUGGESTIONS
        invariant
            at <= table.len(),
            items.len() <= MAX_EMOJI_SUGGESTIONS,
            max == MAX_EMOJI_SUGGESTIONS,
            first == emoticon_rows(wanted@, 0, max),
            table.len() == emoticons().len(),
            forall|i: int|
                0 <= i < table.len() ==> (#[trigger] table@[i]).0@ == emoticons()[i].0
                    && table@[i].1@ == emoticons()[i].1,
            suggestion_views(items@) + emoticon_rows(wanted@, at as int, max - items.len())
                == first,
        decreases table.len() - at,
    {
        let (pattern, emoji): (&'static str, &'static str) = table[at];
        assert(table@[at as int].0@ == emoticons()[at as int].0);
        let ghost earlier = suggestion_views(items@);
        let ghost rest = emoticon_rows(wanted@, at as int, max - items.len());
        if is_fitting(pattern.as_bytes(), wanted.as_slice()) {
            let row: Suggestion = emoji_suggestion(emoji, pattern);
            let ghost added = row@;
            items.push(row);
            assert(suggestion_views(items@) =~= earlier.push(added));
            assert(suggestion_views(items@) + emoticon_rows(wanted@, at + 1, max - items.len())
                =~= earlier + rest);
        }
        at += 1;
    }
    assert(suggestion_views(items@) =~= first);
    let ghost views = entry_views(catalog@);
    let ghost goal = emoji_rows(views, query@);
    assert(goal == first + catalog_rows(views, query@, 0, max - first.len()));
    assert(first.len() == items.len());
    let mut at: usize = 0;
    while at < catalog.len() && items.len() < MAX_EMOJI_SUGGESTIONS
        invariant
            at <= catalog.len(),
            items.len() <= MAX_EMOJI_SUGGESTIONS,
            max == MAX_EMOJI_SUGGESTIONS,
            views == entry_views(catalog@),
            suggestion_views(items@) + catalog_rows(views, query@, at as int, max - items.len())
                == goal,
        decreases catalog.len() - at,
    {
        let entry: &EmojiEntry = &catalog[at];
        assert(views[at as int] == (entry.name@, entry.emoji@));
        let ghost earlier = suggestion_views(items@);
        let ghost rest = catalog_rows(views, query@, at as int, max - items.len());
        if has_prefix(entry.name.as_str().as_bytes(), query.as_slice()) {
            let row: Suggestion = emoji_suggestion(entry.emoji.as_str(), entry.name.as_str());
            let ghost added = row@;
            items.push(row);
            assert(suggestion_views(items@) =~= earlier.push(added));
            assert(suggestion_views(items@) + catalog_rows(
                views,
                query@,
                at + 1,
                max - items.len(),
            ) =~= earlier + rest);
        }
        at += 1;
    }
    assert(suggestion_views(items@) =~= goal);
    items
}

/// The built-in emoji dropdown for a text and cursor.
pub fn emoji_picker(
    text: &str,
    cursor: usize,
    generation: u64,
    rows: usize,
    catalog: &Vec<EmojiEntry>,
) -> (picker: Option<Picker>)
    requires
        boundary(utf8(text@), cursor as int),
        3 <= rows <= 20,
    ensures
        match picker {
            Some(open) => emoji_dropdown(
                utf8(text@),
                cursor as int,
                generation,
                rows as int,
                entry_views(catalog@),
            ) == Some(open@) && open@.wf(),
            None => emoji_dropdown(
                utf8(text@),
                cursor as int,
                generation,
                rows as int,
                entry_views(catalog@),
            ) is None,
        },
{
    match emoji_trigger(text, cursor) {
        None => None,
        Some((colon, query)) => {
            let items: Vec<Suggestion> = list_emoji(catalog, &query);
            assert(suggestion_views(items@).len() == items.len());
            if items.len() == 0 {
                return None;
            }
            let end: usize = emoji_token_end(text, cursor);
            let picker = Picker {
                start: colon,
                end,
                suggestions: items,
                selected: 0,
                source_generation: generation,
                source_text: text.to_owned(),
                source_cursor: cursor,
                cursor_offset: 0,
                provided: false,
                rows,
            };
            assert(Some(picker@) == emoji_dropdown(
                utf8(text@),
                cursor as int,
                generation,
                rows as int,
                entry_views(catalog@),
            ));
            Some(picker)
        },
    }
}

impl EditBuffer {
    /// Replaces the shortcode closed at the cursor by its emoji.
    pub fn replace_shortcode(&mut self, catalog: &Vec<EmojiEntry>)
        requires
            old(self).wf(),
        ensures
            final(self).wf(),
            final(self)@ == shortcode_replaced(old(self)@, entry_views(catalog@)),
    {
        let cursor: usize = self.cursor;
        let bytes: &[u8] = self.text.as_str().as_bytes();
        if cursor == 0 || bytes[cursor - 1] != 58 {
            return;
        }
        let close: usize = cursor - 1;
        let start: usize = find_name_start(bytes, close);
        if start == close || start == 0 || bytes[start - 1] != 58 {
            return;
        }
        let open: usize = start - 1;
        if !has_left_boundary(bytes, open) {
            return;
        }
        proof {
            crate::codes::ascii_byte_boundaries(self.text@, open as int);
        }
        let name: Vec<u8> = to_lower_bytes(slice_subrange(bytes, start, close));
        if let Some(emoji) = lookup_emoji(catalog, name.as_slice()) {
            self.replace_range(open, cursor, emoji);
        }
    }

    /// Replaces the emoticon before the last typed character by its emoji.
    pub fn replace_emoticon(&mut self)
        requires
            old(self).wf(),
        ensures
            final(self).wf(),
            final(self)@ == emoticon_replaced(old(self)@),
    {
        let ghost bytes = self@.bytes;
        let cursor: usize = self.cursor;
        proof {
            ends_are_boundaries(self.text@);
        }
        let ahead: &str = crate::layout::cut_part(self.text.as_str(), 0, cursor);
        let chars: Vec<char> = crate::strings::chars_of(ahead);
        if chars.len() == 0 {
            return;
        }
        let terminator: char = chars[chars.len() - 1];
        proof {
            crate::layout::utf8_of_last(ahead@);
        }
        let tail: usize = cursor - crate::strings::char_len(terminator);
        let table: Vec<(&'static str, &'static str)> = emoticon_table();
        let mut at: usize = 0;
        while at < table.len()
            invariant
                at <= table.len(),
                *self == *old(self),
                self.wf(),
                bytes == self@.bytes,
                bytes == utf8(self.text@),
                cursor == self.cursor,
                tail <= cursor,
                chars@ == crate::layout::part(bytes, 0, cursor as int),
                chars.len() > 0,
                terminator == chars@.last(),
                tail == cursor - crate::strings::char_bytes(terminator),
                table.len() == emoticons().len(),
                forall|i: int|
                    0 <= i < table.len() ==> (#[trigger] table@[i]).0@ == emoticons()[i].0
                        && table@[i].1@ == emoticons()[i].1,
                emoticon_before(bytes, tail as int, 0) == emoticon_before(
                    bytes,
                    tail as int,
                    at as int,
                ),
            decreases table.len() - at,
        {
            let (pattern, emoji): (&'static str, &'static str) = table[at];
            assert(table@[at as int].0@ == emoticons()[at as int].0);
            let size: usize = pattern.as_bytes().len();
            if size <= tail {
                let start: usize = tail - size;
                let all: &[u8] = self.text.as_str().as_bytes();
                if is_at(all, pattern.as_bytes(), start) && has_left_boundary(all, start) {
                    let mut replacement: String = emoji.to_owned();
                    push_char(&mut replacement, terminator);
                    proof {
                        emoticons_lead(at as int);
                        assert(bytes.subrange(start as int, start + size)[0] == bytes[start as int]);
                        assert(replacement@ =~= emoticons()[at as int].1 + seq![terminator]);
                    }
                    self.replace_range(start, cursor, replacement.as_str());
                    return;
                }
            }
            at += 1;
        }
    }
}

} // verus!
