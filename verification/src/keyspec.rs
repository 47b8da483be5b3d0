//! Key specifications: text that names keys to press.

use vstd::prelude::*;
use vstd::string::*;

use crate::chars::{is_whitespace, lowered, to_ascii_lower, whitespace};
use crate::commands::build_text;
use crate::input::{Chord, Key, Mods};
use crate::strings::{chars_of, same_text};

verus! {

/// What `{:?}` makes of a text.
pub uninterp spec fn quoted_form(text: Seq<char>) -> Seq<char>;

/// `format!` with `{:?}` of a text: the text in quotes, special characters
/// escaped. Only that the result depends on the text alone is stated.
#[verifier::external_body]
pub(crate) fn quote(text: &str) -> (quoted: String)
    ensures
        quoted@ == quoted_form(text@),
{
    format!("{text:?}")
}

/// The chord the terminal decoder would produce for typing `c`.
pub open spec fn typed_chord(c: char) -> Chord {
    plain_chord(
        if c == ' ' {
            Key::Space
        } else {
            Key::Char(c)
        },
    )
}

/// A key without modifiers.
pub open spec fn plain_chord(key: Key) -> Chord {
    Chord { key, mods: crate::input::no_mods() }
}

/// A key with modifiers.
pub open spec fn chord_with(key: Key, ctrl: bool, alt: bool, shift: bool) -> Chord {
    Chord { key, mods: Mods { ctrl, alt, shift, super_key: false, hyper: false, meta: false } }
}

/// The chord the terminal decoder would produce for typing `c`.
pub fn literal_key(c: char) -> (chord: Chord)
    ensures
        chord == typed_chord(c),
{
    Chord::plain(
        if c == ' ' {
            Key::Space
        } else {
            Key::Char(c)
        },
    )
}

/// A key with modifiers.
pub fn with_mods(key: Key, ctrl: bool, alt: bool, shift: bool) -> (chord: Chord)
    ensures
        chord == chord_with(key, ctrl, alt, shift),
{
    Chord::new(key, Mods { ctrl, alt, shift, super_key: false, hyper: false, meta: false })
}

/// The single character behind a prefix.
pub open spec fn behind_prefix(token: Seq<char>, prefix: Seq<char>) -> Option<char> {
    if token.len() == prefix.len() + 1 && token.take(prefix.len() as int) == prefix {
        Some(token.last())
    } else {
        None
    }
}

/// The single character behind the first of the prefixes, from `at` on, that
/// leaves one.
pub open spec fn chord_char(token: Seq<char>, prefixes: Seq<Seq<char>>, at: int) -> Option<char>
    decreases prefixes.len() - at,
{
    if at >= prefixes.len() {
        None
    } else {
        match behind_prefix(token, prefixes[at]) {
            Some(c) => Some(c),
            None => chord_char(token, prefixes, at + 1),
        }
    }
}

/// Prefixes of Control with Alt.
pub open spec fn ctrl_alt_prefixes() -> Seq<Seq<char>> {
    seq!["c-m-"@, "m-c-"@, "ctrl-alt-"@]
}

/// Prefixes of Control.
pub open spec fn ctrl_prefixes() -> Seq<Seq<char>> {
    seq!["c-"@, "ctrl-"@, "ctrl+"@]
}

/// Prefixes of Alt.
pub open spec fn alt_prefixes() -> Seq<Seq<char>> {
    seq!["m-"@, "a-"@, "alt-"@, "alt+"@]
}

/// The chord that a name stands for.
pub open spec fn named_chord(name: Seq<char>) -> Option<Chord> {
    if name == "up"@ {
        Some(plain_chord(Key::Up))
    } else if name == "down"@ {
        Some(plain_chord(Key::Down))
    } else if name == "left"@ {
        Some(plain_chord(Key::Left))
    } else if name == "right"@ {
        Some(plain_chord(Key::Right))
    } else if name == "tab"@ {
        Some(plain_chord(Key::Tab))
    } else if name == "backtab"@ || name == "shift-tab"@ {
        Some(chord_with(Key::Tab, false, false, true))
    } else if name == "alt-enter"@ {
        Some(chord_with(Key::Enter, false, true, false))
    } else if name == "enter"@ || name == "return"@ || name == "cr"@ {
        Some(plain_chord(Key::Enter))
    } else if name == "space"@ {
        Some(plain_chord(Key::Space))
    } else if name == "esc"@ || name == "escape"@ {
        Some(plain_chord(Key::Esc))
    } else if name == "backspace"@ || name == "bs"@ {
        Some(plain_chord(Key::Backspace))
    } else if name == "delete"@ || name == "del"@ {
        Some(plain_chord(Key::Delete))
    } else if name == "insert"@ {
        Some(plain_chord(Key::Insert))
    } else if name == "home"@ {
        Some(plain_chord(Key::Home))
    } else if name == "end"@ {
        Some(plain_chord(Key::End))
    } else if name == "pgup"@ || name == "pageup"@ {
        Some(plain_chord(Key::PageUp))
    } else if name == "pgdn"@ || name == "pagedown"@ {
        Some(plain_chord(Key::PageDown))
    } else if name == "shift-enter"@ {
        Some(chord_with(Key::Enter, false, false, true))
    } else if name == "word-left"@ {
        Some(chord_with(Key::Left, true, false, false))
    } else if name == "word-right"@ {
        Some(chord_with(Key::Right, true, false, false))
    } else if name == "word-delete"@ {
        Some(chord_with(Key::Char('d'), false, true, false))
    } else if name == "alt-up"@ || name == "restore-queue"@ {
        Some(chord_with(Key::Up, false, true, false))
    } else if name == "copy-line"@ {
        Some(chord_with(Key::Char('l'), false, true, true))
    } else if name == "copy-prompt"@ {
        Some(chord_with(Key::Char('c'), false, true, true))
    } else if name == "paste"@ {
        Some(chord_with(Key::Char('v'), true, false, false))
    } else if name == "paste-raw"@ {
        Some(chord_with(Key::Char('v'), true, false, true))
    } else if name == "plan-toggle"@ {
        Some(chord_with(Key::Char('p'), false, true, true))
    } else {
        None
    }
}

/// The value of decimal digits from `at` on, behind `value`.
pub open spec fn digits_value(text: Seq<char>, at: int, value: int) -> Option<int>
    decreases text.len() - at,
{
    if at >= text.len() {
        Some(value)
    } else if '0' <= text[at] <= '9' {
        digits_value(text, at + 1, value * 10 + (text[at] as int - 48))
    } else {
        None
    }
}

/// The number of at most 255 that a text writes in decimal, with or without a
/// plus sign.
pub open spec fn small_number(text: Seq<char>) -> Option<int> {
    let from = if text.len() > 0 && text[0] == '+' {
        1int
    } else {
        0
    };
    if from >= text.len() {
        None
    } else {
        match digits_value(text, from, 0) {
            Some(value) => if value <= 255 {
                Some(value)
            } else {
                None
            },
            None => None,
        }
    }
}

/// The function key that a name stands for.
pub open spec fn function_key(name: Seq<char>) -> Option<Chord> {
    if name.len() > 0 && name[0] == 'f' {
        match small_number(name.drop_first()) {
            Some(number) => if 1 <= number <= 12 {
                Some(plain_chord(Key::Function(number as u8)))
            } else {
                None
            },
            None => None,
        }
    } else {
        None
    }
}

/// The chord that a token stands for.
pub open spec fn token_chord(token: Seq<char>) -> Option<Chord> {
    let name = lowered(token);
    let prefixed = if token.len() <= 1 {
        None
    } else if chord_char(name, ctrl_alt_prefixes(), 0) is Some {
        Some(chord_with(Key::Char(chord_char(name, ctrl_alt_prefixes(), 0)->0), true, true, false))
    } else if chord_char(name, ctrl_prefixes(), 0) is Some {
        Some(chord_with(Key::Char(chord_char(name, ctrl_prefixes(), 0)->0), true, false, false))
    } else if chord_char(name, alt_prefixes(), 0) is Some {
        Some(chord_with(Key::Char(chord_char(name, alt_prefixes(), 0)->0), false, true, false))
    } else {
        None
    };
    if prefixed is Some {
        prefixed
    } else if named_chord(name) is Some {
        named_chord(name)
    } else if function_key(name) is Some {
        function_key(name)
    } else if token.len() == 1 {
        Some(typed_chord(token[0]))
    } else {
        None
    }
}

/// Position behind the whitespace at `at`.
pub open spec fn blanks_end(text: Seq<char>, at: int) -> int
    decreases text.len() - at,
{
    if 0 <= at < text.len() && whitespace(text[at]) {
        blanks_end(text, at + 1)
    } else {
        at
    }
}

/// Position of the whitespace at or behind `at`, or the end.
pub open spec fn word_end(text: Seq<char>, at: int) -> int
    decreases text.len() - at,
{
    if 0 <= at < text.len() && !whitespace(text[at]) {
        word_end(text, at + 1)
    } else {
        at
    }
}

/// Position of the closing quote at or behind `at`.
pub open spec fn quote_end(text: Seq<char>, mark: char, at: int) -> Option<int>
    decreases text.len() - at,
{
    if at >= text.len() {
        None
    } else if text[at] == mark {
        Some(at)
    } else {
        quote_end(text, mark, at + 1)
    }
}

/// The chords that type some characters.
pub open spec fn typed_chords(text: Seq<char>) -> Seq<Chord> {
    text.map_values(|c: char| typed_chord(c))
}

/// Chords put in front of others, where there are others.
pub open spec fn chords_then(front: Seq<Chord>, rest: Result<Seq<Chord>, Seq<char>>) -> Result<
    Seq<Chord>,
    Seq<char>,
> {
    match rest {
        Ok(chords) => Ok(front + chords),
        Err(error) => Err(error),
    }
}

/// The chords that the text from `at` on names, or what is wrong with it.
pub open spec fn chords_from(text: Seq<char>, at: int) -> Result<Seq<Chord>, Seq<char>>
    decreases text.len() - at,
{
    let from = blanks_end(text, at);
    if at < 0 || from < at || from >= text.len() {
        Ok(Seq::empty())
    } else if text[from] == '\'' || text[from] == '"' {
        match quote_end(text, text[from], from + 1) {
            None => Err("unterminated quote in key spec: "@ + quoted_form(text.skip(from))),
            Some(end) => if from < end < text.len() {
                chords_then(typed_chords(text.subrange(from + 1, end)), chords_from(text, end + 1))
            } else {
                Ok(Seq::empty())
            },
        }
    } else {
        let end = word_end(text, from);
        if end <= from || end > text.len() {
            Ok(Seq::empty())
        } else {
            let token = text.subrange(from, end);
            match token_chord(token) {
                None => Err("unknown key token "@ + quoted_form(token)),
                Some(chord) => chords_then(seq![chord], chords_from(text, end)),
            }
        }
    }
}

/// The single character behind a prefix.
fn strip_prefix(token: &Vec<char>, prefix: &str) -> (c: Option<char>)
    ensures
        c == behind_prefix(token@, prefix@),
{
    let chars: Vec<char> = chars_of(prefix);
    if token.len() == 0 || token.len() - 1 != chars.len() {
        return None;
    }
    let mut at: usize = 0;
    while at < chars.len()
        invariant
            at <= chars.len(),
            chars@ == prefix@,
            token.len() == chars.len() + 1,
            forall|i: int| 0 <= i < at ==> token@[i] == chars@[i],
        decreases chars.len() - at,
    {
        if token[at] != chars[at] {
            assert(token@.take(prefix@.len() as int)[at as int] != prefix@[at as int]);
            return None;
        }
        at += 1;
    }
    assert(token@.take(prefix@.len() as int) =~= prefix@);
    Some(token[token.len() - 1])
}

/// Strips one chord prefix and requires a single trailing character.
fn strip_chord(token: &Vec<char>, prefixes: &Vec<&'static str>, wanted: Ghost<Seq<Seq<char>>>) -> (c:
    Option<char>)
    requires
        prefixes.len() == wanted@.len(),
        forall|i: int| 0 <= i < prefixes.len() ==> (#[trigger] prefixes@[i])@ == wanted@[i],
    ensures
        c == chord_char(token@, wanted@, 0),
{
    let mut at: usize = 0;
    while at < prefixes.len()
        invariant
            at <= prefixes.len(),
            prefixes.len() == wanted@.len(),
            forall|i: int| 0 <= i < prefixes.len() ==> (#[trigger] prefixes@[i])@ == wanted@[i],
            chord_char(token@, wanted@, 0) == chord_char(token@, wanted@, at as int),
        decreases prefixes.len() - at,
    {
        assert(prefixes@[at as int]@ == wanted@[at as int]);
        if let Some(c) = strip_prefix(token, prefixes[at]) {
            return Some(c);
        }
        at += 1;
    }
    None
}

/// The chord that a name stands for.
fn find_named(name: &str) -> (chord: Option<Chord>)
    ensures
        chord == named_chord(name@),
{
    if same_text(name, "up") {
        Some(Chord::plain(Key::Up))
    } else if same_text(name, "down") {
        Some(Chord::plain(Key::Down))
    } else if same_text(name, "left") {
        Some(Chord::plain(Key::Left))
    } else if same_text(name, "right") {
        Some(Chord::plain(Key::Right))
    } else if same_text(name, "tab") {
        Some(Chord::plain(Key::Tab))
    } else if same_text(name, "backtab") || same_text(name, "shift-tab") {
        Some(with_mods(Key::Tab, false, false, true))
    } else if same_text(name, "alt-enter") {
        Some(with_mods(Key::Enter, false, true, false))
    } else if same_text(name, "enter") || same_text(name, "return") || same_text(name, "cr") {
        Some(Chord::plain(Key::Enter))
    } else if same_text(name, "space") {
        Some(Chord::plain(Key::Space))
    } else if same_text(name, "esc") || same_text(name, "escape") {
        Some(Chord::plain(Key::Esc))
    } else if same_text(name, "backspace") || same_text(name, "bs") {
        Some(Chord::plain(Key::Backspace))
    } else if same_text(name, "delete") || same_text(name, "del") {
        Some(Chord::plain(Key::Delete))
    } else if same_text(name, "insert") {
        Some(Chord::plain(Key::Insert))
    } else if same_text(name, "home") {
        Some(Chord::plain(Key::Home))
    } else if same_text(name, "end") {
        Some(Chord::plain(Key::End))
    } else if same_text(name, "pgup") || same_text(name, "pageup") {
        Some(Chord::plain(Key::PageUp))
    } else if same_text(name, "pgdn") || same_text(name, "pagedown") {
        Some(Chord::plain(Key::PageDown))
    } else if same_text(name, "shift-enter") {
        Some(with_mods(Key::Enter, false, false, true))
    } else if same_text(name, "word-left") {
        Some(with_mods(Key::Left, true, false, false))
    } else if same_text(name, "word-right") {
        Some(with_mods(Key::Right, true, false, false))
    } else if same_text(name, "word-delete") {
        Some(with_mods(Key::Char('d'), false, true, false))
    } else if same_text(name, "alt-up") || same_text(name, "restore-queue") {
        Some(with_mods(Key::Up, false, true, false))
    } else if same_text(name, "copy-line") {
        Some(with_mods(Key::Char('l'), false, true, true))
    } else if same_text(name, "copy-prompt") {
        Some(with_mods(Key::Char('c'), false, true, true))
    } else if same_text(name, "paste") {
        Some(with_mods(Key::Char('v'), true, false, false))
    } else if same_text(name, "paste-raw") {
        Some(with_mods(Key::Char('v'), true, false, true))
    } else if same_text(name, "plan-toggle") {
        Some(with_mods(Key::Char('p'), false, true, true))
    } else {
        None
    }
}

/// More digits only make a number larger.
proof fn digits_grow(text: Seq<char>, at: int, value: int)
    requires
        value >= 0,
    ensures
        digits_value(text, at, value) matches Some(result) ==> result >= value,
    decreases text.len() - at,
{
    if at < text.len() && '0' <= text[at] <= '9' {
        digits_grow(text, at + 1, value * 10 + (text[at] as int - 48));
    }
}

/// The number of at most 255 that the characters from `from` on write.
fn parse_small(chars: &Vec<char>, from: usize) -> (number: Option<u8>)
    requires
        from <= chars.len(),
    ensures
        match number {
            Some(value) => small_number(chars@.skip(from as int)) == Some(value as int),
            None => small_number(chars@.skip(from as int)) is None,
        },
{
    let ghost text = chars@.skip(from as int);
    let signed: bool = from < chars.len() && chars[from] == '+';
    let start: usize = if signed {
        from + 1
    } else {
        from
    };
    if start >= chars.len() {
        return None;
    }
    assert(text[0] == chars@[from as int]);
    let mut value: u16 = 0;
    let mut at: usize = start;
    while at < chars.len()
        invariant
            from <= start <= at <= chars.len(),
            start < chars.len(),
            text == chars@.skip(from as int),
            start - from == (if text.len() > 0 && text[0] == '+' {
                1int
            } else {
                0
            }),
            value <= 255,
            digits_value(text, start - from, 0) == digits_value(text, at - from, value as int),
        decreases chars.len() - at,
    {
        let c: char = chars[at];
        assert(text[at - from] == c);
        if !('0' <= c && c <= '9') {
            return None;
        }
        value = value * 10 + (c as u32 as u16 - 48);
        at += 1;
        if value > 255 {
            proof {
                digits_grow(text, at - from, value as int);
            }
            return None;
        }
    }
    Some(value as u8)
}

/// The chord that a token stands for.
pub fn parse_token(token: &str) -> (chord: Option<Chord>)
    ensures
        chord == token_chord(token@),
{
    let chars: Vec<char> = chars_of(token);
    let mut lower: Vec<char> = Vec::new();
    let mut at: usize = 0;
    while at < chars.len()
        invariant
            at <= chars.len(),
            lower.len() == at,
            forall|i: int| 0 <= i < at ==> lower@[i] == crate::chars::ascii_lower(chars@[i]),
        decreases chars.len() - at,
    {
        lower.push(to_ascii_lower(chars[at]));
        at += 1;
    }
    assert(lower@ =~= lowered(token@));
    // Chord prefixes; a bare single character falls through to literal.
    if chars.len() > 1 {
        let both: Vec<&'static str> = vec!["c-m-", "m-c-", "ctrl-alt-"];
        if let Some(c) = strip_chord(&lower, &both, Ghost(ctrl_alt_prefixes())) {
            return Some(with_mods(Key::Char(c), true, true, false));
        }
        let ctrl: Vec<&'static str> = vec!["c-", "ctrl-", "ctrl+"];
        if let Some(c) = strip_chord(&lower, &ctrl, Ghost(ctrl_prefixes())) {
            return Some(with_mods(Key::Char(c), true, false, false));
        }
        let alt: Vec<&'static str> = vec!["m-", "a-", "alt-", "alt+"];
        if let Some(c) = strip_chord(&lower, &alt, Ghost(alt_prefixes())) {
            return Some(with_mods(Key::Char(c), false, true, false));
        }
    }
    let name: String = build_text(&lower, 0, lower.len());
    assert(name@ =~= lower@);
    if let Some(chord) = find_named(name.as_str()) {
        return Some(chord);
    }
    if lower.len() > 0 && lower[0] == 'f' {
        assert(lower@.skip(1) =~= lower@.drop_first());
        if let Some(number) = parse_small(&lower, 1) {
            if number >= 1 && number <= 12 {
                return Some(Chord::plain(Key::Function(number)));
            }
        }
    }
    if chars.len() == 1 {
        Some(literal_key(chars[0]))
    } else {
        None
    }
}

/// `front` with the quoted form of some characters behind it.
fn complain(front: &str, chars: &Vec<char>, from: usize, to: usize) -> (message: String)
    requires
        from <= to <= chars.len(),
    ensures
        message@ == front@ + quoted_form(chars@.subrange(from as int, to as int)),
{
    let piece: String = build_text(chars, from, to);
    let mut message: String = front.to_owned();
    message.append(quote(piece.as_str()).as_str());
    message
}

/// The characters of an error message.
pub open spec fn parsed_view(parsed: Result<Vec<Chord>, String>) -> Result<Seq<Chord>, Seq<char>> {
    match parsed {
        Ok(chords) => Ok(chords@),
        Err(message) => Err(message@),
    }
}

/// Parses a whitespace-separated key spec into physical chords.
///
/// Named tokens (`tab`, `enter`, `esc`, `up`, `pgdn`, `f5`, ...) map to
/// their native keys; `C-x`, `M-x`/`A-x`, and `C-M-x` carry modifiers; the
/// semantic spellings (`word-left`, `copy-line`, `paste-raw`, ...) name the
/// default chord the keymap folds into that key; a single-quoted or
/// double-quoted token types its characters literally, as does any
/// single-character token.
pub fn parse_keys(spec: &str) -> (parsed: Result<Vec<Chord>, String>)
    ensures
        parsed_view(parsed) == chords_from(spec@, 0),
{
    let chars: Vec<char> = chars_of(spec);
    let ghost text = spec@;
    let ghost goal = chords_from(text, 0);
    let mut keys: Vec<Chord> = Vec::new();
    let mut at: usize = 0;
    assert(chords_then(keys@, goal) == goal) by {
        if let Ok(rest) = goal {
            assert(keys@ + rest =~= rest);
        }
    }
    loop
        invariant
            at <= chars.len(),
            chars@ == text,
            text == spec@,
            goal == chords_from(text, 0),
            goal == chords_then(keys@, chords_from(text, at as int)),
        decreases chars.len() - at,
    {
        let mut from: usize = at;
        while from < chars.len() && is_whitespace(chars[from])
            invariant
                at <= from <= chars.len(),
                chars@ == text,
                blanks_end(text, at as int) == blanks_end(text, from as int),
            decreases chars.len() - from,
        {
            from += 1;
        }
        if from == chars.len() {
            assert(keys@ + Seq::<Chord>::empty() =~= keys@);
            return Ok(keys);
        }
        let ghost earlier = keys@;
        let first: char = chars[from];
        if first == '\'' || first == '"' {
            let mut end: usize = from + 1;
            while end < chars.len() && chars[end] != first
                invariant
                    from < end <= chars.len(),
                    chars@ == text,
                    quote_end(text, first, from + 1) == quote_end(text, first, end as int),
                decreases chars.len() - end,
            {
                end += 1;
            }
            if end == chars.len() {
                assert(text.subrange(from as int, end as int) =~= text.skip(from as int));
                return Err(complain("unterminated quote in key spec: ", &chars, from, end));
            }
            let mut i: usize = from + 1;
            assert(keys@ =~= earlier + typed_chords(text.subrange(from + 1, from + 1)));
            while i < end
                invariant
                    from < i <= end < chars.len(),
                    chars@ == text,
                    keys@ == earlier + typed_chords(text.subrange(from + 1, i as int)),
                decreases end - i,
            {
                keys.push(literal_key(chars[i]));
                i += 1;
                assert(keys@ =~= earlier + typed_chords(text.subrange(from + 1, i as int)));
            }
            proof {
                let rest = chords_from(text, end + 1);
                let middle = typed_chords(text.subrange(from + 1, end as int));
                if let Ok(more) = rest {
                    assert(keys@ + more =~= earlier + (middle + more));
                }
            }
            at = end + 1;
        } else {
            let mut end: usize = from;
            while end < chars.len() && !is_whitespace(chars[end])
                invariant
                    from <= end <= chars.len(),
                    chars@ == text,
                    word_end(text, from as int) == word_end(text, end as int),
                decreases chars.len() - end,
            {
                end += 1;
            }
            proof {
                words_go_on(text, from as int);
            }
            let token: String = build_text(&chars, from, end);
            match parse_token(token.as_str()) {
                None => {
                    return Err(complain("unknown key token ", &chars, from, end));
                },
                Some(chord) => {
                    keys.push(chord);
                    proof {
                        let rest = chords_from(text, end as int);
                        if let Ok(more) = rest {
                            assert(keys@ + more =~= earlier + (seq![chord] + more));
                        }
                    }
                },
            }
            at = end;
        }
    }
}

/// A word that starts goes on.
proof fn words_go_on(text: Seq<char>, at: int)
    requires
        0 <= at < text.len(),
        !whitespace(text[at]),
    ensures
        at < word_end(text, at) <= text.len(),
    decreases text.len() - at,
{
    if at + 1 < text.len() && !whitespace(text[at + 1]) {
        words_go_on(text, at + 1);
    } else {
        assert(word_end(text, at + 1) == at + 1);
    }
}

proof fn blanks_are_passed_over(text: Seq<char>, at: int)
    requires
        0 <= at <= text.len(),
    ensures
        at <= blanks_end(text, at) <= text.len(),
        forall|k: int| at <= k < blanks_end(text, at) ==> whitespace(#[trigger] text[k]),
        blanks_end(text, at) < text.len() ==> !whitespace(text[blanks_end(text, at)]),
    decreases text.len() - at,
{
    if at < text.len() && whitespace(text[at]) {
        blanks_are_passed_over(text, at + 1);
    }
}

proof fn words_run_to_blanks(text: Seq<char>, at: int, end: int)
    requires
        0 <= at <= end <= text.len(),
        forall|k: int| at <= k < end ==> !whitespace(#[trigger] text[k]),
        end < text.len() ==> whitespace(text[end]),
    ensures
        word_end(text, at) == end,
    decreases end - at,
{
    if at < end {
        assert(!whitespace(text[at]));
        words_run_to_blanks(text, at + 1, end);
    }
}

proof fn quotes_run_to_their_mark(text: Seq<char>, mark: char, at: int, end: int)
    requires
        0 <= at <= end < text.len(),
        text[end] == mark,
        forall|k: int| at <= k < end ==> #[trigger] text[k] != mark,
    ensures
        quote_end(text, mark, at) == Some(end),
    decreases end - at,
{
    if at < end {
        quotes_run_to_their_mark(text, mark, at + 1, end);
    }
}

/// Blanks between key tokens do not matter.
pub proof fn blanks_between_keys_are_skipped(text: Seq<char>, at: int)
    requires
        0 <= at < text.len(),
        whitespace(text[at]),
    ensures
        chords_from(text, at) == chords_from(text, at + 1),
{
    blanks_are_passed_over(text, at);
    blanks_are_passed_over(text, at + 1);
    assert(blanks_end(text, at) == blanks_end(text, at + 1));
}

/// Text in quotes types its characters one by one, blanks and names too, and
/// what follows the closing quote goes on from there.
pub proof fn quoted_text_is_typed(text: Seq<char>, at: int, end: int)
    requires
        0 <= at < end < text.len(),
        text[at] == '\'' || text[at] == '"',
        text[end] == text[at],
        forall|k: int| at < k < end ==> #[trigger] text[k] != text[at],
    ensures
        match chords_from(text, end + 1) {
            Ok(rest) => match chords_from(text, at) {
                Ok(chords) => {
                    &&& chords.len() == end - at - 1 + rest.len()
                    &&& forall|i: int|
                        0 <= i < end - at - 1 ==> (#[trigger] chords[i]) == plain_chord(
                            if text[at + 1 + i] == ' ' {
                                Key::Space
                            } else {
                                Key::Char(text[at + 1 + i])
                            },
                        )
                    &&& chords.skip(end - at - 1) == rest
                },
                Err(_) => false,
            },
            Err(error) => chords_from(text, at) == Err::<Seq<Chord>, Seq<char>>(error),
        },
{
    assert(blanks_end(text, at) == at);
    quotes_run_to_their_mark(text, text[at], at + 1, end);
    if let Ok(rest) = chords_from(text, end + 1) {
        let front = typed_chords(text.subrange(at + 1, end));
        assert((front + rest).skip(end - at - 1) =~= rest);
    }
}

/// A token runs to the next blank and names one chord, which comes before those
/// of what follows.
pub proof fn tokens_name_one_chord_each(text: Seq<char>, at: int, end: int)
    requires
        0 <= at < end <= text.len(),
        text[at] != '\'' && text[at] != '"',
        forall|k: int| at <= k < end ==> !whitespace(#[trigger] text[k]),
        end < text.len() ==> whitespace(text[end]),
    ensures
        match token_chord(text.subrange(at, end)) {
            None => chords_from(text, at) is Err,
            Some(chord) => match chords_from(text, end) {
                Ok(rest) => chords_from(text, at) == Ok::<Seq<Chord>, Seq<char>>(
                    seq![chord] + rest,
                ),
                Err(error) => chords_from(text, at) == Err::<Seq<Chord>, Seq<char>>(error),
            },
        },
{
    assert(!whitespace(text[at]));
    assert(blanks_end(text, at) == at);
    words_run_to_blanks(text, at, end);
}

proof fn more_digits(text: Seq<char>, at: int, value: int)
    requires
        0 <= at < text.len(),
    ensures
        digits_value(text, at, value) == match digits_value(text.drop_last(), at, value) {
            Some(front) => if '0' <= text.last() <= '9' {
                Some(front * 10 + (text.last() as int - 48))
            } else {
                None
            },
            None => None,
        },
    decreases text.len() - at,
{
    if at == text.len() - 1 {
        reveal_with_fuel(digits_value, 2);
    } else {
        assert(text.drop_last()[at] == text[at]);
        if '0' <= text[at] <= '9' {
            more_digits(text, at + 1, value * 10 + (text[at] as int - 48));
        }
    }
}

/// One digit more makes a number ten times as large, and the digit more.
pub proof fn digits_count_in_tens(text: Seq<char>)
    requires
        text.len() > 0,
    ensures
        digits_value(text, 0, 0) == match digits_value(text.drop_last(), 0, 0) {
            Some(front) => if '0' <= text.last() <= '9' {
                Some(front * 10 + (text.last() as int - '0' as int))
            } else {
                None
            },
            None => None,
        },
        digits_value(Seq::empty(), 0, 0) == Some(0int),
{
    more_digits(text, 0, 0);
}

} // verus!
