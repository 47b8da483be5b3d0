//! Word motion over measured text.

use vstd::prelude::*;

use crate::chars::{alphanumeric, cjk, is_alphanumeric, is_cjk, is_whitespace, whitespace};
use crate::layout::{cut_part, part, tiles, tiles_order, Glyph};
use crate::strings::{boundary, chars_of, utf8};

verus! {

/// How a grapheme takes part in words.
#[derive(Clone, Copy, Debug, PartialEq, Eq, Structural)]
pub enum WordClass {
    /// Letters, numbers and the underscore.
    Word,
    /// Whitespace.
    Whitespace,
    /// Chinese, Japanese and Korean letters.
    Cjk,
    /// Anything else.
    Delimiter,
}

/// The class of a grapheme, decided by its first character.
pub open spec fn class_of(grapheme: Seq<char>) -> WordClass {
    if grapheme.len() == 0 {
        WordClass::Delimiter
    } else if whitespace(grapheme[0]) {
        WordClass::Whitespace
    } else if cjk(grapheme[0]) {
        WordClass::Cjk
    } else if alphanumeric(grapheme[0]) || grapheme[0] == '_' {
        WordClass::Word
    } else {
        WordClass::Delimiter
    }
}

/// Whether a grapheme joins two words: an apostrophe or a hyphen.
pub open spec fn joins(grapheme: Seq<char>) -> bool {
    grapheme.len() == 1 && (grapheme[0] == '\'' || grapheme[0] == '\u{2019}' || grapheme[0] == '-'
        || grapheme[0] == '\u{2010}' || grapheme[0] == '\u{2011}')
}

/// The class of a grapheme.
pub fn word_class(grapheme: &str) -> (class: WordClass)
    ensures
        class == class_of(grapheme@),
{
    let chars: Vec<char> = chars_of(grapheme);
    if chars.len() == 0 {
        return WordClass::Delimiter;
    }
    let character: char = chars[0];
    if is_whitespace(character) {
        WordClass::Whitespace
    } else if is_cjk(character) {
        WordClass::Cjk
    } else if is_alphanumeric(character) || character == '_' {
        WordClass::Word
    } else {
        WordClass::Delimiter
    }
}

/// Whether a grapheme joins two words.
pub fn is_word_joiner(grapheme: &str) -> (yes: bool)
    ensures
        yes == joins(grapheme@),
{
    let chars: Vec<char> = chars_of(grapheme);
    chars.len() == 1 && (chars[0] == '\'' || chars[0] == '\u{2019}' || chars[0] == '-' || chars[0]
        == '\u{2010}' || chars[0] == '\u{2011}')
}

/// One grapheme on the way of a word motion.
#[derive(Clone, Copy, Debug, PartialEq, Eq, Structural)]
pub struct Step {
    /// Byte offset of the grapheme.
    pub start: usize,
    /// Byte offset behind it.
    pub end: usize,
    /// Its class.
    pub class: WordClass,
    /// Whether it joins words.
    pub joiner: bool,
}

/// The graphemes of a text, classified.
pub open spec fn steps_of(bytes: Seq<u8>, glyphs: Seq<Glyph>) -> Seq<Step> {
    Seq::new(
        glyphs.len(),
        |i: int|
            Step {
                start: glyphs[i].start,
                end: glyphs[i].end,
                class: class_of(part(bytes, glyphs[i].start as int, glyphs[i].end as int)),
                joiner: joins(part(bytes, glyphs[i].start as int, glyphs[i].end as int)),
            },
    )
}

/// Number of steps left when trailing whitespace is passed over.
pub open spec fn before_blanks(steps: Seq<Step>, count: int) -> int
    decreases count,
{
    if count > 0 && steps[count - 1].class == WordClass::Whitespace {
        before_blanks(steps, count - 1)
    } else {
        count
    }
}

/// First step of the run of one class that ends with step `at`.
pub open spec fn class_run_start(steps: Seq<Step>, at: int) -> int
    decreases at,
{
    if at > 0 && steps[at - 1].class == steps[at].class {
        class_run_start(steps, at - 1)
    } else {
        at
    }
}

/// First step of the word that holds step `at`; a joiner between two words
/// belongs to the word.
pub open spec fn word_run_start(steps: Seq<Step>, at: int) -> int
    decreases at,
{
    if at > 0 && steps[at - 1].class == WordClass::Word {
        word_run_start(steps, at - 1)
    } else if at > 1 && steps[at - 1].joiner && steps[at - 2].class == WordClass::Word {
        word_run_start(steps, at - 2)
    } else {
        at
    }
}

/// Where a motion to the left over `steps` lands.
pub open spec fn left_target(steps: Seq<Step>) -> int {
    let count = before_blanks(steps, steps.len() as int);
    if count == 0 {
        0
    } else if steps[count - 1].class == WordClass::Word {
        steps[word_run_start(steps, count - 1)].start as int
    } else {
        steps[class_run_start(steps, count - 1)].start as int
    }
}

/// First step at or behind `at` that is not whitespace.
pub open spec fn behind_blanks(steps: Seq<Step>, at: int) -> int
    decreases steps.len() - at,
{
    if at < steps.len() && steps[at].class == WordClass::Whitespace {
        behind_blanks(steps, at + 1)
    } else {
        at
    }
}

/// Last step of the run of one class that starts with step `at`.
pub open spec fn class_run_end(steps: Seq<Step>, at: int) -> int
    decreases steps.len() - at,
{
    if at + 1 < steps.len() && steps[at + 1].class == steps[at].class {
        class_run_end(steps, at + 1)
    } else {
        at
    }
}

/// Last step of the word that holds step `at`.
pub open spec fn word_run_end(steps: Seq<Step>, at: int) -> int
    decreases steps.len() - at,
{
    if at + 1 < steps.len() && steps[at + 1].class == WordClass::Word {
        word_run_end(steps, at + 1)
    } else if at + 2 < steps.len() && steps[at + 1].joiner && steps[at + 2].class
        == WordClass::Word {
        word_run_end(steps, at + 2)
    } else {
        at
    }
}

/// Where a motion to the right over `steps` lands in a text of `length` bytes.
pub open spec fn right_target(steps: Seq<Step>, length: int) -> int {
    let at = behind_blanks(steps, 0);
    if at >= steps.len() {
        length
    } else if steps[at].class == WordClass::Word {
        steps[word_run_end(steps, at)].end as int
    } else {
        steps[class_run_end(steps, at)].end as int
    }
}

/// The graphemes of a text, classified.
fn classify(text: &str, glyphs: &Vec<Glyph>, from: usize, to: usize) -> (steps: Vec<Step>)
    requires
        tiles(glyphs@, utf8(text@), from as int, to as int),
    ensures
        steps@ == steps_of(utf8(text@), glyphs@),
{
    let ghost bytes = utf8(text@);
    let mut steps: Vec<Step> = Vec::new();
    let mut at: usize = 0;
    while at < glyphs.len()
        invariant
            at <= glyphs.len(),
            bytes == utf8(text@),
            tiles(glyphs@, bytes, from as int, to as int),
            steps.len() == at,
            forall|i: int| 0 <= i < at ==> steps@[i] == steps_of(bytes, glyphs@)[i],
        decreases glyphs.len() - at,
    {
        let glyph: Glyph = glyphs[at];
        let piece: &str = cut_part(text, glyph.start, glyph.end);
        steps.push(
            Step {
                start: glyph.start,
                end: glyph.end,
                class: word_class(piece),
                joiner: is_word_joiner(piece),
            },
        );
        at += 1;
    }
    assert(steps@ =~= steps_of(bytes, glyphs@));
    steps
}

/// The start of the word to the left of `at`; `before` measures the text up to
/// there.
pub fn word_left(text: &str, at: usize, before: &Vec<Glyph>) -> (target: usize)
    requires
        tiles(before@, utf8(text@), 0, at as int),
    ensures
        target == left_target(steps_of(utf8(text@), before@)),
        target <= at,
        before.len() > 0 ==> target <= before@.last().start,
        boundary(utf8(text@), target as int),
{
    proof {
        crate::strings::ends_are_boundaries(text@);
    }
    let steps: Vec<Step> = classify(text, before, 0, at);
    let mut count: usize = steps.len();
    while count > 0 && matches!(steps[count - 1].class, WordClass::Whitespace)
        invariant
            count <= steps.len(),
            before_blanks(steps@, steps.len() as int) == before_blanks(steps@, count as int),
        decreases count,
    {
        count -= 1;
    }
    if count == 0 {
        return 0;
    }
    let class: WordClass = steps[count - 1].class;
    let mut first: usize = count - 1;
    if class != WordClass::Word {
        while first > 0 && steps[first - 1].class == class
            invariant
                first < count <= steps.len(),
                class == steps@[first as int].class,
                class_run_start(steps@, count - 1) == class_run_start(steps@, first as int),
            decreases first,
        {
            first -= 1;
        }
    } else {
        loop
            invariant_except_break
                first < count <= steps.len(),
                word_run_start(steps@, count - 1) == word_run_start(steps@, first as int),
            ensures
                first < count <= steps.len(),
                first == word_run_start(steps@, count - 1),
            decreases first,
        {
            if first > 0 && steps[first - 1].class == WordClass::Word {
                first -= 1;
            } else if first > 1 && steps[first - 1].joiner && steps[first - 2].class
                == WordClass::Word {
                first -= 2;
            } else {
                break;
            }
        }
    }
    proof {
        assert(steps@[first as int].start == before@[first as int].start);
        tiles_order(before@, utf8(text@), 0, at as int, first as int, before.len() - 1);
    }
    steps[first].start
}

/// The end of the word to the right of `at`; `after` measures the text from
/// there on.
pub fn word_right(text: &str, at: usize, after: &Vec<Glyph>) -> (target: usize)
    requires
        tiles(after@, utf8(text@), at as int, utf8(text@).len() as int),
    ensures
        target == right_target(steps_of(utf8(text@), after@), utf8(text@).len() as int),
        at <= target <= utf8(text@).len(),
        boundary(utf8(text@), target as int),
{
    proof {
        crate::strings::ends_are_boundaries(text@);
    }
    let length: usize = crate::strings::byte_len(text);
    let steps: Vec<Step> = classify(text, after, at, length);
    let mut first: usize = 0;
    while first < steps.len() && matches!(steps[first].class, WordClass::Whitespace)
        invariant
            first <= steps.len(),
            behind_blanks(steps@, 0) == behind_blanks(steps@, first as int),
        decreases steps.len() - first,
    {
        first += 1;
    }
    if first >= steps.len() {
        return length;
    }
    let class: WordClass = steps[first].class;
    let mut last: usize = first;
    if class != WordClass::Word {
        while last + 1 < steps.len() && steps[last + 1].class == class
            invariant
                first <= last < steps.len(),
                class == steps@[last as int].class,
                class_run_end(steps@, first as int) == class_run_end(steps@, last as int),
            decreases steps.len() - last,
        {
            last += 1;
        }
    } else {
        loop
            invariant_except_break
                first <= last < steps.len(),
                word_run_end(steps@, first as int) == word_run_end(steps@, last as int),
            ensures
                first <= last < steps.len(),
                last == word_run_end(steps@, first as int),
            decreases steps.len() - last,
        {
            if last + 1 < steps.len() && steps[last + 1].class == WordClass::Word {
                last += 1;
            } else if last + 1 < steps.len() && last + 2 < steps.len() && steps[last + 1].joiner
                && steps[last + 2].class == WordClass::Word {
                last += 2;
            } else {
                break;
            }
        }
    }
    proof {
        assert(steps@[last as int].end == after@[last as int].end);
        tiles_order(
            after@,
            utf8(text@),
            at as int,
            utf8(text@).len() as int,
            last as int,
            last as int,
        );
    }
    steps[last].end
}

/// Every grapheme is of one class, told by its first character: blank, CJK, a
/// word's, or a delimiter; only lone apostrophes and hyphens join words.
pub proof fn graphemes_have_one_class(grapheme: Seq<char>)
    ensures
        class_of(grapheme) is Whitespace <==> grapheme.len() > 0 && whitespace(grapheme[0]),
        class_of(grapheme) is Cjk <==> grapheme.len() > 0 && !whitespace(grapheme[0]) && cjk(
            grapheme[0],
        ),
        class_of(grapheme) is Word <==> grapheme.len() > 0 && !whitespace(grapheme[0]) && !cjk(
            grapheme[0],
        ) && (alphanumeric(grapheme[0]) || grapheme[0] == '_'),
        joins(grapheme) <==> grapheme =~= seq!['\''] || grapheme =~= seq!['\u{2019}'] || grapheme
            =~= seq!['-'] || grapheme =~= seq!['\u{2010}'] || grapheme =~= seq!['\u{2011}'],
{
}

/// Whether the steps from `first` to `last` are one word: they begin and end
/// with a word's grapheme, and any other is a joiner alone between two of them.
pub open spec fn one_word(steps: Seq<Step>, first: int, last: int) -> bool {
    &&& 0 <= first <= last < steps.len()
    &&& steps[first].class is Word
    &&& steps[last].class is Word
    &&& forall|i: int|
        first <= i <= last ==> (#[trigger] steps[i]).class is Word || steps[i].joiner
    &&& forall|i: int, j: int|
        first <= i && j == i + 1 && j <= last ==> (#[trigger] steps[i]).class is Word || (
        #[trigger] steps[j]).class is Word
}

/// Whether the steps from `first` to `last` are of one class.
pub open spec fn one_class(steps: Seq<Step>, first: int, last: int) -> bool {
    &&& 0 <= first <= last < steps.len()
    &&& forall|i: int| first <= i <= last ==> (#[trigger] steps[i]).class == steps[last].class
}

/// Whether a word could go on across step `at` to the step on its far side,
/// which is `beyond`.
pub open spec fn goes_on(steps: Seq<Step>, at: int, beyond: int) -> bool {
    0 <= at < steps.len() && (steps[at].class is Word || 0 <= beyond < steps.len()
        && steps[at].joiner && steps[beyond].class is Word)
}

proof fn blanks_before(steps: Seq<Step>, count: int)
    requires
        0 <= count <= steps.len(),
    ensures
        0 <= before_blanks(steps, count) <= count,
        forall|i: int|
            before_blanks(steps, count) <= i < count ==> (#[trigger] steps[i]).class is Whitespace,
        before_blanks(steps, count) > 0 ==> !(steps[before_blanks(steps, count)
            - 1].class is Whitespace),
    decreases count,
{
    if count > 0 && steps[count - 1].class == WordClass::Whitespace {
        blanks_before(steps, count - 1);
    }
}

proof fn blanks_behind(steps: Seq<Step>, at: int)
    requires
        0 <= at <= steps.len(),
    ensures
        at <= behind_blanks(steps, at) <= steps.len(),
        forall|i: int|
            at <= i < behind_blanks(steps, at) ==> (#[trigger] steps[i]).class is Whitespace,
        behind_blanks(steps, at) < steps.len() ==> !(steps[behind_blanks(
            steps,
            at,
        )].class is Whitespace),
    decreases steps.len() - at,
{
    if at < steps.len() && steps[at].class == WordClass::Whitespace {
        blanks_behind(steps, at + 1);
    }
}

proof fn word_runs_start(steps: Seq<Step>, at: int, last: int)
    requires
        one_word(steps, at, last),
    ensures
        ({
            let first = word_run_start(steps, at);
            one_word(steps, first, last) && first <= at && !goes_on(steps, first - 1, first - 2)
        }),
    decreases at,
{
    if at > 0 && steps[at - 1].class == WordClass::Word {
        word_runs_start(steps, at - 1, last);
    } else if at > 1 && steps[at - 1].joiner && steps[at - 2].class == WordClass::Word {
        word_runs_start(steps, at - 2, last);
    }
}

proof fn word_runs_end(steps: Seq<Step>, first: int, at: int)
    requires
        one_word(steps, first, at),
    ensures
        ({
            let last = word_run_end(steps, at);
            one_word(steps, first, last) && at <= last && !goes_on(steps, last + 1, last + 2)
        }),
    decreases steps.len() - at,
{
    if at + 1 < steps.len() && steps[at + 1].class == WordClass::Word {
        word_runs_end(steps, first, at + 1);
    } else if at + 2 < steps.len() && steps[at + 1].joiner && steps[at + 2].class
        == WordClass::Word {
        word_runs_end(steps, first, at + 2);
    }
}

proof fn class_runs_start(steps: Seq<Step>, at: int, last: int)
    requires
        one_class(steps, at, last),
    ensures
        ({
            let first = class_run_start(steps, at);
            &&& one_class(steps, first, last)
            &&& first <= at
            &&& first > 0 ==> steps[first - 1].class != steps[last].class
        }),
    decreases at,
{
    if at > 0 && steps[at - 1].class == steps[at].class {
        class_runs_start(steps, at - 1, last);
    }
}

proof fn class_runs_end(steps: Seq<Step>, first: int, at: int)
    requires
        one_class(steps, first, at),
    ensures
        ({
            let last = class_run_end(steps, at);
            &&& one_class(steps, first, last)
            &&& at <= last
            &&& last + 1 < steps.len() ==> steps[last + 1].class != steps[last].class
        }),
    decreases steps.len() - at,
{
    if at + 1 < steps.len() && steps[at + 1].class == steps[at].class {
        class_runs_end(steps, first, at + 1);
    }
}

/// A word motion to the left passes over blanks and then over one word, or one
/// run of a single other class, and no more: the step before it neither is part
/// of the word nor joins it to another, or is of another class. Where all is
/// blank, it lands at the start.
pub proof fn word_left_passes_one_word(bytes: Seq<u8>, before: Seq<Glyph>) -> (passed: (int, int))
    ensures
        ({
            let steps = steps_of(bytes, before);
            let (first, last) = passed;
            &&& -1 <= last < steps.len()
            &&& forall|i: int| last < i < steps.len() ==> (#[trigger] steps[i]).class is Whitespace
            &&& last < 0 ==> left_target(steps) == 0
            &&& last >= 0 ==> {
                &&& !(steps[last].class is Whitespace)
                &&& 0 <= first <= last
                &&& left_target(steps) == before[first].start
                &&& steps[last].class is Word ==> one_word(steps, first, last) && !goes_on(
                    steps,
                    first - 1,
                    first - 2,
                )
                &&& !(steps[last].class is Word) ==> one_class(steps, first, last) && (first > 0
                    ==> steps[first - 1].class != steps[last].class)
            }
        }),
{
    let steps = steps_of(bytes, before);
    blanks_before(steps, steps.len() as int);
    let last = before_blanks(steps, steps.len() as int) - 1;
    if last < 0 {
        (0, last)
    } else if steps[last].class == WordClass::Word {
        word_runs_start(steps, last, last);
        (word_run_start(steps, last), last)
    } else {
        class_runs_start(steps, last, last);
        (class_run_start(steps, last), last)
    }
}

/// A word motion to the right passes over blanks and then over one word, or one
/// run of a single other class, and no more. Where all is blank, it lands at the
/// end of the text.
pub proof fn word_right_passes_one_word(
    bytes: Seq<u8>,
    after: Seq<Glyph>,
    length: int,
) -> (passed: (int, int))
    ensures
        ({
            let steps = steps_of(bytes, after);
            let (first, last) = passed;
            &&& 0 <= first <= steps.len()
            &&& forall|i: int| 0 <= i < first ==> (#[trigger] steps[i]).class is Whitespace
            &&& first == steps.len() ==> right_target(steps, length) == length
            &&& first < steps.len() ==> {
                &&& !(steps[first].class is Whitespace)
                &&& first <= last < steps.len()
                &&& right_target(steps, length) == after[last].end
                &&& steps[first].class is Word ==> one_word(steps, first, last) && !goes_on(
                    steps,
                    last + 1,
                    last + 2,
                )
                &&& !(steps[first].class is Word) ==> one_class(steps, first, last) && (last + 1
                    < steps.len() ==> steps[last + 1].class != steps[last].class)
            }
        }),
{
    let steps = steps_of(bytes, after);
    blanks_behind(steps, 0);
    let first = behind_blanks(steps, 0);
    if first >= steps.len() {
        (first, first)
    } else if steps[first].class == WordClass::Word {
        word_runs_end(steps, first, first);
        (first, word_run_end(steps, first))
    } else {
        class_runs_end(steps, first, first);
        (first, class_run_end(steps, first))
    }
}

/// A word motion never passes over a delimiter on its way through a word unless
/// it is an apostrophe or a hyphen, alone between two of the word's graphemes.
pub proof fn only_joiners_join_words(bytes: Seq<u8>, glyphs: Seq<Glyph>, first: int, last: int, i: int)
    requires
        one_word(steps_of(bytes, glyphs), first, last),
        first <= i <= last,
    ensures
        ({
            let grapheme = part(bytes, glyphs[i].start as int, glyphs[i].end as int);
            let wordy = grapheme.len() > 0 && !whitespace(grapheme[0]) && !cjk(grapheme[0]) && (
            alphanumeric(grapheme[0]) || grapheme[0] == '_');
            wordy || first < i < last && (grapheme =~= seq!['\''] || grapheme =~= seq!['\u{2019}']
                || grapheme =~= seq!['-'] || grapheme =~= seq!['\u{2010}'] || grapheme
                =~= seq!['\u{2011}'])
        }),
{
    let steps = steps_of(bytes, glyphs);
    graphemes_have_one_class(part(bytes, glyphs[i].start as int, glyphs[i].end as int));
    assert(steps[i].class is Word || steps[i].joiner);
}

} // verus!
