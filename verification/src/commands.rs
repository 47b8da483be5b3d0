//! Slash-command completion over a fixed palette.

use vstd::prelude::*;
use vstd::slice::*;
use vstd::string::*;

use crate::chars::{all_whitespace, is_whitespace, lowered, to_ascii_lower, whitespace};
use crate::completion::{
    copy_text, plain_tab, shown_text, suggestion_views, suggestions_view, tab_plainly, DisplayView,
    EditorCompletion, Icon, Suggestion, SuggestionDisplay, SuggestionView, Suggestions, TabAction,
    TabView,
};
use crate::layout::{
    cut_part, find_line_start, is_all_whitespace, line_start, line_start_is_boundary, part,
};
use crate::motion::{bytes_before, bytes_before_cut, bytes_before_grows};
use crate::numbers::{decimal, to_decimal};
use crate::scoring::{
    breakout_match_tier, breakout_tier, command_rank, command_score, fuzzy, fuzzy_match_spans,
    fuzzy_score, has_prefix, lower_bytes, match_spans, same_bytes, starts_with, to_lower_bytes,
};
use crate::strings::{boundary, byte_len, char_len, chars_of, ends_are_boundaries, same_text, utf8};
use crate::text::push_char;

verus! {

/// One argument candidate completed after a command name (`/mcp add …`).
#[derive(Debug)]
pub struct CommandArgument {
    /// Text inserted into the editor.
    pub value: String,
    /// One-line candidate description.
    pub description: String,
    /// Ghosted usage after insertion.
    pub usage: Option<String>,
}

/// One argument candidate.
pub struct ArgumentView {
    /// Text inserted into the editor.
    pub value: Seq<char>,
    /// One-line candidate description.
    pub description: Seq<char>,
    /// Ghosted usage after insertion.
    pub usage: Option<Seq<char>>,
}

impl View for CommandArgument {
    type V = ArgumentView;

    open spec fn view(&self) -> ArgumentView {
        ArgumentView {
            value: self.value@,
            description: self.description@,
            usage: shown_text(self.usage),
        }
    }
}

/// The views of argument candidates.
pub open spec fn argument_views(items: Seq<CommandArgument>) -> Seq<ArgumentView> {
    items.map_values(|item: CommandArgument| item@)
}

/// One slash-command palette entry completed by [`SlashCommands`].
pub struct Command {
    /// The primary spelling, without the leading `/`.
    pub name: String,
    /// The one-line blurb shown beside the name.
    pub description: String,
    /// Other spellings.
    pub aliases: Vec<String>,
    /// Type-indicator icon.
    pub icon: Option<Icon>,
    /// Argument candidates offered once the name is complete.
    pub args: Vec<CommandArgument>,
    /// Usage hint shown after the cursor.
    pub hint: Option<String>,
    /// Live candidates for the first argument, while it is being typed.
    pub dynamic_args: Vec<CommandArgument>,
    /// Live status line in place of the description.
    pub status: Option<String>,
}

/// One slash-command palette entry.
pub struct CommandView {
    /// The primary spelling.
    pub name: Seq<char>,
    /// The blurb.
    pub description: Seq<char>,
    /// Other spellings.
    pub aliases: Seq<Seq<char>>,
    /// Type-indicator icon.
    pub icon: Option<Icon>,
    /// Argument candidates.
    pub args: Seq<ArgumentView>,
    /// Usage hint.
    pub hint: Option<Seq<char>>,
    /// Live candidates for the first argument.
    pub dynamic_args: Seq<ArgumentView>,
    /// Live status line.
    pub status: Option<Seq<char>>,
}

/// The characters of texts.
pub open spec fn text_views(items: Seq<String>) -> Seq<Seq<char>> {
    items.map_values(|item: String| item@)
}

impl View for Command {
    type V = CommandView;

    open spec fn view(&self) -> CommandView {
        CommandView {
            name: self.name@,
            description: self.description@,
            aliases: text_views(self.aliases@),
            icon: self.icon,
            args: argument_views(self.args@),
            hint: shown_text(self.hint),
            dynamic_args: argument_views(self.dynamic_args@),
            status: shown_text(self.status),
        }
    }
}

impl Command {
    /// Builds a palette entry from its name, blurb, and alias spellings.
    pub fn new(name: &str, description: &str, aliases: Vec<String>) -> (command: Self)
        ensures
            command@ == (CommandView {
                name: name@,
                description: description@,
                aliases: text_views(aliases@),
                icon: None,
                args: Seq::empty(),
                hint: None,
                dynamic_args: Seq::empty(),
                status: None,
            }),
    {
        let command = Command {
            name: name.to_owned(),
            description: description.to_owned(),
            aliases,
            icon: None,
            args: Vec::new(),
            hint: None,
            dynamic_args: Vec::new(),
            status: None,
        };
        assert(command@.args =~= Seq::empty());
        assert(command@.dynamic_args =~= Seq::empty());
        command
    }

    /// Assigns a semantic type-indicator icon resolved by the active charset.
    pub fn with_icon(self, icon: Icon) -> (command: Self)
        ensures
            command@ == (CommandView { icon: Some(icon), ..self@ }),
    {
        let mut command = self;
        command.icon = Some(icon);
        command
    }

    /// Supplies live argument candidates. They are offered only while this
    /// command's first argument is being completed.
    pub fn with_dynamic_args(self, candidates: Vec<CommandArgument>) -> (command: Self)
        ensures
            command@ == (CommandView { dynamic_args: argument_views(candidates@), ..self@ }),
    {
        let mut command = self;
        command.dynamic_args = candidates;
        command
    }

    /// Supplies a live status line for the command-palette description.
    pub fn with_status(self, status: &str) -> (command: Self)
        ensures
            command@ == (CommandView { status: Some(status@), ..self@ }),
    {
        let mut command = self;
        command.status = Some(status.to_owned());
        command
    }

    /// Argument candidates offered once the command name is complete:
    /// name, description, and usage, with `""` usage meaning none. Usage
    /// text ghosts after the argument (`<path>`, `<a> <b>`).
    pub fn with_args(self, args: Vec<(String, String, String)>) -> (command: Self)
        ensures
            command@ == (CommandView {
                args: Seq::new(
                    args@.len(),
                    |i: int| argument_of(args@[i].0@, args@[i].1@, args@[i].2@),
                ),
                ..self@
            }),
    {
        let mut list: Vec<CommandArgument> = Vec::new();
        let mut at: usize = 0;
        while at < args.len()
            invariant
                at <= args.len(),
                list.len() == at,
                forall|i: int|
                    0 <= i < at ==> (#[trigger] list@[i])@ == argument_of(
                        args@[i].0@,
                        args@[i].1@,
                        args@[i].2@,
                    ),
            decreases args.len() - at,
        {
            let (name, description, usage): &(String, String, String) = &args[at];
            let none: bool = byte_len(usage.as_str()) == 0;
            proof {
                if usage@.len() > 0 {
                    crate::strings::first_byte_leads(usage@);
                } else {
                    assert(usage@ =~= Seq::empty());
                    assert(utf8(usage@).len() == 0);
                }
            }
            list.push(
                CommandArgument {
                    value: name.clone(),
                    description: description.clone(),
                    usage: if none {
                        None
                    } else {
                        Some(usage.clone())
                    },
                },
            );
            at += 1;
        }
        let mut command = self;
        command.args = list;
        assert(command@.args =~= Seq::new(
            args@.len(),
            |i: int| argument_of(args@[i].0@, args@[i].1@, args@[i].2@),
        ));
        command
    }

    /// Usage hint shown as dim ghost text after the cursor
    /// (e.g. `<name> [--scope project|user]`).
    pub fn with_hint(self, hint: &str) -> (command: Self)
        ensures
            command@ == (CommandView { hint: Some(hint@), ..self@ }),
    {
        let mut command = self;
        command.hint = Some(hint.to_owned());
        command
    }

    /// The command's primary spelling, without the leading `/`.
    pub fn name(&self) -> (name: &str)
        ensures
            name@ == self@.name,
    {
        self.name.as_str()
    }

    /// Semantic type-indicator icon resolved by the active charset.
    pub fn icon(&self) -> (icon: Option<Icon>)
        ensures
            icon == self@.icon,
    {
        self.icon
    }

    /// The one-line blurb shown beside the command name.
    pub fn description(&self) -> (description: &str)
        ensures
            description@ == self@.description,
    {
        self.description.as_str()
    }
}

/// An argument candidate whose empty usage means none.
pub open spec fn argument_of(name: Seq<char>, description: Seq<char>, usage: Seq<char>) -> ArgumentView {
    ArgumentView {
        value: name,
        description,
        usage: if usage.len() == 0 {
            None
        } else {
            Some(usage)
        },
    }
}

/// Slash-command completion over a fixed [`Command`] palette.
///
/// `/` at a line start opens ranked name completion, the first argument
/// completes against candidates, and usage text ghosts after the cursor.
pub struct SlashCommands {
    /// The palette.
    pub commands: Vec<Command>,
    /// Persisted invocation counts, by palette position.
    pub usage: Vec<u64>,
    /// Filesystem candidates for the path being typed after `/move`.
    pub paths: Vec<CommandArgument>,
}

/// A palette with what the host knows of it.
pub struct PaletteView {
    /// The palette.
    pub commands: Seq<CommandView>,
    /// Invocation counts.
    pub usage: Seq<u64>,
    /// Filesystem candidates.
    pub paths: Seq<ArgumentView>,
}

/// The views of palette entries.
pub open spec fn command_views(items: Seq<Command>) -> Seq<CommandView> {
    items.map_values(|item: Command| item@)
}

impl View for SlashCommands {
    type V = PaletteView;

    open spec fn view(&self) -> PaletteView {
        PaletteView {
            commands: command_views(self.commands@),
            usage: self.usage@,
            paths: argument_views(self.paths@),
        }
    }
}

/// A completion row with what it ranks by.
pub struct Ranked {
    /// How well it matches.
    pub score: u16,
    /// How often it was used.
    pub usage: u64,
    /// The row.
    pub row: Suggestion,
}

/// A completion row with what it ranks by.
pub struct RankedView {
    /// How well it matches.
    pub score: int,
    /// How often it was used.
    pub usage: u64,
    /// The row.
    pub row: SuggestionView,
}

impl View for Ranked {
    type V = RankedView;

    open spec fn view(&self) -> RankedView {
        RankedView { score: self.score as int, usage: self.usage, row: self.row@ }
    }
}

/// The views of ranked rows.
pub open spec fn ranked_views(items: Seq<Ranked>) -> Seq<RankedView> {
    items.map_values(|item: Ranked| item@)
}

/// The rows of a ranking.
pub open spec fn rows_of(items: Seq<RankedView>) -> Seq<SuggestionView> {
    items.map_values(|item: RankedView| item.row)
}

/// Whether `a` ranks above `b`: by score, then by use.
pub open spec fn outranks(a: RankedView, b: RankedView) -> bool {
    a.score > b.score || a.score == b.score && a.usage > b.usage
}

/// Where an item goes among the first `at` of a ranking: behind every one that
/// it does not outrank.
pub open spec fn rank_position(ranking: Seq<RankedView>, item: RankedView, at: int) -> int
    decreases at,
{
    if at <= 0 {
        0
    } else if outranks(item, ranking[at - 1]) {
        rank_position(ranking, item, at - 1)
    } else {
        at
    }
}

/// A ranking with one item more.
pub open spec fn with_ranked(ranking: Seq<RankedView>, item: RankedView) -> Seq<RankedView> {
    ranking.insert(rank_position(ranking, item, ranking.len() as int), item)
}

/// Whether nothing in a ranking outranks what stands before it.
pub open spec fn descending(ranking: Seq<RankedView>) -> bool {
    forall|i: int, j: int|
        0 <= i < j < ranking.len() ==> !outranks(#[trigger] ranking[j], #[trigger] ranking[i])
}

/// Where an item goes, nothing before it is outranked by it and it outranks
/// everything behind.
proof fn rank_position_facts(ranking: Seq<RankedView>, item: RankedView, at: int)
    requires
        descending(ranking),
        0 <= at <= ranking.len(),
        forall|i: int| at <= i < ranking.len() ==> outranks(item, #[trigger] ranking[i]),
    ensures
        0 <= rank_position(ranking, item, at) <= at,
        forall|i: int|
            rank_position(ranking, item, at) <= i < ranking.len() ==> outranks(
                item,
                #[trigger] ranking[i],
            ),
        forall|i: int|
            0 <= i < rank_position(ranking, item, at) ==> !outranks(item, #[trigger] ranking[i]),
    decreases at,
{
    if at > 0 {
        if outranks(item, ranking[at - 1]) {
            rank_position_facts(ranking, item, at - 1);
        } else {
            assert forall|i: int| 0 <= i < at implies !outranks(item, #[trigger] ranking[i]) by {
                if i < at - 1 {
                    assert(!outranks(ranking[at - 1], ranking[i]));
                }
            }
        }
    }
}

/// Ranking one item more keeps the order.
pub proof fn ranking_stays_in_order(ranking: Seq<RankedView>, item: RankedView)
    requires
        descending(ranking),
    ensures
        descending(with_ranked(ranking, item)),
        with_ranked(ranking, item).len() == ranking.len() + 1,
        with_ranked(ranking, item).to_multiset() == ranking.to_multiset().insert(item),
{
    rank_position_facts(ranking, item, ranking.len() as int);
    let at = rank_position(ranking, item, ranking.len() as int);
    let all = ranking.insert(at, item);
    assert forall|i: int, j: int| 0 <= i < j < all.len() implies !outranks(
        #[trigger] all[j],
        #[trigger] all[i],
    ) by {
        let from = |k: int|
            if k < at {
                k
            } else {
                k - 1
            };
        if i != at && j != at {
            assert(!outranks(ranking[from(j)], ranking[from(i)]));
        }
    }
    ranking.insert_ensures(at, item);
    vstd::seq_lib::to_multiset_insert(ranking, at, item);
}

/// Ranks one item more.
pub fn rank(ranking: &mut Vec<Ranked>, item: Ranked)
    ensures
        ranked_views(final(ranking)@) == with_ranked(ranked_views(old(ranking)@), item@),
{
    let ghost views = ranked_views(ranking@);
    let mut at: usize = ranking.len();
    while at > 0 && (item.score > ranking[at - 1].score || item.score == ranking[at - 1].score
        && item.usage > ranking[at - 1].usage)
        invariant
            at <= ranking.len(),
            views == ranked_views(ranking@),
            *ranking == *old(ranking),
            rank_position(views, item@, views.len() as int) == rank_position(
                views,
                item@,
                at as int,
            ),
        decreases at,
    {
        assert(views[at - 1] == ranking@[at - 1]@);
        at -= 1;
    }
    proof {
        if at > 0 {
            assert(views[at - 1] == ranking@[at - 1]@);
        }
    }
    let ghost added = item@;
    ranking.insert(at, item);
    assert(ranked_views(ranking@) =~= views.insert(at as int, added));
}

/// The first character position, from `at` on, that is whitespace, or a colon
/// where colons count.
pub open spec fn gap_from(text: Seq<char>, colons: bool, at: int) -> Option<int>
    decreases text.len() - at,
{
    if at >= text.len() {
        None
    } else if whitespace(text[at]) || colons && text[at] == ':' {
        Some(at)
    } else {
        gap_from(text, colons, at + 1)
    }
}

/// Byte offset of the first whitespace in a text, or colon where colons count.
pub open spec fn gap(text: Seq<char>, colons: bool) -> Option<int> {
    match gap_from(text, colons, 0) {
        Some(at) => Some(bytes_before(text, at)),
        None => None,
    }
}

/// Byte offset of the first whitespace in a text, or colon where colons count.
pub fn find_gap(text: &str, colons: bool) -> (found: Option<usize>)
    ensures
        crate::buffer::offset_view(found) == gap(text@, colons),
        found matches Some(at) ==> boundary(utf8(text@), at as int),
{
    let chars: Vec<char> = chars_of(text);
    let length: usize = byte_len(text);
    let mut at: usize = 0;
    let mut offset: usize = 0;
    assert(chars@.take(0) =~= Seq::empty());
    while at < chars.len()
        invariant
            at <= chars.len(),
            chars@ == text@,
            length == utf8(text@).len(),
            offset <= length,
            offset == bytes_before(text@, at as int),
            gap_from(text@, colons, 0) == gap_from(text@, colons, at as int),
        decreases chars.len() - at,
    {
        if is_whitespace(chars[at]) || colons && chars[at] == ':' {
            proof {
                bytes_before_cut(text@, at as int);
            }
            return Some(offset);
        }
        proof {
            bytes_before_grows(text@, at as int);
        }
        offset += char_len(chars[at]);
        at += 1;
    }
    None
}

/// Where the token at the cursor ends: the next whitespace, or the end.
pub open spec fn token_stop(bytes: Seq<u8>, cursor: int) -> int {
    match gap(part(bytes, cursor, bytes.len() as int), false) {
        Some(at) => cursor + at,
        None => bytes.len() as int,
    }
}

/// Where the token at the cursor ends.
pub fn completion_token_end(text: &str, cursor: usize) -> (end: usize)
    requires
        boundary(utf8(text@), cursor as int),
    ensures
        end == token_stop(utf8(text@), cursor as int),
        cursor <= end <= utf8(text@).len(),
        boundary(utf8(text@), end as int),
{
    let length: usize = byte_len(text);
    proof {
        ends_are_boundaries(text@);
    }
    let behind: &str = cut_part(text, cursor, length);
    match find_gap(behind, false) {
        Some(at) => {
            assert(boundary(utf8(behind@), at as int));
            cursor + at
        },
        None => length,
    }
}

/// Position behind the leading bytes that are blanks, or colons where colons
/// count.
pub open spec fn lead(bytes: Seq<u8>, colons: bool, at: int) -> int
    decreases bytes.len() - at,
{
    if 0 <= at < bytes.len() && (bytes[at] == 32 || bytes[at] == 9 || colons && bytes[at] == 58) {
        lead(bytes, colons, at + 1)
    } else {
        at
    }
}

/// Position behind the leading blanks of a text, and colons where colons count.
pub fn skip_lead(text: &str, colons: bool) -> (at: usize)
    ensures
        at == lead(utf8(text@), colons, 0),
        at <= utf8(text@).len(),
        boundary(utf8(text@), at as int),
{
    let bytes: &[u8] = text.as_bytes();
    let mut at: usize = 0;
    proof {
        ends_are_boundaries(text@);
    }
    while at < bytes.len() && (bytes[at] == 32 || bytes[at] == 9 || colons && bytes[at] == 58)
        invariant
            at <= bytes.len(),
            bytes@ == utf8(text@),
            boundary(bytes@, at as int),
            lead(bytes@, colons, 0) == lead(bytes@, colons, at as int),
        decreases bytes.len() - at,
    {
        proof {
            crate::codes::ascii_byte_boundaries(text@, at as int);
        }
        at += 1;
    }
    at
}

/// The text behind `/` on a line, where only blanks stand before it, and where
/// that text starts.
pub open spec fn slash_body(line: Seq<u8>) -> Option<(int, Seq<u8>)> {
    let indent = lead(line, false, 0);
    if indent < line.len() && line[indent] == 47 {
        Some((indent + 1, line.subrange(indent + 1, line.len() as int)))
    } else {
        None
    }
}

/// The text behind `/` on a line, where only blanks stand before it, and where
/// that text starts.
pub fn find_slash_body(line: &str) -> (found: Option<(usize, &str)>)
    ensures
        match found {
            Some((at, body)) => slash_body(utf8(line@)) == Some((at as int, utf8(body@))) && 1 <= at
                && at + utf8(body@).len() == utf8(line@).len() && body@ == part(
                utf8(line@),
                at as int,
                utf8(line@).len() as int,
            ),
            None => slash_body(utf8(line@)) is None,
        },
{
    let indent: usize = skip_lead(line, false);
    let bytes: &[u8] = line.as_bytes();
    if indent < bytes.len() && bytes[indent] == 47 {
        proof {
            crate::codes::ascii_byte_boundaries(line@, indent as int);
            ends_are_boundaries(line@);
        }
        let body: &str = cut_part(line, indent + 1, bytes.len());
        Some((indent + 1, body))
    } else {
        None
    }
}

/// Whether a byte occurs among the bytes.
pub open spec fn holds_byte(bytes: Seq<u8>, wanted: u8) -> bool {
    exists|i: int| 0 <= i < bytes.len() && bytes[i] == wanted
}

/// Whether a byte occurs among the bytes.
fn has_byte(bytes: &[u8], wanted: u8) -> (yes: bool)
    ensures
        yes == holds_byte(bytes@, wanted),
{
    let mut at: usize = 0;
    while at < bytes.len()
        invariant
            at <= bytes.len(),
            forall|i: int| 0 <= i < at ==> bytes@[i] != wanted,
        decreases bytes.len() - at,
    {
        if bytes[at] == wanted {
            return true;
        }
        at += 1;
    }
    false
}

/// The prefix of skill commands.
pub open spec fn skill_prefix() -> Seq<u8> {
    utf8("skill:"@)
}

/// Whether a command is a skill.
pub open spec fn is_skill(command: CommandView) -> bool {
    starts_with(utf8(command.name), skill_prefix())
}

/// A skill's name without the prefix.
pub open spec fn bare_name(command: CommandView) -> Seq<u8> {
    utf8(command.name).subrange(skill_prefix().len() as int, utf8(command.name).len() as int)
}

/// The larger of two numbers.
pub open spec fn larger_of(a: int, b: int) -> int {
    if a >= b {
        a
    } else {
        b
    }
}

/// The best exact or prefix match among names from `at` on.
pub open spec fn best_tier(query: Seq<u8>, names: Seq<Seq<char>>, at: int) -> int
    decreases names.len() - at,
{
    if at >= names.len() {
        0
    } else {
        larger_of(breakout_tier(query, utf8(names[at])), best_tier(query, names, at + 1))
    }
}

/// The best exact or prefix match among the commands from `at` on that are no
/// skills, by any of their spellings.
pub open spec fn strongest_tier(query: Seq<u8>, commands: Seq<CommandView>, at: int) -> int
    decreases commands.len() - at,
{
    if at >= commands.len() {
        0
    } else if is_skill(commands[at]) {
        strongest_tier(query, commands, at + 1)
    } else {
        larger_of(
            larger_of(
                breakout_tier(query, utf8(commands[at].name)),
                best_tier(query, commands[at].aliases, 0),
            ),
            strongest_tier(query, commands, at + 1),
        )
    }
}

/// What a query asks of the palette.
pub struct NameQuery {
    /// The typed name, in lower case.
    pub query: Seq<u8>,
    /// Whether skills are being completed.
    pub in_skills: bool,
    /// Whether the query is a start of the skill prefix.
    pub near_skills: bool,
    /// The best match that a command which is no skill offers.
    pub strongest: int,
}

/// What a typed name asks of the palette.
pub open spec fn name_query(body: Seq<u8>, commands: Seq<CommandView>) -> NameQuery {
    let query = lower_bytes(body);
    let near_skills = starts_with(skill_prefix(), query);
    NameQuery {
        query,
        in_skills: starts_with(query, skill_prefix()),
        near_skills,
        strongest: if near_skills {
            0
        } else {
            strongest_tier(query, commands, 0)
        },
    }
}

/// Whether a command is left out: a skill, unless skills are being completed
/// or its bare name matches better than every command that is none.
pub open spec fn left_out(command: CommandView, asked: NameQuery) -> bool {
    is_skill(command) && !asked.in_skills && (asked.near_skills || breakout_tier(
        asked.query,
        bare_name(command),
    ) <= asked.strongest)
}

/// The best spelling so far and its score, with the aliases from `at` on.
pub open spec fn best_alias(
    query: Seq<u8>,
    aliases: Seq<Seq<char>>,
    at: int,
    name: Seq<char>,
    score: int,
) -> (Seq<char>, int)
    decreases aliases.len() - at,
{
    if at >= aliases.len() {
        (name, score)
    } else {
        let next = command_rank(query, utf8(aliases[at]));
        if next > score {
            best_alias(query, aliases, at + 1, aliases[at], next)
        } else {
            best_alias(query, aliases, at + 1, name, score)
        }
    }
}

/// The best spelling of a command and how well the command matches.
pub open spec fn best_spelling(command: CommandView, query: Seq<u8>) -> (Seq<char>, int) {
    let own = command_rank(query, utf8(command.name));
    let first = if is_skill(command) {
        larger_of(own, command_rank(query, bare_name(command)))
    } else {
        own
    };
    let (name, score) = best_alias(query, command.aliases, 0, command.name, first);
    (name, larger_of(score, fuzzy(query, lower_bytes(utf8(command.description))) / 2))
}

/// The row of a command under one of its spellings.
pub open spec fn command_row(command: CommandView, name: Seq<char>, query: Seq<u8>) -> SuggestionView {
    SuggestionView {
        value: seq!['/'] + name + seq![' '],
        display: DisplayView::Text(name),
        description: Some(
            match command.status {
                Some(status) => status,
                None => command.description,
            },
        ),
        icon: command.icon,
        hint: command.hint,
        category: Some("Commands"@),
        match_spans: match_spans(utf8(name), query),
        submits: true,
    }
}

/// The ranking with the commands from `at` on.
pub open spec fn ranked_commands(
    palette: PaletteView,
    asked: NameQuery,
    at: int,
    ranking: Seq<RankedView>,
) -> Seq<RankedView>
    decreases palette.commands.len() - at,
{
    if at >= palette.commands.len() {
        ranking
    } else {
        let command = palette.commands[at];
        let (name, score) = best_spelling(command, asked.query);
        let next = if left_out(command, asked) || score <= 0 {
            ranking
        } else {
            with_ranked(
                ranking,
                RankedView {
                    score,
                    usage: if at < palette.usage.len() {
                        palette.usage[at]
                    } else {
                        0
                    },
                    row: command_row(command, name, asked.query),
                },
            )
        };
        ranked_commands(palette, asked, at + 1, next)
    }
}

/// Number of skills among the commands from `at` on.
pub open spec fn skill_count(commands: Seq<CommandView>, at: int) -> nat
    decreases commands.len() - at,
{
    if at >= commands.len() {
        0
    } else {
        skill_count(commands, at + 1) + (if is_skill(commands[at]) {
            1nat
        } else {
            0
        })
    }
}

/// The icon of the first skill among the commands from `at` on.
pub open spec fn skill_icon(commands: Seq<CommandView>, at: int) -> Option<Icon>
    decreases commands.len() - at,
{
    if at >= commands.len() {
        None
    } else if is_skill(commands[at]) {
        commands[at].icon
    } else {
        skill_icon(commands, at + 1)
    }
}

/// The row that opens the skills.
pub open spec fn skills_row(commands: Seq<CommandView>, query: Seq<u8>) -> SuggestionView {
    let count = skill_count(commands, 0);
    SuggestionView {
        value: "/skill:"@,
        display: DisplayView::Text("skill:"@),
        description: Some(
            decimal(count) + (if count == 1 {
                " skill"@
            } else {
                " skills"@
            }),
        ),
        icon: skill_icon(commands, 0),
        hint: None,
        category: Some("Commands"@),
        match_spans: match_spans(skill_prefix(), query),
        submits: false,
    }
}

/// The rows for a command name being typed behind `/`.
pub open spec fn name_rows(palette: PaletteView, body: Seq<u8>) -> Seq<SuggestionView> {
    let asked = name_query(body, palette.commands);
    let ranking = ranked_commands(palette, asked, 0, Seq::empty());
    rows_of(
        if !asked.in_skills && skill_count(palette.commands, 0) > 0 && asked.near_skills {
            with_ranked(
                ranking,
                RankedView {
                    score: command_rank(asked.query, skill_prefix()),
                    usage: 0,
                    row: skills_row(palette.commands, asked.query),
                },
            )
        } else {
            ranking
        },
    )
}

/// Rows together with the range they replace, where there are any.
pub open spec fn offered(start: int, end: int, rows: Seq<SuggestionView>) -> Option<
    (int, int, Seq<SuggestionView>),
> {
    if rows.len() == 0 {
        None
    } else {
        Some((start, end, rows))
    }
}

/// The first command, from `at` on, with the given spelling.
pub open spec fn command_named(commands: Seq<CommandView>, name: Seq<char>, at: int) -> Option<int>
    decreases commands.len() - at,
{
    if at >= commands.len() {
        None
    } else if commands[at].name == name || commands[at].aliases.contains(name) {
        Some(at)
    } else {
        command_named(commands, name, at + 1)
    }
}

/// The first bytes of two texts, whatever their case, are the same, and the
/// text behind them is cut off there.
pub open spec fn typed_part(value: Seq<u8>, partial: Seq<u8>) -> bool {
    boundary(value, partial.len() as int) && lower_bytes(
        value.subrange(0, partial.len() as int),
    ) == lower_bytes(partial)
}

/// Ghost text of an argument: what is left of it to type, and its usage.
pub open spec fn argument_ghost(value: Seq<char>, partial: Seq<u8>, usage: Option<Seq<char>>) -> Option<
    Seq<char>,
> {
    let bytes = utf8(value);
    if partial.len() == 0 {
        None
    } else if typed_part(bytes, partial) {
        if partial.len() == bytes.len() {
            usage
        } else {
            let rest = part(bytes, partial.len() as int, bytes.len() as int);
            match usage {
                Some(text) => Some(rest + seq![' '] + text),
                None => Some(rest),
            }
        }
    } else {
        usage
    }
}

/// The row of an argument candidate.
pub open spec fn argument_row(
    argument: ArgumentView,
    partial: Seq<u8>,
    spaced: bool,
) -> SuggestionView {
    SuggestionView {
        value: if spaced {
            argument.value + seq![' ']
        } else {
            argument.value
        },
        display: DisplayView::Text(argument.value),
        description: Some(argument.description),
        icon: None,
        hint: argument_ghost(argument.value, partial, argument.usage),
        category: Some("Arguments"@),
        match_spans: match_spans(utf8(argument.value), lower_bytes(partial)),
        submits: false,
    }
}

/// The ranking with the argument candidates from `at` on.
pub open spec fn ranked_arguments(
    arguments: Seq<ArgumentView>,
    partial: Seq<u8>,
    spaced: bool,
    at: int,
    ranking: Seq<RankedView>,
) -> Seq<RankedView>
    decreases arguments.len() - at,
{
    if at >= arguments.len() {
        ranking
    } else {
        let argument = arguments[at];
        let score = command_rank(lower_bytes(partial), lower_bytes(utf8(argument.value)));
        let next = if score > 0 {
            with_ranked(
                ranking,
                RankedView { score, usage: 0, row: argument_row(argument, partial, spaced) },
            )
        } else {
            ranking
        };
        ranked_arguments(arguments, partial, spaced, at + 1, next)
    }
}

/// The rows for an argument being typed: `partial` is the argument tail. Only
/// the first argument completes against candidates.
pub open spec fn argument_rows(palette: PaletteView, command: CommandView, partial: Seq<char>) -> Seq<
    SuggestionView,
> {
    let typed = utf8(partial);
    let first = gap(partial, false) is None;
    let fixed = ranked_arguments(command.args, typed, true, 0, Seq::empty());
    let live = ranked_arguments(command.dynamic_args, typed, true, 0, fixed);
    if !first {
        Seq::empty()
    } else if command.name == "move"@ {
        rows_of(ranked_arguments(palette.paths, typed, false, 0, live))
    } else {
        rows_of(live)
    }
}

/// What is offered for the argument behind `delimiter` of a command body that
/// ends at the cursor.
pub open spec fn offered_arguments(
    palette: PaletteView,
    cursor: int,
    body: Seq<u8>,
    delimiter: int,
    range_end: int,
) -> Option<(int, int, Seq<SuggestionView>)> {
    let rest = body.subrange(delimiter, body.len() as int);
    let skipped = lead(rest, true, 0);
    let partial = part(rest, skipped, rest.len() as int);
    match command_named(palette.commands, part(body, 0, delimiter), 0) {
        None => None,
        Some(at) => offered(
            cursor - (rest.len() - skipped),
            range_end,
            argument_rows(palette, palette.commands[at], partial),
        ),
    }
}

/// The command whose first argument is being typed on a line that ends at the
/// cursor, and the argument so far.
pub open spec fn argument_in_progress(commands: Seq<CommandView>, line: Seq<u8>) -> Option<
    (int, Seq<char>),
> {
    match slash_body(line) {
        None => None,
        Some((at, body)) => {
            let text = part(line, at, line.len() as int);
            if starts_with(body, skill_prefix()) && gap(text, false) is None {
                None
            } else {
                match gap(text, true) {
                    None => None,
                    Some(delimiter) => {
                        let rest = body.subrange(delimiter, body.len() as int);
                        let typed = part(rest, lead(rest, true, 0), rest.len() as int);
                        match command_named(commands, part(body, 0, delimiter), 0) {
                            Some(index) if gap(typed, false) is None => Some((index, typed)),
                            _ => None,
                        }
                    },
                }
            }
        },
    }
}

/// What is offered for the command name on a line.
pub open spec fn offered_names(
    palette: PaletteView,
    line_start: int,
    line: Seq<u8>,
    range_end: int,
) -> Option<(int, int, Seq<SuggestionView>)> {
    match slash_body(line) {
        None => None,
        Some((at, body)) => if holds_byte(body, 47) {
            None
        } else {
            offered(line_start + at - 1, range_end, name_rows(palette, body))
        },
    }
}

/// What the palette offers for a text and cursor.
pub open spec fn offered_commands(palette: PaletteView, bytes: Seq<u8>, cursor: int) -> Option<
    (int, int, Seq<SuggestionView>),
> {
    let from = line_start(bytes, cursor);
    let line = bytes.subrange(from, cursor);
    match slash_body(line) {
        None => None,
        Some((at, body)) => {
            let end = token_stop(bytes, cursor);
            let text = part(line, at, line.len() as int);
            if starts_with(body, skill_prefix()) && gap(text, false) is None {
                offered_names(palette, from, line, end)
            } else {
                match gap(text, true) {
                    Some(delimiter) => offered_arguments(palette, cursor, body, delimiter, end),
                    None => offered_names(palette, from, line, end),
                }
            }
        },
    }
}

/// The first argument candidate, from `at` on, whose name starts as typed.
pub open spec fn argument_starting(
    arguments: Seq<ArgumentView>,
    prefix: Seq<char>,
    at: int,
) -> Option<int>
    decreases arguments.len() - at,
{
    if at >= arguments.len() {
        None
    } else if prefix.is_prefix_of(arguments[at].value) {
        Some(at)
    } else {
        argument_starting(arguments, prefix, at + 1)
    }
}

/// The first argument candidate, from `at` on, with the given name.
pub open spec fn argument_named(arguments: Seq<ArgumentView>, name: Seq<char>, at: int) -> Option<int>
    decreases arguments.len() - at,
{
    if at >= arguments.len() {
        None
    } else if arguments[at].value == name {
        Some(at)
    } else {
        argument_named(arguments, name, at + 1)
    }
}

/// Number of words from `at` on; `inside` tells whether a word goes on there.
pub open spec fn word_count(text: Seq<char>, at: int, inside: bool) -> nat
    decreases text.len() - at,
{
    if at >= text.len() {
        0
    } else if whitespace(text[at]) {
        word_count(text, at + 1, false)
    } else {
        word_count(text, at + 1, true) + (if inside {
            0nat
        } else {
            1
        })
    }
}

/// The position of the first space at or behind `at`.
pub open spec fn space_from(text: Seq<char>, at: int) -> Option<int>
    decreases text.len() - at,
{
    if at >= text.len() {
        None
    } else if text[at] == ' ' {
        Some(at)
    } else {
        space_from(text, at + 1)
    }
}

/// A space is found where it is.
proof fn space_facts(text: Seq<char>, at: int)
    requires
        0 <= at,
    ensures
        space_from(text, at) matches Some(found) ==> at <= found < text.len(),
    decreases text.len() - at,
{
    if at < text.len() && text[at] != ' ' {
        space_facts(text, at + 1);
    }
}

/// Where the text behind the next `count` words, counted from `at`, starts.
pub open spec fn behind_words(text: Seq<char>, at: int, count: nat) -> Option<int>
    decreases count,
{
    if count == 0 {
        Some(at)
    } else {
        match space_from(text, at) {
            Some(space) => behind_words(text, space + 1, (count - 1) as nat),
            None => None,
        }
    }
}

/// Ghost text of a command's argument: what is left to type of it, or the
/// usage words not typed yet.
pub open spec fn usage_ghost(command: CommandView, argument: Seq<char>) -> Option<Seq<char>> {
    if argument.len() == 0 {
        command.hint
    } else {
        match gap_from(argument, false, 0) {
            None => {
                match argument_starting(command.args, lowered(argument), 0) {
                    None => None,
                    Some(i) => {
                        let rest = command.args[i].value.skip(argument.len() as int);
                        match command.args[i].usage {
                            Some(usage) => Some(rest + seq![' '] + usage),
                            None => if rest.len() == 0 {
                                None
                            } else {
                                Some(rest)
                            },
                        }
                    },
                }
            },
            Some(end) => match argument_named(command.args, argument.take(end), 0) {
                None => None,
                Some(i) => match command.args[i].usage {
                    None => None,
                    Some(usage) => {
                        let typed = word_count(argument.skip(end), 0, false);
                        match behind_words(usage, 0, typed) {
                            None => None,
                            Some(at) => if typed > 0 && at >= usage.len() {
                                None
                            } else {
                                Some(usage.skip(at))
                            },
                        }
                    },
                },
            },
        }
    }
}

/// The ghost text that the palette offers for a text and cursor.
pub open spec fn offered_hint(palette: PaletteView, bytes: Seq<u8>, cursor: int) -> Option<Seq<char>> {
    let line = bytes.subrange(line_start(bytes, cursor), cursor);
    match slash_body(line) {
        None => None,
        Some((at, body)) => match gap(part(line, at, line.len() as int), true) {
            None => None,
            Some(delimiter) => {
                let rest = body.subrange(delimiter, body.len() as int);
                match command_named(palette.commands, part(body, 0, delimiter), 0) {
                    None => None,
                    Some(i) => usage_ghost(
                        palette.commands[i],
                        part(rest, lead(rest, true, 0), rest.len() as int),
                    ),
                }
            },
        },
    }
}

/// Whether the built-in emoji dropdown may open: not behind a known command at
/// the start of the text.
pub open spec fn emoji_allowed(palette: PaletteView, bytes: Seq<u8>, cursor: int) -> bool {
    let from = line_start(bytes, cursor);
    let line = bytes.subrange(from, cursor);
    if !all_whitespace(part(bytes, 0, from)) {
        true
    } else {
        match slash_body(line) {
            None => true,
            Some((at, body)) => match gap(part(line, at, line.len() as int), false) {
                None => true,
                Some(delimiter) => command_named(palette.commands, part(body, 0, delimiter), 0)
                    is None,
            },
        }
    }
}

/// The text of some characters.
pub fn build_text(chars: &Vec<char>, from: usize, to: usize) -> (text: String)
    requires
        from <= to <= chars.len(),
    ensures
        text@ == chars@.subrange(from as int, to as int),
{
    let mut text: String = "".to_owned();
    proof {
        reveal_strlit("");
    }
    let mut at: usize = from;
    assert(text@ =~= chars@.subrange(from as int, from as int));
    while at < to
        invariant
            from <= at <= to <= chars.len(),
            text@ == chars@.subrange(from as int, at as int),
        decreases to - at,
    {
        push_char(&mut text, chars[at]);
        at += 1;
        assert(text@ =~= chars@.subrange(from as int, at as int));
    }
    text
}

/// `text` with a space and `more` behind it.
fn spaced(text: &str, more: &str) -> (result: String)
    ensures
        result@ == text@ + seq![' '] + more@,
{
    let mut result: String = text.to_owned();
    push_char(&mut result, ' ');
    result.append(more);
    assert(result@ =~= text@ + seq![' '] + more@);
    result
}

/// Ghost text of an argument.
pub fn argument_inline_hint(value: &str, partial: &str, usage: &Option<String>) -> (hint: Option<
    String,
>)
    ensures
        shown_text(hint) == argument_ghost(value@, utf8(partial@), shown_text(*usage)),
{
    let typed: usize = byte_len(partial);
    if typed == 0 {
        return None;
    }
    let length: usize = byte_len(value);
    proof {
        ends_are_boundaries(value@);
    }
    if crate::strings::at_boundary(value, typed) {
        let head: Vec<u8> = to_lower_bytes(slice_subrange(value.as_bytes(), 0, typed));
        let wanted: Vec<u8> = to_lower_bytes(partial.as_bytes());
        if same_bytes(head.as_slice(), wanted.as_slice()) {
            if typed == length {
                return copy_text(usage);
            }
            let rest: &str = cut_part(value, typed, length);
            return match usage {
                Some(text) => Some(spaced(rest, text.as_str())),
                None => Some(rest.to_owned()),
            };
        }
    }
    copy_text(usage)
}

/// The rows of a ranking.
fn take_rows(ranking: Vec<Ranked>) -> (rows: Vec<Suggestion>)
    ensures
        suggestion_views(rows@) == rows_of(ranked_views(ranking@)),
{
    let ghost views = ranked_views(ranking@);
    let mut left: Vec<Ranked> = ranking;
    let mut rows: Vec<Suggestion> = Vec::new();
    let ghost count = left.len();
    while left.len() > 0
        invariant
            left.len() <= count,
            count == views.len(),
            ranked_views(left@) == views.take(left.len() as int),
            suggestion_views(rows@) == rows_of(views.skip(left.len() as int)),
        decreases left.len(),
    {
        let ghost before = ranked_views(left@);
        let ghost at = left.len() - 1;
        let ghost earlier = suggestion_views(rows@);
        assert(before[at as int] == left@[at as int]@);
        match left.pop() {
            None => {},
            Some(item) => {
                let ghost row = item.row@;
                rows.insert(0, item.row);
                assert(suggestion_views(rows@) =~= seq![row] + earlier);
                assert(ranked_views(left@) =~= views.take(at as int));
                assert(row == views[at as int].row);
                assert(rows_of(views.skip(at as int)) =~= seq![row] + rows_of(
                    views.skip(at + 1),
                ));
            },
        }
    }
    assert(views.skip(0) =~= views);
    rows
}

impl SlashCommands {
    /// Wraps a command palette.
    pub fn new(commands: Vec<Command>) -> (palette: Self)
        ensures
            palette@ == (PaletteView {
                commands: command_views(commands@),
                usage: Seq::empty(),
                paths: Seq::empty(),
            }),
    {
        let palette = SlashCommands { commands, usage: Vec::new(), paths: Vec::new() };
        assert(palette@.usage =~= Seq::empty());
        assert(palette@.paths =~= Seq::empty());
        palette
    }

    /// Ranks equally matching command names by their persisted invocation
    /// count.
    pub fn with_usage(self, usage: Vec<u64>) -> (palette: Self)
        ensures
            palette@ == (PaletteView { usage: usage@, ..self@ }),
    {
        let mut palette = self;
        palette.usage = usage;
        palette
    }

    /// Supplies the filesystem candidates for the path being typed.
    pub fn set_paths(&mut self, paths: Vec<CommandArgument>)
        ensures
            final(self)@ == (PaletteView { paths: argument_views(paths@), ..old(self)@ }),
    {
        self.paths = paths;
    }

    /// The position of the first command with the given spelling.
    pub fn find(&self, name: &str) -> (found: Option<usize>)
        ensures
            crate::buffer::offset_view(found) == command_named(self@.commands, name@, 0),
            found matches Some(at) ==> at < self.commands.len(),
    {
        let ghost views = self@.commands;
        let mut at: usize = 0;
        while at < self.commands.len()
            invariant
                at <= self.commands.len(),
                views == self@.commands,
                views.len() == self.commands.len(),
                command_named(views, name@, 0) == command_named(views, name@, at as int),
            decreases self.commands.len() - at,
        {
            let command: &Command = &self.commands[at];
            assert(views[at as int] == command@);
            if same_text(command.name.as_str(), name) || has_text(&command.aliases, name) {
                return Some(at);
            }
            at += 1;
        }
        None
    }

    /// The best exact or prefix match of the commands that are no skills.
    fn find_strongest(&self, query: &Vec<u8>) -> (tier: u16)
        ensures
            tier == strongest_tier(query@, self@.commands, 0),
    {
        let ghost views = self@.commands;
        let mut tier: u16 = 0;
        let mut at: usize = self.commands.len();
        assert(views.len() == at);
        while at > 0
            invariant
                at <= self.commands.len(),
                views == self@.commands,
                views.len() == self.commands.len(),
                tier == strongest_tier(query@, views, at as int),
            decreases at,
        {
            at -= 1;
            let command: &Command = &self.commands[at];
            assert(views[at as int] == command@);
            if !is_skill_name(command.name.as_str()) {
                let own: u16 = breakout_match_tier(
                    query.as_slice(),
                    command.name.as_str().as_bytes(),
                );
                let other: u16 = find_best_tier(query, &command.aliases);
                let best: u16 = if own >= other {
                    own
                } else {
                    other
                };
                if best >= tier {
                    tier = best;
                }
            }
        }
        tier
    }

    /// Number of skills in the palette, and the icon of the first.
    fn count_skills(&self) -> (skills: (usize, Option<Icon>))
        ensures
            skills.0 == skill_count(self@.commands, 0),
            skills.1 == skill_icon(self@.commands, 0),
    {
        let ghost views = self@.commands;
        let mut count: usize = 0;
        let mut icon: Option<Icon> = None;
        let mut at: usize = self.commands.len();
        assert(views.len() == at);
        while at > 0
            invariant
                at <= self.commands.len(),
                views == self@.commands,
                views.len() == self.commands.len(),
                count <= self.commands.len() - at,
                count == skill_count(views, at as int),
                icon == skill_icon(views, at as int),
            decreases at,
        {
            at -= 1;
            let command: &Command = &self.commands[at];
            assert(views[at as int] == command@);
            if is_skill_name(command.name.as_str()) {
                count += 1;
                icon = command.icon;
            }
        }
        (count, icon)
    }

    /// The rows for a command name being typed behind `/`.
    fn list_names(&self, body: &[u8]) -> (rows: Vec<Suggestion>)
        ensures
            suggestion_views(rows@) == name_rows(self@, body@),
    {
        let ghost palette = self@;
        let ghost asked = name_query(body@, palette.commands);
        let query: Vec<u8> = to_lower_bytes(body);
        let prefix: &[u8] = "skill:".as_bytes();
        let in_skills: bool = has_prefix(query.as_slice(), prefix);
        let near_skills: bool = has_prefix(prefix, query.as_slice());
        let strongest: u16 = if near_skills {
            0
        } else {
            self.find_strongest(&query)
        };
        let mut ranking: Vec<Ranked> = Vec::new();
        let ghost goal = ranked_commands(palette, asked, 0, Seq::empty());
        let mut at: usize = 0;
        assert(ranked_views(ranking@) =~= Seq::<RankedView>::empty());
        assert(palette.commands.len() == self.commands.len());
        while at < self.commands.len()
            invariant
                at <= self.commands.len(),
                palette == self@,
                palette.commands.len() == self.commands.len(),
                prefix@ == skill_prefix(),
                query@ == asked.query,
                in_skills == asked.in_skills,
                near_skills == asked.near_skills,
                strongest == asked.strongest,
                goal == ranked_commands(palette, asked, at as int, ranked_views(ranking@)),
            decreases self.commands.len() - at,
        {
            let command: &Command = &self.commands[at];
            assert(palette.commands[at as int] == command@);
            let (hidden, name, score): (bool, String, u16) = rate_command(
                command,
                &query,
                in_skills,
                near_skills,
                strongest,
                Ghost(asked),
            );
            if !hidden && score > 0 {
                let usage: u64 = if at < self.usage.len() {
                    self.usage[at]
                } else {
                    0
                };
                let row: Suggestion = command_suggestion(command, name.as_str(), &query);
                rank(&mut ranking, Ranked { score, usage, row });
            }
            at += 1;
        }
        let (count, icon): (usize, Option<Icon>) = self.count_skills();
        if !in_skills && count > 0 && near_skills {
            let score: u16 = command_score(query.as_slice(), prefix);
            let row: Suggestion = skills_suggestion(count, icon, &query, Ghost(palette.commands));
            rank(&mut ranking, Ranked { score, usage: 0, row });
        }
        take_rows(ranking)
    }

    /// The rows for the command name on a line.
    pub fn name_suggestions(&self, from: usize, line: &str, range_end: usize) -> (found: Option<
        Suggestions,
    >)
        requires
            from + utf8(line@).len() <= usize::MAX,
        ensures
            suggestions_view(found) == offered_names(
                self@,
                from as int,
                utf8(line@),
                range_end as int,
            ),
    {
        match find_slash_body(line) {
            None => None,
            Some((at, body)) => {
                if has_byte(body.as_bytes(), 47) {
                    return None;
                }
                let items: Vec<Suggestion> = self.list_names(body.as_bytes());
                assert(suggestion_views(items@).len() == items.len());
                if items.len() == 0 {
                    return None;
                }
                Some(Suggestions { start: from + at - 1, end: range_end, items })
            },
        }
    }

    /// The rows for an argument being typed.
    fn list_arguments(&self, at: usize, partial: &str) -> (rows: Vec<Suggestion>)
        requires
            at < self.commands.len(),
        ensures
            suggestion_views(rows@) == argument_rows(
                self@,
                self@.commands[at as int],
                partial@,
            ),
    {
        let command: &Command = &self.commands[at];
        assert(self@.commands[at as int] == command@);
        if find_gap(partial, false).is_some() {
            let none: Vec<Suggestion> = Vec::new();
            assert(suggestion_views(none@) =~= Seq::empty());
            return none;
        }
        let mut ranking: Vec<Ranked> = Vec::new();
        assert(ranked_views(ranking@) =~= Seq::<RankedView>::empty());
        rank_arguments(&mut ranking, &command.args, partial, true);
        rank_arguments(&mut ranking, &command.dynamic_args, partial, true);
        if same_text(command.name.as_str(), "move") {
            rank_arguments(&mut ranking, &self.paths, partial, false);
        }
        take_rows(ranking)
    }

    /// The rows for the argument behind `delimiter` of a command body that
    /// ends at the cursor.
    pub fn argument_suggestions(
        &self,
        cursor: usize,
        body: &str,
        delimiter: usize,
        range_end: usize,
    ) -> (found: Option<Suggestions>)
        requires
            boundary(utf8(body@), delimiter as int),
            utf8(body@).len() <= cursor,
        ensures
            suggestions_view(found) == offered_arguments(
                self@,
                cursor as int,
                utf8(body@),
                delimiter as int,
                range_end as int,
            ),
    {
        let length: usize = byte_len(body);
        proof {
            ends_are_boundaries(body@);
        }
        let name: &str = cut_part(body, 0, delimiter);
        let rest: &str = cut_part(body, delimiter, length);
        let skipped: usize = skip_lead(rest, true);
        let tail: usize = byte_len(rest);
        proof {
            ends_are_boundaries(rest@);
        }
        let partial: &str = cut_part(rest, skipped, tail);
        match self.find(name) {
            None => None,
            Some(at) => {
                let items: Vec<Suggestion> = self.list_arguments(at, partial);
                assert(suggestion_views(items@).len() == items.len());
                if items.len() == 0 {
                    return None;
                }
                Some(Suggestions { start: cursor - (tail - skipped), end: range_end, items })
            },
        }
    }

    /// The position of the command whose first argument is being typed, and the
    /// argument so far: what live candidates are asked for.
    pub fn typed_argument(&self, text: &str, cursor: usize) -> (found: Option<(usize, String)>)
        requires
            boundary(utf8(text@), cursor as int),
        ensures
            match found {
                Some((index, typed)) => argument_in_progress(
                    self@.commands,
                    utf8(text@).subrange(
                        line_start(utf8(text@), cursor as int),
                        cursor as int,
                    ),
                ) == Some((index as int, typed@)) && index < self.commands.len(),
                None => argument_in_progress(
                    self@.commands,
                    utf8(text@).subrange(
                        line_start(utf8(text@), cursor as int),
                        cursor as int,
                    ),
                ) is None,
            },
    {
        let from: usize = find_line_start(text, cursor);
        proof {
            line_start_is_boundary(text@, cursor as int);
        }
        let line: &str = cut_part(text, from, cursor);
        let (_, body): (usize, &str) = match find_slash_body(line) {
            None => return None,
            Some(found) => found,
        };
        if has_prefix(body.as_bytes(), "skill:".as_bytes()) && find_gap(body, false).is_none() {
            return None;
        }
        let delimiter: usize = match find_gap(body, true) {
            None => return None,
            Some(delimiter) => delimiter,
        };
        let length: usize = byte_len(body);
        proof {
            ends_are_boundaries(body@);
        }
        let name: &str = cut_part(body, 0, delimiter);
        let rest: &str = cut_part(body, delimiter, length);
        let skipped: usize = skip_lead(rest, true);
        let tail: usize = byte_len(rest);
        proof {
            ends_are_boundaries(rest@);
        }
        let typed: &str = cut_part(rest, skipped, tail);
        if find_gap(typed, false).is_some() {
            return None;
        }
        match self.find(name) {
            None => None,
            Some(index) => Some((index, typed.to_owned())),
        }
    }

    /// Dropdown suggestions for a text and byte cursor.
    pub fn suggestions(&self, text: &str, cursor: usize) -> (found: Option<Suggestions>)
        requires
            boundary(utf8(text@), cursor as int),
        ensures
            suggestions_view(found) == offered_commands(self@, utf8(text@), cursor as int),
    {
        let from: usize = find_line_start(text, cursor);
        let length: usize = byte_len(text);
        proof {
            line_start_is_boundary(text@, cursor as int);
        }
        let line: &str = cut_part(text, from, cursor);
        match find_slash_body(line) {
            None => None,
            Some((_, body)) => {
                let end: usize = completion_token_end(text, cursor);
                if has_prefix(body.as_bytes(), "skill:".as_bytes()) && find_gap(
                    body,
                    false,
                ).is_none() {
                    return self.name_suggestions(from, line, end);
                }
                match find_gap(body, true) {
                    Some(delimiter) => self.argument_suggestions(cursor, body, delimiter, end),
                    None => self.name_suggestions(from, line, end),
                }
            },
        }
    }

    /// Usage ghosting: bare `/name ` shows the command's own usage; a partial
    /// argument shows its remaining characters plus usage; a chosen argument
    /// ghosts the usage words not yet typed.
    pub fn usage_hint(&self, text: &str, cursor: usize) -> (hint: Option<String>)
        requires
            boundary(utf8(text@), cursor as int),
        ensures
            shown_text(hint) == offered_hint(self@, utf8(text@), cursor as int),
    {
        let from: usize = find_line_start(text, cursor);
        proof {
            line_start_is_boundary(text@, cursor as int);
        }
        let line: &str = cut_part(text, from, cursor);
        match find_slash_body(line) {
            None => None,
            Some((_, body)) => match find_gap(body, true) {
                None => None,
                Some(delimiter) => {
                    let length: usize = byte_len(body);
                    proof {
                        ends_are_boundaries(body@);
                    }
                    let name: &str = cut_part(body, 0, delimiter);
                    let rest: &str = cut_part(body, delimiter, length);
                    let skipped: usize = skip_lead(rest, true);
                    let tail: usize = byte_len(rest);
                    proof {
                        ends_are_boundaries(rest@);
                    }
                    let argument: &str = cut_part(rest, skipped, tail);
                    match self.find(name) {
                        None => None,
                        Some(at) => {
                            assert(self@.commands[at as int] == self.commands@[at as int]@);
                            find_usage_ghost(&self.commands[at], argument)
                        },
                    }
                },
            },
        }
    }

    /// Whether the built-in emoji dropdown may open.
    pub fn allows_emoji(&self, text: &str, cursor: usize) -> (allowed: bool)
        requires
            boundary(utf8(text@), cursor as int),
        ensures
            allowed == emoji_allowed(self@, utf8(text@), cursor as int),
    {
        let from: usize = find_line_start(text, cursor);
        proof {
            line_start_is_boundary(text@, cursor as int);
            ends_are_boundaries(text@);
        }
        if !is_all_whitespace(cut_part(text, 0, from)) {
            return true;
        }
        let line: &str = cut_part(text, from, cursor);
        match find_slash_body(line) {
            None => true,
            Some((_, body)) => match find_gap(body, false) {
                None => true,
                Some(delimiter) => {
                    proof {
                        ends_are_boundaries(body@);
                    }
                    self.find(cut_part(body, 0, delimiter)).is_none()
                },
            },
        }
    }
}

/// Whether one of the texts is `wanted`.
fn has_text(texts: &Vec<String>, wanted: &str) -> (yes: bool)
    ensures
        yes == text_views(texts@).contains(wanted@),
{
    let ghost views = text_views(texts@);
    let mut at: usize = 0;
    while at < texts.len()
        invariant
            at <= texts.len(),
            views == text_views(texts@),
            views.len() == texts.len(),
            forall|i: int| 0 <= i < at ==> views[i] != wanted@,
        decreases texts.len() - at,
    {
        assert(views[at as int] == texts@[at as int]@);
        if same_text(texts[at].as_str(), wanted) {
            return true;
        }
        at += 1;
    }
    false
}

/// Whether a name is a skill's.
fn is_skill_name(name: &str) -> (yes: bool)
    ensures
        yes == starts_with(utf8(name@), skill_prefix()),
{
    has_prefix(name.as_bytes(), "skill:".as_bytes())
}

/// The best exact or prefix match among names.
fn find_best_tier(query: &Vec<u8>, names: &Vec<String>) -> (tier: u16)
    ensures
        tier == best_tier(query@, text_views(names@), 0),
{
    let ghost views = text_views(names@);
    let mut tier: u16 = 0;
    let mut at: usize = names.len();
    assert(views.len() == at);
    while at > 0
        invariant
            at <= names.len(),
            views == text_views(names@),
            views.len() == names.len(),
            tier == best_tier(query@, views, at as int),
        decreases at,
    {
        at -= 1;
        assert(views[at as int] == names@[at as int]@);
        let next: u16 = breakout_match_tier(query.as_slice(), names[at].as_str().as_bytes());
        if next >= tier {
            tier = next;
        }
    }
    tier
}

/// Whether a command is left out, and else its best spelling and score.
fn rate_command(
    command: &Command,
    query: &Vec<u8>,
    in_skills: bool,
    near_skills: bool,
    strongest: u16,
    asked: Ghost<NameQuery>,
) -> (rated: (bool, String, u16))
    requires
        query@ == asked@.query,
        in_skills == asked@.in_skills,
        near_skills == asked@.near_skills,
        strongest == asked@.strongest,
    ensures
        rated.0 == left_out(command@, asked@),
        !rated.0 ==> (rated.1@, rated.2 as int) == best_spelling(command@, query@),
{
    let mut name: String = command.name.clone();
    let mut score: u16 = command_score(query.as_slice(), command.name.as_str().as_bytes());
    let prefix: &[u8] = "skill:".as_bytes();
    if is_skill_name(command.name.as_str()) {
        let bytes: &[u8] = command.name.as_str().as_bytes();
        let bare: &[u8] = slice_subrange(bytes, prefix.len(), bytes.len());
        if !in_skills && (near_skills || breakout_match_tier(query.as_slice(), bare) <= strongest) {
            return (true, name, 0);
        }
        let other: u16 = command_score(query.as_slice(), bare);
        if other > score {
            score = other;
        }
    }
    let ghost aliases = text_views(command.aliases@);
    let ghost goal = best_alias(query@, aliases, 0, name@, score as int);
    let mut at: usize = 0;
    while at < command.aliases.len()
        invariant
            at <= command.aliases.len(),
            aliases == text_views(command.aliases@),
            goal == best_alias(query@, aliases, at as int, name@, score as int),
        decreases command.aliases.len() - at,
    {
        assert(aliases[at as int] == command.aliases@[at as int]@);
        let next: u16 = command_score(
            query.as_slice(),
            command.aliases[at].as_str().as_bytes(),
        );
        if next > score {
            name = command.aliases[at].clone();
            score = next;
        }
        at += 1;
    }
    let lower: Vec<u8> = to_lower_bytes(command.description.as_str().as_bytes());
    let blurb: u16 = fuzzy_score(query.as_slice(), lower.as_slice()) / 2;
    if blurb > score {
        score = blurb;
    }
    (false, name, score)
}

/// The row of a command under one of its spellings.
fn command_suggestion(command: &Command, name: &str, query: &Vec<u8>) -> (row: Suggestion)
    ensures
        row@ == command_row(command@, name@, query@),
{
    let mut value: String = "/".to_owned();
    value.append(name);
    push_char(&mut value, ' ');
    proof {
        reveal_strlit("/");
        assert(value@ =~= seq!['/'] + name@ + seq![' ']);
    }
    let description: String = match &command.status {
        Some(status) => status.clone(),
        None => command.description.clone(),
    };
    Suggestion {
        value,
        display: SuggestionDisplay::Text(name.to_owned()),
        description: Some(description),
        icon: command.icon,
        hint: copy_text(&command.hint),
        category: Some("Commands".to_owned()),
        match_spans: fuzzy_match_spans(name.as_bytes(), query.as_slice()),
        submits: true,
    }
}

/// The row that opens the skills.
fn skills_suggestion(
    count: usize,
    icon: Option<Icon>,
    query: &Vec<u8>,
    commands: Ghost<Seq<CommandView>>,
) -> (row: Suggestion)
    requires
        count == skill_count(commands@, 0),
        icon == skill_icon(commands@, 0),
    ensures
        row@ == skills_row(commands@, query@),
{
    let mut description: String = to_decimal(count as u64);
    description.append(
        if count == 1 {
            " skill"
        } else {
            " skills"
        },
    );
    Suggestion {
        value: "/skill:".to_owned(),
        display: SuggestionDisplay::Text("skill:".to_owned()),
        description: Some(description),
        icon,
        hint: None,
        category: Some("Commands".to_owned()),
        match_spans: fuzzy_match_spans("skill:".as_bytes(), query.as_slice()),
        submits: false,
    }
}

/// Ranks argument candidates.
fn rank_arguments(
    ranking: &mut Vec<Ranked>,
    arguments: &Vec<CommandArgument>,
    partial: &str,
    trailing: bool,
)
    ensures
        ranked_views(final(ranking)@) == ranked_arguments(
            argument_views(arguments@),
            utf8(partial@),
            trailing,
            0,
            ranked_views(old(ranking)@),
        ),
{
    let ghost views = argument_views(arguments@);
    let ghost goal = ranked_arguments(
        views,
        utf8(partial@),
        trailing,
        0,
        ranked_views(ranking@),
    );
    let query: Vec<u8> = to_lower_bytes(partial.as_bytes());
    let mut at: usize = 0;
    while at < arguments.len()
        invariant
            at <= arguments.len(),
            views == argument_views(arguments@),
            query@ == lower_bytes(utf8(partial@)),
            goal == ranked_arguments(
                views,
                utf8(partial@),
                trailing,
                at as int,
                ranked_views(ranking@),
            ),
        decreases arguments.len() - at,
    {
        let argument: &CommandArgument = &arguments[at];
        assert(views[at as int] == argument@);
        let lower: Vec<u8> = to_lower_bytes(argument.value.as_str().as_bytes());
        let score: u16 = command_score(query.as_slice(), lower.as_slice());
        if score > 0 {
            let mut value: String = argument.value.clone();
            if trailing {
                push_char(&mut value, ' ');
                assert(value@ =~= argument.value@ + seq![' ']);
            }
            let row = Suggestion {
                value,
                display: SuggestionDisplay::Text(argument.value.clone()),
                description: Some(argument.description.clone()),
                icon: None,
                hint: argument_inline_hint(argument.value.as_str(), partial, &argument.usage),
                category: Some("Arguments".to_owned()),
                match_spans: fuzzy_match_spans(argument.value.as_str().as_bytes(), query.as_slice()),
                submits: false,
            };
            assert(row@ == argument_row(argument@, utf8(partial@), trailing));
            rank(ranking, Ranked { score, usage: 0, row });
        }
        at += 1;
    }
}

/// The number of words from the character at `from` on.
fn count_words(chars: &Vec<char>, from: usize) -> (count: usize)
    requires
        from <= chars.len(),
    ensures
        count == word_count(chars@.skip(from as int), 0, false),
        count <= chars.len(),
{
    let ghost text = chars@.skip(from as int);
    let ghost goal = word_count(text, 0, false);
    let mut count: usize = 0;
    let mut inside: bool = false;
    let mut at: usize = from;
    while at < chars.len()
        invariant
            from <= at <= chars.len(),
            text == chars@.skip(from as int),
            count <= at - from,
            count + word_count(text, at - from, inside) == goal,
        decreases chars.len() - at,
    {
        assert(text[at - from] == chars@[at as int]);
        if is_whitespace(chars[at]) {
            inside = false;
        } else {
            if !inside {
                count += 1;
            }
            inside = true;
        }
        at += 1;
    }
    count
}

/// Where the text behind the first `count` words starts.
fn find_behind_words(chars: &Vec<char>, count: usize) -> (found: Option<usize>)
    ensures
        crate::buffer::offset_view(found) == behind_words(chars@, 0, count as nat),
        found matches Some(at) ==> at <= chars.len(),
{
    let mut left: usize = count;
    let mut from: usize = 0;
    while left > 0
        invariant
            left <= count,
            from <= chars.len(),
            behind_words(chars@, 0, count as nat) == behind_words(
                chars@,
                from as int,
                left as nat,
            ),
        decreases left,
    {
        let mut at: usize = from;
        while at < chars.len() && chars[at] != ' '
            invariant
                from <= at <= chars.len(),
                space_from(chars@, from as int) == space_from(chars@, at as int),
            decreases chars.len() - at,
        {
            at += 1;
        }
        if at == chars.len() {
            return None;
        }
        from = at + 1;
        left -= 1;
    }
    Some(from)
}

/// The position of the first argument candidate whose name starts as typed.
fn find_starting(arguments: &Vec<CommandArgument>, prefix: &Vec<char>) -> (found: Option<usize>)
    ensures
        crate::buffer::offset_view(found) == argument_starting(
            argument_views(arguments@),
            prefix@,
            0,
        ),
        found matches Some(at) ==> at < arguments.len() && prefix@.is_prefix_of(
            arguments@[at as int].value@,
        ),
{
    let ghost views = argument_views(arguments@);
    let mut at: usize = 0;
    while at < arguments.len()
        invariant
            at <= arguments.len(),
            views == argument_views(arguments@),
            argument_starting(views, prefix@, 0) == argument_starting(views, prefix@, at as int),
        decreases arguments.len() - at,
    {
        assert(views[at as int] == arguments@[at as int]@);
        if starts_with_chars(arguments[at].value.as_str(), prefix) {
            return Some(at);
        }
        at += 1;
    }
    None
}

/// Whether a text starts with the given characters.
fn starts_with_chars(text: &str, prefix: &Vec<char>) -> (yes: bool)
    ensures
        yes == prefix@.is_prefix_of(text@),
{
    let chars: Vec<char> = chars_of(text);
    if chars.len() < prefix.len() {
        return false;
    }
    let mut at: usize = 0;
    while at < prefix.len()
        invariant
            at <= prefix.len() <= chars.len(),
            chars@ == text@,
            forall|i: int| 0 <= i < at ==> prefix@[i] == chars@[i],
        decreases prefix.len() - at,
    {
        if chars[at] != prefix[at] {
            assert(text@.subrange(0, prefix@.len() as int)[at as int] != prefix@[at as int]);
            return false;
        }
        at += 1;
    }
    assert(text@.subrange(0, prefix@.len() as int) =~= prefix@);
    true
}

/// Characters in ASCII lower case.
fn lower_chars(chars: &Vec<char>) -> (lower: Vec<char>)
    ensures
        lower@ == lowered(chars@),
{
    let mut lower: Vec<char> = Vec::new();
    let mut at: usize = 0;
    while at < chars.len()
        invariant
            at <= chars.len(),
            lower.len() == at,
            forall|i: int| 0 <= i < at ==> lower@[i] == crate::chars::ascii_lower(chars@[i]),
        decreases chars.len() - at,
    {
        lower.push(to_ascii_lower(chars[at]));
        at += 1;
    }
    assert(lower@ =~= lowered(chars@));
    lower
}

/// The position of the first argument candidate with the given name.
fn find_named(arguments: &Vec<CommandArgument>, name: &str) -> (found: Option<usize>)
    ensures
        crate::buffer::offset_view(found) == argument_named(argument_views(arguments@), name@, 0),
        found matches Some(at) ==> at < arguments.len(),
{
    let ghost views = argument_views(arguments@);
    let mut at: usize = 0;
    while at < arguments.len()
        invariant
            at <= arguments.len(),
            views == argument_views(arguments@),
            argument_named(views, name@, 0) == argument_named(views, name@, at as int),
        decreases arguments.len() - at,
    {
        assert(views[at as int] == arguments@[at as int]@);
        if same_text(arguments[at].value.as_str(), name) {
            return Some(at);
        }
        at += 1;
    }
    None
}

/// Ghost text of a command's argument.
pub fn find_usage_ghost(command: &Command, argument: &str) -> (hint: Option<String>)
    ensures
        shown_text(hint) == usage_ghost(command@, argument@),
{
    let chars: Vec<char> = chars_of(argument);
    if chars.len() == 0 {
        return copy_text(&command.hint);
    }
    let mut end: usize = 0;
    while end < chars.len() && !is_whitespace(chars[end])
        invariant
            end <= chars.len(),
            chars@ == argument@,
            gap_from(argument@, false, 0) == gap_from(argument@, false, end as int),
        decreases chars.len() - end,
    {
        end += 1;
    }
    if end == chars.len() {
        let prefix: Vec<char> = lower_chars(&chars);
        match find_starting(&command.args, &prefix) {
            None => None,
            Some(at) => {
                assert(command@.args[at as int] == command.args@[at as int]@);
                let name: Vec<char> = chars_of(command.args[at].value.as_str());
                let rest: String = build_text(&name, prefix.len(), name.len());
                assert(rest@ =~= name@.skip(prefix@.len() as int));
                match &command.args[at].usage {
                    Some(usage) => Some(spaced(rest.as_str(), usage.as_str())),
                    None => {
                        if prefix.len() == name.len() {
                            None
                        } else {
                            Some(rest)
                        }
                    },
                }
            },
        }
    } else {
        let chosen: String = build_text(&chars, 0, end);
        assert(chosen@ =~= argument@.take(end as int));
        match find_named(&command.args, chosen.as_str()) {
            None => None,
            Some(at) => {
                assert(command@.args[at as int] == command.args@[at as int]@);
                match &command.args[at].usage {
                    None => None,
                    Some(usage) => {
                        let typed: usize = count_words(&chars, end);
                        let words: Vec<char> = chars_of(usage.as_str());
                        match find_behind_words(&words, typed) {
                            None => None,
                            Some(from) => {
                                if typed > 0 && from >= words.len() {
                                    None
                                } else {
                                    let rest: String = build_text(&words, from, words.len());
                                    assert(rest@ =~= usage@.skip(from as int));
                                    Some(rest)
                                }
                            },
                        }
                    },
                }
            },
        }
    }
}

impl EditorCompletion for SlashCommands {
    open spec fn may_suggest(
        &self,
        text: Seq<u8>,
        cursor: int,
        found: Option<(int, int, Seq<SuggestionView>)>,
        after: &Self,
    ) -> bool {
        *after == *self && found == (if boundary(text, cursor) {
            offered_commands(self@, text, cursor)
        } else {
            None
        })
    }

    open spec fn may_hint(
        &self,
        text: Seq<u8>,
        cursor: int,
        hint: Option<Seq<char>>,
        after: &Self,
    ) -> bool {
        *after == *self && hint == (if boundary(text, cursor) {
            offered_hint(self@, text, cursor)
        } else {
            None
        })
    }

    open spec fn may_tab(
        &self,
        text: Seq<u8>,
        cursor: int,
        selected: Option<SuggestionView>,
        action: TabView,
        after: &Self,
    ) -> bool {
        *after == *self && action == plain_tab(selected is Some)
    }

    open spec fn may_allow_emoji(
        &self,
        text: Seq<u8>,
        cursor: int,
        allowed: bool,
        after: &Self,
    ) -> bool {
        *after == *self && allowed == (boundary(text, cursor) ==> emoji_allowed(
            self@,
            text,
            cursor,
        ))
    }

    open spec fn may_accept(&self, replaced: Seq<u8>, row: SuggestionView, after: &Self) -> bool {
        *after == *self
    }

    fn suggest(&mut self, text: &str, cursor: usize) -> (found: Option<Suggestions>) {
        if crate::strings::at_boundary(text, cursor) {
            self.suggestions(text, cursor)
        } else {
            None
        }
    }

    fn hint(&mut self, text: &str, cursor: usize) -> (hint: Option<String>) {
        if crate::strings::at_boundary(text, cursor) {
            self.usage_hint(text, cursor)
        } else {
            None
        }
    }

    fn tab(&mut self, text: &str, cursor: usize, selected: Option<&Suggestion>) -> (action:
        TabAction) {
        tab_plainly(selected.is_some())
    }

    fn allow_builtin_emoji(&mut self, text: &str, cursor: usize) -> (allowed: bool) {
        if crate::strings::at_boundary(text, cursor) {
            self.allows_emoji(text, cursor)
        } else {
            true
        }
    }

    fn accepted(&mut self, replaced: &str, suggestion: &Suggestion) {
    }
}

} // verus!
