//! What holds of slash-command completion as a whole: which commands and
//! arguments are offered, in which order, and what their ghosts complete.

use vstd::prelude::*;

use crate::chars::{lowered, whitespace};
use crate::commands::{
    argument_ghost, argument_named, argument_row, argument_rows, argument_starting, bare_name,
    behind_words, best_alias, best_spelling, best_tier, command_named, command_row, gap, gap_from,
    is_skill, larger_of, lead, left_out, name_query, name_rows, outranks, rank_position,
    ranked_arguments, ranked_commands, rows_of, skill_count, skill_prefix, skills_row, slash_body,
    space_from, strongest_tier, typed_part, usage_ghost, with_ranked, word_count, ArgumentView,
    CommandView, NameQuery, PaletteView, RankedView,
};
use crate::layout::part;
use crate::paths::{origin_of, past_separators, OriginView};
use crate::scoring::{breakout_tier, command_rank, fuzzy, lower_bytes, starts_with};
use crate::strings::utf8;

verus! {

/// Whether a ranked row stands rightly before another: it scores higher, or as
/// high and was used more often, or all is equal and it was declared first.
pub open spec fn stands_before(a: RankedView, i: int, b: RankedView, j: int) -> bool {
    ||| a.score > b.score
    ||| a.score == b.score && a.usage > b.usage
    ||| a.score == b.score && a.usage == b.usage && i < j
}

/// Whether a ranking holds, in order, what `entries` has at the positions
/// `sources`.
pub open spec fn ranked_from(
    ranking: Seq<RankedView>,
    sources: Seq<int>,
    entries: spec_fn(int) -> RankedView,
) -> bool {
    &&& sources.len() == ranking.len()
    &&& forall|i: int| 0 <= i < ranking.len() ==> #[trigger] ranking[i] == entries(sources[i])
    &&& forall|i: int, j: int|
        0 <= i < j < ranking.len() ==> stands_before(
            #[trigger] ranking[i],
            sources[i],
            #[trigger] ranking[j],
            sources[j],
        )
}

/// Whether `sources` are the positions from `low` up to `high` that are wanted.
pub open spec fn all_wanted(
    sources: Seq<int>,
    low: int,
    high: int,
    wanted: spec_fn(int) -> bool,
) -> bool {
    &&& forall|i: int|
        0 <= i < sources.len() ==> low <= #[trigger] sources[i] < high && wanted(sources[i])
    &&& forall|k: int| low <= k < high && #[trigger] wanted(k) ==> sources.contains(k)
}

proof fn rank_position_within(ranking: Seq<RankedView>, item: RankedView, at: int)
    requires
        0 <= at <= ranking.len(),
    ensures
        0 <= rank_position(ranking, item, at) <= at,
        forall|i: int|
            rank_position(ranking, item, at) <= i < at ==> outranks(item, #[trigger] ranking[i]),
        rank_position(ranking, item, at) > 0 ==> !outranks(
            item,
            ranking[rank_position(ranking, item, at) - 1],
        ),
    decreases at,
{
    if at > 0 && outranks(item, ranking[at - 1]) {
        rank_position_within(ranking, item, at - 1);
    }
}

proof fn one_more_ranked(
    ranking: Seq<RankedView>,
    sources: Seq<int>,
    entries: spec_fn(int) -> RankedView,
    low: int,
    at: int,
    wanted: spec_fn(int) -> bool,
) -> (more: Seq<int>)
    requires
        ranked_from(ranking, sources, entries),
        all_wanted(sources, low, at, wanted),
        low <= at,
        wanted(at),
    ensures
        ranked_from(with_ranked(ranking, entries(at)), more, entries),
        all_wanted(more, low, at + 1, wanted),
{
    let item = entries(at);
    let place = rank_position(ranking, item, ranking.len() as int);
    rank_position_within(ranking, item, ranking.len() as int);
    let all = ranking.insert(place, item);
    let more = sources.insert(place, at);
    assert forall|i: int| 0 <= i < all.len() implies #[trigger] all[i] == entries(more[i]) by {
        if i < place {
            assert(all[i] == ranking[i]);
        } else if i > place {
            assert(all[i] == ranking[i - 1]);
        }
    }
    assert forall|i: int, j: int| 0 <= i < j < all.len() implies stands_before(
        #[trigger] all[i],
        more[i],
        #[trigger] all[j],
        more[j],
    ) by {
        if j < place {
            assert(stands_before(ranking[i], sources[i], ranking[j], sources[j]));
        } else if j == place {
            let last = ranking[place - 1];
            assert(sources[place - 1] < at);
            assert(sources[i] < at);
            if i < place - 1 {
                assert(stands_before(ranking[i], sources[i], last, sources[place - 1]));
            }
        } else if i == place {
            assert(outranks(item, ranking[j - 1]));
        } else if i < place {
            assert(stands_before(ranking[i], sources[i], ranking[j - 1], sources[j - 1]));
        } else {
            assert(stands_before(ranking[i - 1], sources[i - 1], ranking[j - 1], sources[j - 1]));
        }
    }
    assert forall|i: int| 0 <= i < more.len() implies low <= #[trigger] more[i] < at + 1 && wanted(
        more[i],
    ) by {
        if i < place {
            assert(more[i] == sources[i]);
        } else if i > place {
            assert(more[i] == sources[i - 1]);
        }
    }
    assert forall|k: int| low <= k < at + 1 && #[trigger] wanted(k) implies more.contains(k) by {
        if k == at {
            assert(more[place] == k);
        } else {
            let i = choose|i: int| 0 <= i < sources.len() && sources[i] == k;
            if i < place {
                assert(more[i] == k);
            } else {
                assert(more[i + 1] == k);
            }
        }
    }
    more
}

proof fn one_less_wanted(
    sources: Seq<int>,
    low: int,
    at: int,
    wanted: spec_fn(int) -> bool,
)
    requires
        all_wanted(sources, low, at, wanted),
        !wanted(at),
    ensures
        all_wanted(sources, low, at + 1, wanted),
{
}

/// The entry of a command in a ranking.
pub open spec fn command_entry(palette: PaletteView, asked: NameQuery, at: int) -> RankedView {
    let command = palette.commands[at];
    let (name, score) = best_spelling(command, asked.query);
    RankedView {
        score,
        usage: if at < palette.usage.len() {
            palette.usage[at]
        } else {
            0
        },
        row: command_row(command, name, asked.query),
    }
}

/// The entry of a command, or behind all of them the row that opens the skills.
pub open spec fn palette_entry(palette: PaletteView, asked: NameQuery) -> spec_fn(int) -> RankedView {
    |at: int|
        if at < palette.commands.len() {
            command_entry(palette, asked, at)
        } else {
            RankedView {
                score: command_rank(asked.query, skill_prefix()),
                usage: 0,
                row: skills_row(palette.commands, asked.query),
            }
        }
}

/// Whether a command is offered: it matches, and is no skill that stays behind
/// the row that opens the skills.
pub open spec fn palette_offers(palette: PaletteView, asked: NameQuery) -> spec_fn(int) -> bool {
    |at: int|
        if at < palette.commands.len() {
            !left_out(palette.commands[at], asked) && best_spelling(
                palette.commands[at],
                asked.query,
            ).1 > 0
        } else {
            !asked.in_skills && asked.near_skills && skill_count(palette.commands, 0) > 0
        }
}

proof fn commands_are_ranked(
    palette: PaletteView,
    asked: NameQuery,
    at: int,
    ranking: Seq<RankedView>,
    sources: Seq<int>,
) -> (all: Seq<int>)
    requires
        0 <= at <= palette.commands.len(),
        ranked_from(ranking, sources, palette_entry(palette, asked)),
        all_wanted(sources, 0, at, palette_offers(palette, asked)),
    ensures
        ranked_from(
            ranked_commands(palette, asked, at, ranking),
            all,
            palette_entry(palette, asked),
        ),
        all_wanted(all, 0, palette.commands.len() as int, palette_offers(palette, asked)),
    decreases palette.commands.len() - at,
{
    if at >= palette.commands.len() {
        sources
    } else {
        let entries = palette_entry(palette, asked);
        let wanted = palette_offers(palette, asked);
        if wanted(at) {
            let more = one_more_ranked(ranking, sources, entries, 0, at, wanted);
            commands_are_ranked(palette, asked, at + 1, with_ranked(ranking, entries(at)), more)
        } else {
            one_less_wanted(sources, 0, at, wanted);
            commands_are_ranked(palette, asked, at + 1, ranking, sources)
        }
    }
}

/// The rows for a typed command name are those of every command that matches,
/// best match first, among equals the most used one, and then the one declared
/// first; skills that are not asked for are gathered in one row behind.
/// `sources` tells which command each row stands for.
pub proof fn matching_commands_are_offered_in_order(palette: PaletteView, body: Seq<u8>) -> (sources:
    Seq<int>)
    ensures
        ({
            let asked = name_query(body, palette.commands);
            let rows = name_rows(palette, body);
            let entries = palette_entry(palette, asked);
            &&& rows.len() == sources.len()
            &&& forall|i: int|
                0 <= i < rows.len() ==> #[trigger] rows[i] == entries(sources[i]).row
            &&& forall|i: int, j: int|
                #![trigger sources[i], sources[j]]
                0 <= i < j < sources.len() ==> stands_before(
                    entries(sources[i]),
                    sources[i],
                    entries(sources[j]),
                    sources[j],
                )
            &&& all_wanted(
                sources,
                0,
                palette.commands.len() as int + 1,
                palette_offers(palette, asked),
            )
        }),
{
    let asked = name_query(body, palette.commands);
    let entries = palette_entry(palette, asked);
    let wanted = palette_offers(palette, asked);
    let count = palette.commands.len() as int;
    let none = Seq::<RankedView>::empty();
    let first = commands_are_ranked(palette, asked, 0, none, Seq::empty());
    let ranking = ranked_commands(palette, asked, 0, none);
    let (all, sources) = if wanted(count) {
        (with_ranked(ranking, entries(count)), one_more_ranked(
            ranking,
            first,
            entries,
            0,
            count,
            wanted,
        ))
    } else {
        one_less_wanted(first, 0, count, wanted);
        (ranking, first)
    };
    let rows = name_rows(palette, body);
    assert(rows == rows_of(all));
    assert forall|i: int| 0 <= i < rows.len() implies #[trigger] rows[i] == entries(
        sources[i],
    ).row by {
        assert(all[i] == entries(sources[i]));
    }
    assert forall|i: int, j: int|
        #![trigger sources[i], sources[j]]
        0 <= i < j < sources.len() implies stands_before(
        entries(sources[i]),
        sources[i],
        entries(sources[j]),
        sources[j],
    ) by {
        assert(stands_before(all[i], sources[i], all[j], sources[j]));
    }
    sources
}

proof fn best_alias_facts(
    query: Seq<u8>,
    aliases: Seq<Seq<char>>,
    at: int,
    name: Seq<char>,
    score: int,
)
    requires
        0 <= at <= aliases.len(),
    ensures
        ({
            let (best, most) = best_alias(query, aliases, at, name, score);
            &&& most >= score
            &&& forall|k: int|
                at <= k < aliases.len() ==> command_rank(query, utf8(#[trigger] aliases[k])) <= most
            &&& most == score ==> best == name
            &&& most > score ==> exists|k: int|
                at <= k < aliases.len() && #[trigger] aliases[k] == best && command_rank(
                    query,
                    utf8(best),
                ) == most
        }),
    decreases aliases.len() - at,
{
    if at < aliases.len() {
        let next = command_rank(query, utf8(aliases[at]));
        if next > score {
            best_alias_facts(query, aliases, at + 1, aliases[at], next);
        } else {
            best_alias_facts(query, aliases, at + 1, name, score);
        }
        let (best, most) = best_alias(query, aliases, at, name, score);
        if most > score && most == next {
            assert(aliases[at] == best);
        }
    }
}

/// A command matches as well as its best spelling, or half as well as its
/// description if that is more, and shows an alias only where that matches
/// better than its name.
pub proof fn commands_match_by_their_best_spelling(command: CommandView, query: Seq<u8>, k: int)
    requires
        command.aliases.len() > 0 ==> 0 <= k < command.aliases.len(),
    ensures
        ({
            let (name, score) = best_spelling(command, query);
            let own = command_rank(query, utf8(command.name));
            let told = fuzzy(query, lower_bytes(utf8(command.description))) / 2;
            &&& score >= own
            &&& score >= told
            &&& is_skill(command) ==> score >= command_rank(query, bare_name(command))
            &&& command.aliases.len() > 0 ==> score >= command_rank(
                query,
                utf8(command.aliases[k]),
            )
            &&& name == command.name || command.aliases.contains(name) && command_rank(
                query,
                utf8(name),
            ) > own
            &&& score == own || score == told || score == command_rank(query, utf8(name))
                || is_skill(command) && score == command_rank(query, bare_name(command))
        }),
{
    let own = command_rank(query, utf8(command.name));
    let first = if is_skill(command) {
        larger_of(own, command_rank(query, bare_name(command)))
    } else {
        own
    };
    best_alias_facts(query, command.aliases, 0, command.name, first);
    let (best, most) = best_alias(query, command.aliases, 0, command.name, first);
    if command.aliases.len() > 0 {
        assert(command_rank(query, utf8(command.aliases[k])) <= most);
    }
    if most > first {
        let i = choose|i: int|
            0 <= i < command.aliases.len() && #[trigger] command.aliases[i] == best && command_rank(
                query,
                utf8(best),
            ) == most;
        assert(command.aliases.contains(best));
    }
}

proof fn strongest_facts(query: Seq<u8>, names: Seq<Seq<char>>, at: int)
    requires
        0 <= at <= names.len(),
    ensures
        best_tier(query, names, at) >= 0,
        forall|k: int|
            at <= k < names.len() ==> breakout_tier(query, utf8(#[trigger] names[k])) <= best_tier(
                query,
                names,
                at,
            ),
    decreases names.len() - at,
{
    if at < names.len() {
        strongest_facts(query, names, at + 1);
    }
}

proof fn strongest_command(query: Seq<u8>, commands: Seq<CommandView>, at: int, k: int)
    requires
        0 <= at <= k < commands.len(),
        !is_skill(commands[k]),
    ensures
        breakout_tier(query, utf8(commands[k].name)) <= strongest_tier(query, commands, at),
        strongest_tier(query, commands, at) >= 0,
    decreases commands.len() - at,
{
    strongest_facts(query, commands[at].aliases, 0);
    if at < k {
        strongest_command(query, commands, at + 1, k);
    }
}

/// A skill is not offered by its bare name beside a command whose name matches
/// as well: one that is the query, or one that starts with it where the skill's
/// name is not the query.
pub proof fn skills_give_way_to_commands(
    palette: PaletteView,
    body: Seq<u8>,
    skill: int,
    other: int,
)
    requires
        0 <= skill < palette.commands.len(),
        0 <= other < palette.commands.len(),
        is_skill(palette.commands[skill]),
        !is_skill(palette.commands[other]),
        !starts_with(lower_bytes(body), skill_prefix()),
        breakout_tier(lower_bytes(body), bare_name(palette.commands[skill])) <= breakout_tier(
            lower_bytes(body),
            utf8(palette.commands[other].name),
        ),
    ensures
        left_out(palette.commands[skill], name_query(body, palette.commands)),
{
    strongest_command(lower_bytes(body), palette.commands, 0, other);
}

/// Whether a text has a spelling of a command.
pub open spec fn spells(command: CommandView, name: Seq<char>) -> bool {
    command.name == name || exists|i: int|
        0 <= i < command.aliases.len() && #[trigger] command.aliases[i] == name
}

/// A name stands for the first command that has it as a spelling.
pub proof fn names_stand_for_the_first_command(
    commands: Seq<CommandView>,
    name: Seq<char>,
    at: int,
)
    requires
        0 <= at <= commands.len(),
    ensures
        match command_named(commands, name, at) {
            Some(found) => at <= found < commands.len() && spells(commands[found], name)
                && forall|k: int| at <= k < found ==> !spells(#[trigger] commands[k], name),
            None => forall|k: int|
                at <= k < commands.len() ==> !spells(#[trigger] commands[k], name),
        },
    decreases commands.len() - at,
{
    if at < commands.len() {
        let command = commands[at];
        assert(spells(command, name) <==> command.name == name || command.aliases.contains(name))
            by {
            if command.aliases.contains(name) {
                let i = choose|i: int| 0 <= i < command.aliases.len() && command.aliases[i] == name;
                assert(command.aliases[i] == name);
            }
        }
        if !spells(command, name) {
            names_stand_for_the_first_command(commands, name, at + 1);
        }
    }
}

/// The entries of a list of candidates that starts at position `base`.
pub open spec fn argument_entry(
    arguments: Seq<ArgumentView>,
    partial: Seq<u8>,
    spaced: bool,
) -> spec_fn(int) -> RankedView {
    |at: int|
        RankedView {
            score: command_rank(lower_bytes(partial), lower_bytes(utf8(arguments[at].value))),
            usage: 0,
            row: argument_row(arguments[at], partial, spaced),
        }
}

/// Whether a candidate matches.
pub open spec fn argument_matches(
    arguments: Seq<ArgumentView>,
    partial: Seq<u8>,
) -> spec_fn(int) -> bool {
    |at: int| command_rank(lower_bytes(partial), lower_bytes(utf8(arguments[at].value))) > 0
}

proof fn arguments_are_ranked(
    arguments: Seq<ArgumentView>,
    partial: Seq<u8>,
    spaced: bool,
    at: int,
    ranking: Seq<RankedView>,
    sources: Seq<int>,
) -> (all: Seq<int>)
    requires
        0 <= at <= arguments.len(),
        ranked_from(ranking, sources, argument_entry(arguments, partial, spaced)),
        all_wanted(sources, 0, at, argument_matches(arguments, partial)),
    ensures
        ranked_from(
            ranked_arguments(arguments, partial, spaced, at, ranking),
            all,
            argument_entry(arguments, partial, spaced),
        ),
        all_wanted(all, 0, arguments.len() as int, argument_matches(arguments, partial)),
    decreases arguments.len() - at,
{
    if at >= arguments.len() {
        sources
    } else {
        let entries = argument_entry(arguments, partial, spaced);
        let wanted = argument_matches(arguments, partial);
        if wanted(at) {
            let more = one_more_ranked(ranking, sources, entries, 0, at, wanted);
            arguments_are_ranked(
                arguments,
                partial,
                spaced,
                at + 1,
                with_ranked(ranking, entries(at)),
                more,
            )
        } else {
            one_less_wanted(sources, 0, at, wanted);
            arguments_are_ranked(arguments, partial, spaced, at + 1, ranking, sources)
        }
    }
}

/// The rows for a first argument being typed, of a command that has only fixed
/// candidates and is not `/move`, are those of every candidate that matches,
/// best match first and among equals the one declared first. A second argument
/// gets none.
pub proof fn matching_arguments_are_offered_in_order(
    palette: PaletteView,
    command: CommandView,
    partial: Seq<char>,
) -> (sources: Seq<int>)
    requires
        command.dynamic_args.len() == 0,
        command.name != "move"@,
    ensures
        ({
            let rows = argument_rows(palette, command, partial);
            let entries = argument_entry(command.args, utf8(partial), true);
            let first = forall|k: int|
                0 <= k < partial.len() ==> !whitespace(#[trigger] partial[k]);
            &&& !first ==> rows.len() == 0
            &&& first ==> {
                &&& rows.len() == sources.len()
                &&& forall|i: int|
                    0 <= i < rows.len() ==> #[trigger] rows[i] == entries(sources[i]).row
                &&& forall|i: int, j: int|
                    #![trigger sources[i], sources[j]]
                    0 <= i < j < sources.len() ==> stands_before(
                        entries(sources[i]),
                        sources[i],
                        entries(sources[j]),
                        sources[j],
                    )
                &&& all_wanted(
                    sources,
                    0,
                    command.args.len() as int,
                    argument_matches(command.args, utf8(partial)),
                )
            }
        }),
{
    gaps_are_the_first(partial, false, 0);
    let typed = utf8(partial);
    let entries = argument_entry(command.args, typed, true);
    let none = Seq::<RankedView>::empty();
    let sources = arguments_are_ranked(command.args, typed, true, 0, none, Seq::empty());
    let ranking = ranked_arguments(command.args, typed, true, 0, none);
    let rows = argument_rows(palette, command, partial);
    if gap(partial, false) is None {
        assert(rows == rows_of(ranking));
        assert forall|i: int| 0 <= i < rows.len() implies #[trigger] rows[i] == entries(
            sources[i],
        ).row by {
            assert(ranking[i] == entries(sources[i]));
        }
        assert forall|i: int, j: int|
            #![trigger sources[i], sources[j]]
            0 <= i < j < sources.len() implies stands_before(
            entries(sources[i]),
            sources[i],
            entries(sources[j]),
            sources[j],
        ) by {
            assert(stands_before(ranking[i], sources[i], ranking[j], sources[j]));
        }
    }
    sources
}

/// A gap is the first blank, or colon where colons count.
pub proof fn gaps_are_the_first(text: Seq<char>, colons: bool, at: int)
    requires
        0 <= at,
    ensures
        match gap_from(text, colons, at) {
            Some(found) => {
                &&& at <= found < text.len()
                &&& whitespace(text[found]) || colons && text[found] == ':'
                &&& forall|k: int|
                    at <= k < found ==> !whitespace(#[trigger] text[k]) && !(colons && text[k]
                        == ':')
            },
            None => forall|k: int|
                at <= k < text.len() ==> !whitespace(#[trigger] text[k]) && !(colons && text[k]
                    == ':'),
        },
    decreases text.len() - at,
{
    if at < text.len() && !(whitespace(text[at]) || colons && text[at] == ':') {
        gaps_are_the_first(text, colons, at + 1);
    }
}

proof fn leads_are_blank(bytes: Seq<u8>, colons: bool, at: int)
    requires
        0 <= at <= bytes.len(),
    ensures
        at <= lead(bytes, colons, at) <= bytes.len(),
        forall|k: int|
            at <= k < lead(bytes, colons, at) ==> #[trigger] bytes[k] == 32 || bytes[k] == 9
                || colons && bytes[k] == 58,
        lead(bytes, colons, at) < bytes.len() ==> {
            let next = bytes[lead(bytes, colons, at)];
            next != 32 && next != 9 && !(colons && next == 58)
        },
    decreases bytes.len() - at,
{
    if at < bytes.len() && (bytes[at] == 32 || bytes[at] == 9 || colons && bytes[at] == 58) {
        leads_are_blank(bytes, colons, at + 1);
    }
}

/// A command is what stands behind a slash that only spaces and tabs come
/// before on its line.
pub proof fn commands_start_with_a_slash(line: Seq<u8>, indent: int)
    requires
        0 <= indent < line.len(),
        line[indent] != 32,
        line[indent] != 9,
        forall|k: int| 0 <= k < indent ==> #[trigger] line[k] == 32 || line[k] == 9,
    ensures
        line[indent] == 47 ==> slash_body(line) == Some(
            (indent + 1, line.subrange(indent + 1, line.len() as int)),
        ),
        line[indent] != 47 ==> slash_body(line) is None,
{
    leads_are_blank(line, false, 0);
    let found = lead(line, false, 0);
    if found < indent {
        assert(line[found] == 32 || line[found] == 9);
    } else if indent < found {
        assert(line[indent] == 32 || line[indent] == 9);
    }
}

/// The ghost of an argument that is partly typed, whatever its case, is the rest
/// of it, and its usage behind that.
pub proof fn ghosts_complete_the_argument(
    value: Seq<char>,
    partial: Seq<u8>,
    usage: Option<Seq<char>>,
)
    requires
        0 < partial.len() < utf8(value).len(),
        typed_part(utf8(value), partial),
    ensures
        ({
            let rest = part(utf8(value), partial.len() as int, utf8(value).len() as int);
            match argument_ghost(value, partial, usage) {
                None => false,
                Some(ghost_text) => {
                    &&& rest.is_prefix_of(ghost_text)
                    &&& usage is None ==> ghost_text == rest
                    &&& usage matches Some(text) ==> ghost_text == rest + seq![' '] + text
                }
            }
        }),
{
    let rest = part(utf8(value), partial.len() as int, utf8(value).len() as int);
    if let Some(text) = usage {
        assert((rest + seq![' '] + text).take(rest.len() as int) =~= rest);
        assert(rest.is_prefix_of(rest + seq![' '] + text));
    }
}

proof fn starting_candidate(arguments: Seq<ArgumentView>, prefix: Seq<char>, at: int)
    requires
        0 <= at <= arguments.len(),
    ensures
        match argument_starting(arguments, prefix, at) {
            Some(found) => at <= found < arguments.len() && prefix.is_prefix_of(
                arguments[found].value,
            ) && forall|k: int|
                at <= k < found ==> !prefix.is_prefix_of((#[trigger] arguments[k]).value),
            None => forall|k: int|
                at <= k < arguments.len() ==> !prefix.is_prefix_of(
                    (#[trigger] arguments[k]).value,
                ),
        },
    decreases arguments.len() - at,
{
    if at < arguments.len() && !prefix.is_prefix_of(arguments[at].value) {
        starting_candidate(arguments, prefix, at + 1);
    }
}

/// While the first argument is being typed, the ghost completes the first
/// candidate that starts as typed: typed text and ghost together spell it, with
/// its usage behind. Where none starts so, there is no ghost.
pub proof fn ghosts_complete_the_first_candidate(command: CommandView, argument: Seq<char>)
    requires
        argument.len() > 0,
        forall|k: int| 0 <= k < argument.len() ==> !whitespace(#[trigger] argument[k]),
    ensures
        ({
            let typed = lowered(argument);
            match argument_starting(command.args, typed, 0) {
                None => usage_ghost(command, argument) is None && forall|k: int|
                    0 <= k < command.args.len() ==> !typed.is_prefix_of(
                        (#[trigger] command.args[k]).value,
                    ),
                Some(i) => {
                    &&& 0 <= i < command.args.len()
                    &&& forall|k: int|
                        0 <= k < i ==> !typed.is_prefix_of((#[trigger] command.args[k]).value)
                    &&& match usage_ghost(command, argument) {
                        None => command.args[i].usage is None && command.args[i].value == typed,
                        Some(rest) => typed + rest == command.args[i].value + (
                        match command.args[i].usage {
                            Some(usage) => seq![' '] + usage,
                            None => Seq::empty(),
                        }),
                    }
                },
            }
        }),
{
    gaps_are_the_first(argument, false, 0);
    let typed = lowered(argument);
    starting_candidate(command.args, typed, 0);
    if let Some(i) = argument_starting(command.args, typed, 0) {
        let value = command.args[i].value;
        let rest = value.skip(argument.len() as int);
        assert(typed.len() == argument.len());
        assert(typed + rest =~= value);
        match command.args[i].usage {
            Some(usage) => {
                assert(typed + (rest + seq![' '] + usage) =~= value + (seq![' '] + usage));
            },
            None => {
                assert(value + Seq::<char>::empty() =~= value);
                if rest.len() == 0 {
                    assert(typed =~= value);
                }
            },
        }
    }
}

/// Whether a word starts at a position.
pub open spec fn word_starts(text: Seq<char>, at: int) -> bool {
    0 <= at < text.len() && !whitespace(text[at]) && (at == 0 || whitespace(text[at - 1]))
}

/// Words are counted by where they start.
proof fn words_are_counted(text: Seq<char>, at: int, inside: bool) -> (starts: Seq<int>)
    requires
        0 <= at <= text.len(),
        inside == (at > 0 && !whitespace(text[at - 1])),
    ensures
        starts.len() == word_count(text, at, inside),
        forall|i: int| 0 <= i < starts.len() ==> at <= #[trigger] starts[i] && word_starts(
            text,
            starts[i],
        ),
        forall|i: int, j: int|
            #![trigger starts[i], starts[j]]
            0 <= i < j < starts.len() ==> starts[i] < starts[j],
        forall|k: int| at <= k && #[trigger] word_starts(text, k) ==> starts.contains(k),
    decreases text.len() - at,
{
    if at >= text.len() {
        Seq::empty()
    } else {
        let here = !whitespace(text[at]);
        let later = words_are_counted(text, at + 1, here);
        if here && !inside {
            let starts = seq![at] + later;
            assert forall|i: int| 0 <= i < starts.len() implies at <= #[trigger] starts[i]
                && word_starts(text, starts[i]) by {
                if i > 0 {
                    assert(starts[i] == later[i - 1]);
                }
            }
            assert forall|i: int, j: int|
                #![trigger starts[i], starts[j]]
                0 <= i < j < starts.len() implies starts[i] < starts[j] by {
                assert(starts[j] == later[j - 1]);
                if i > 0 {
                    assert(starts[i] == later[i - 1]);
                }
            }
            assert forall|k: int| at <= k && #[trigger] word_starts(text, k) implies starts.contains(
                k,
            ) by {
                if k == at {
                    assert(starts[0] == k);
                } else {
                    assert(later.contains(k));
                    let i = choose|i: int| 0 <= i < later.len() && later[i] == k;
                    assert(starts[i + 1] == k);
                }
            }
            starts
        } else {
            assert forall|k: int| at <= k && #[trigger] word_starts(text, k) implies later.contains(
                k,
            ) by {
                assert(k != at);
            }
            later
        }
    }
}

/// The first space is found.
proof fn spaces_are_found(text: Seq<char>, at: int)
    requires
        0 <= at <= text.len(),
    ensures
        match space_from(text, at) {
            Some(found) => at <= found < text.len() && text[found] == ' ' && forall|k: int|
                at <= k < found ==> #[trigger] text[k] != ' ',
            None => forall|k: int| at <= k < text.len() ==> #[trigger] text[k] != ' ',
        },
    decreases text.len() - at,
{
    if at < text.len() && text[at] != ' ' {
        spaces_are_found(text, at + 1);
    }
}

/// Words are passed by the spaces behind them.
proof fn words_are_passed(text: Seq<char>, at: int, count: nat) -> (spaces: Seq<int>)
    requires
        0 <= at <= text.len(),
    ensures
        spaces.len() <= count,
        forall|i: int| 0 <= i < spaces.len() ==> at <= #[trigger] spaces[i] < text.len()
            && text[spaces[i]] == ' ',
        forall|i: int, j: int|
            #![trigger spaces[i], spaces[j]]
            0 <= i < j < spaces.len() ==> spaces[i] < spaces[j],
        forall|k: int|
            #![trigger text[k]]
            at <= k < text.len() && text[k] == ' ' && (spaces.len() < count || k
                <= spaces.last()) && count > 0 ==> spaces.contains(k),
        behind_words(text, at, count) == if spaces.len() < count {
            None
        } else if count == 0 {
            Some(at)
        } else {
            Some(spaces.last() + 1)
        },
    decreases count,
{
    if count == 0 {
        Seq::empty()
    } else {
        spaces_are_found(text, at);
        match space_from(text, at) {
            None => Seq::empty(),
            Some(space) => {
                let later = words_are_passed(text, space + 1, (count - 1) as nat);
                let spaces = seq![space] + later;
                assert forall|i: int| 0 <= i < spaces.len() implies at <= #[trigger] spaces[i]
                    < text.len() && text[spaces[i]] == ' ' by {
                    if i > 0 {
                        assert(spaces[i] == later[i - 1]);
                    }
                }
                assert forall|i: int, j: int|
                    #![trigger spaces[i], spaces[j]]
                    0 <= i < j < spaces.len() implies spaces[i] < spaces[j] by {
                    assert(spaces[j] == later[j - 1]);
                    if i > 0 {
                        assert(spaces[i] == later[i - 1]);
                    }
                }
                if later.len() > 0 {
                    assert(spaces.last() == later.last());
                } else {
                    assert(spaces.last() == space);
                }
                assert forall|k: int|
                    #![trigger text[k]]
                    at <= k < text.len() && text[k] == ' ' && (spaces.len() < count || k
                        <= spaces.last()) implies spaces.contains(k) by {
                    if k <= space {
                        assert(k == space);
                        assert(spaces[0] == k);
                    } else {
                        assert(later.contains(k));
                        let i = choose|i: int| 0 <= i < later.len() && later[i] == k;
                        assert(spaces[i + 1] == k);
                    }
                }
                spaces
            },
        }
    }
}

/// Behind an argument typed in full the ghost is its usage without its first
/// words, as many as are typed behind the argument: all of it where none is, and
/// nothing where none is left.
pub proof fn typed_words_leave_the_usage(command: CommandView, argument: Seq<char>, end: int, i: int) -> (
    places: (Seq<int>, Seq<int>))
    requires
        gap_from(argument, false, 0) == Some(end),
        argument_named(command.args, argument.take(end), 0) == Some(i),
        command.args[i].usage is Some,
    ensures
        ({
            let (starts, spaces) = places;
            let typed = argument.skip(end);
            let usage = command.args[i].usage->0;
            let ghost_text = usage_ghost(command, argument);
            &&& forall|k: int|
                0 <= k < starts.len() ==> word_starts(typed, #[trigger] starts[k])
            &&& forall|j: int, k: int|
                #![trigger starts[j], starts[k]]
                0 <= j < k < starts.len() ==> starts[j] < starts[k]
            &&& forall|k: int| #[trigger] word_starts(typed, k) ==> starts.contains(k)
            &&& forall|k: int|
                0 <= k < spaces.len() ==> 0 <= #[trigger] spaces[k] < usage.len()
                    && usage[spaces[k]] == ' '
            &&& forall|j: int, k: int|
                #![trigger spaces[j], spaces[k]]
                0 <= j < k < spaces.len() ==> spaces[j] < spaces[k]
            &&& forall|k: int|
                #![trigger usage[k]]
                0 <= k < usage.len() && usage[k] == ' ' && starts.len() > 0 && (spaces.len()
                    < starts.len() || k <= spaces.last()) ==> spaces.contains(k)
            &&& spaces.len() <= starts.len()
            &&& starts.len() == 0 ==> ghost_text == Some(usage)
            &&& spaces.len() < starts.len() ==> ghost_text is None
            &&& starts.len() > 0 && spaces.len() == starts.len() ==> ghost_text == if spaces.last()
                + 1 < usage.len() {
                Some(usage.skip(spaces.last() + 1))
            } else {
                None
            }
        }),
{
    gaps_are_the_first(argument, false, 0);
    let typed = argument.skip(end);
    let usage = command.args[i].usage->0;
    let starts = words_are_counted(typed, 0, false);
    let spaces = words_are_passed(usage, 0, starts.len());
    assert(usage.skip(0) =~= usage);
    (starts, spaces)
}

/// A tilde stands for the home directory: what is typed behind it and its
/// separators lies under it. Nothing typed is the working directory, and any
/// other path is taken as typed.
pub proof fn tildes_stand_for_home(partial: Seq<char>)
    ensures
        partial.len() == 0 ==> origin_of(partial) is Here,
        partial.len() > 0 && partial[0] != '~' ==> origin_of(partial) is Typed,
        partial.len() == 1 && partial[0] == '~' ==> origin_of(partial) is Home,
        partial.len() > 1 && partial[0] == '~' ==> {
            let rest = past_separators(partial, 1);
            let start = partial.len() - rest.len();
            &&& origin_of(partial) == OriginView::UnderHome(rest)
            &&& 1 <= start
            &&& rest == partial.subrange(start, partial.len() as int)
            &&& forall|k: int|
                1 <= k < start ==> #[trigger] partial[k] == '/' || partial[k] == '\\'
            &&& rest.len() > 0 ==> rest[0] != '/' && rest[0] != '\\'
        },
{
    if partial.len() > 1 {
        separators_are_passed(partial, 1);
    }
}

/// The separators in front are passed, and nothing else.
proof fn separators_are_passed(path: Seq<char>, at: int)
    requires
        0 <= at <= path.len(),
    ensures
        ({
            let rest = past_separators(path, at);
            let start = path.len() - rest.len();
            &&& at <= start <= path.len()
            &&& rest == path.subrange(start, path.len() as int)
            &&& forall|k: int| at <= k < start ==> #[trigger] path[k] == '/' || path[k] == '\\'
            &&& rest.len() > 0 ==> rest[0] != '/' && rest[0] != '\\'
        }),
    decreases path.len() - at,
{
    if at < path.len() && (path[at] == '/' || path[at] == '\\') {
        separators_are_passed(path, at + 1);
    }
}

} // verus!
