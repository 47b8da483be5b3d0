//! What holds of what is told to others: who gets an answer, which error is
//! told first, and how ages and durations read.

use vstd::prelude::*;

use crate::cell::CellView;
use crate::events::text_option;
use crate::numbers::{decimal, digit};
use crate::prompting::stripped;
use crate::queries::{
    client_from, expired_from, feed_from, ready_from, without, ClientView, PendingQuery,
};
use crate::screen::shown_end;
use crate::serving::{deadline, responded};
use crate::style::{plain, Style};
use crate::time::{age_key, duration_text, key_text, two_digits, unit_of, RelativeUnit};
use crate::wizard::{errors_from, field_error, first_error, own_field_error, Checked};

verus! {

/// The first line feed is found, wherever there is one.
pub proof fn lines_end_at_the_first_line_feed(bytes: Seq<u8>, at: int)
    requires
        0 <= at <= bytes.len(),
    ensures
        match feed_from(bytes, at) {
            Some(end) => at <= end < bytes.len() && bytes[end] == 10 && forall|i: int|
                at <= i < end ==> #[trigger] bytes[i] != 10,
            None => forall|i: int| at <= i < bytes.len() ==> #[trigger] bytes[i] != 10,
        },
    decreases bytes.len() - at,
{
    if at < bytes.len() && bytes[at] != 10 {
        lines_end_at_the_first_line_feed(bytes, at + 1);
    }
}

/// The first client whose input holds a line feed is served next.
pub proof fn the_first_complete_line_is_served(clients: Seq<ClientView>, at: int)
    requires
        0 <= at <= clients.len(),
    ensures
        match ready_from(clients, at) {
            Some(next) => at <= next < clients.len() && clients[next].input.contains(10u8)
                && forall|i: int|
                at <= i < next ==> !(#[trigger] clients[i]).input.contains(10u8),
            None => forall|i: int|
                at <= i < clients.len() ==> !(#[trigger] clients[i]).input.contains(10u8),
        },
    decreases clients.len() - at,
{
    if at < clients.len() {
        lines_end_at_the_first_line_feed(clients[at].input, 0);
        match feed_from(clients[at].input, 0) {
            Some(end) => {
                assert(clients[at].input[end] == 10u8);
            },
            None => {
                assert(!clients[at].input.contains(10u8));
                the_first_complete_line_is_served(clients, at + 1);
            },
        }
    }
}

/// Where a client stands.
proof fn clients_are_found(clients: Seq<ClientView>, id: u64, at: int)
    requires
        0 <= at <= clients.len(),
    ensures
        match client_from(clients, id, at) {
            Some(place) => at <= place < clients.len() && clients[place].id == id && forall|i: int|
                at <= i < place ==> (#[trigger] clients[i]).id != id,
            None => forall|i: int| at <= i < clients.len() ==> (#[trigger] clients[i]).id != id,
        },
    decreases clients.len() - at,
{
    if at < clients.len() && clients[at].id != id {
        clients_are_found(clients, id, at + 1);
    }
}

/// A response is queued as a line of its own for the client it is meant for,
/// behind what waits there already; no other client gets any of it.
pub proof fn responses_reach_their_client(
    clients: Seq<ClientView>,
    client: u64,
    response: Seq<u8>,
    i: int,
)
    requires
        0 <= i < clients.len(),
        forall|j: int, k: int|
            0 <= j < clients.len() && 0 <= k < clients.len() && j != k ==> (
            #[trigger] clients[j]).id != (#[trigger] clients[k]).id,
    ensures
        responded(clients, client, response).len() == clients.len(),
        responded(clients, client, response)[i].id == clients[i].id,
        responded(clients, client, response)[i].input == clients[i].input,
        responded(clients, client, response)[i].dead == clients[i].dead,
        responded(clients, client, response)[i].output == if clients[i].id == client {
            clients[i].output + response.push(10u8)
        } else {
            clients[i].output
        },
{
    clients_are_found(clients, client, 0);
    assert(clients[i].output + response + seq![10u8] =~= clients[i].output + response.push(10u8));
}

/// A query waits for two seconds.
pub proof fn queries_wait_for_two_seconds(now: u64)
    ensures
        now <= u64::MAX - 2000 ==> deadline(now) == now + 2000,
        deadline(now) >= now,
{
}

/// Every client whose query's time has come is told, and nobody else; every
/// other query goes on waiting.
pub proof fn all_due_queries_expire(pending: Seq<PendingQuery>, now: u64, at: int)
    requires
        0 <= at <= pending.len(),
        forall|i: int| 0 <= i < at ==> now < (#[trigger] pending[i]).expires,
    ensures
        ({
            let (rest, clients) = expired_from(pending, now, at);
            &&& rest.len() + clients.len() == pending.len()
            &&& forall|i: int|
                #![trigger pending[i]]
                0 <= i < pending.len() ==> if pending[i].expires <= now {
                    clients.contains(pending[i].client)
                } else {
                    rest.contains(pending[i])
                }
            &&& forall|c: int|
                #![trigger clients[c]]
                0 <= c < clients.len() ==> exists|i: int|
                    0 <= i < pending.len() && (#[trigger] pending[i]).client == clients[c]
                        && pending[i].expires <= now
        }),
    decreases pending.len() - at,
{
    if at < pending.len() {
        if pending[at].expires <= now {
            let fewer = without(pending, at);
            all_due_queries_expire(fewer, now, at);
            let later = expired_from(fewer, now, at).1;
            let (rest, clients) = expired_from(pending, now, at);
            assert(rest == expired_from(fewer, now, at).0);
            assert(clients == seq![pending[at].client] + later);
            assert forall|i: int| #![trigger pending[i]] 0 <= i < pending.len() implies if pending[i].expires
                <= now {
                clients.contains(pending[i].client)
            } else {
                rest.contains(pending[i])
            } by {
                if i == at {
                    assert(clients[0] == pending[i].client);
                } else {
                    let place = if i == pending.len() - 1 {
                        at
                    } else {
                        i
                    };
                    assert(fewer[place] == pending[i]);
                    if pending[i].expires <= now {
                        let c = choose|c: int| 0 <= c < later.len() && later[c] == pending[i].client;
                        assert(clients[c + 1] == pending[i].client);
                    }
                }
            }
            assert forall|c: int| #![trigger clients[c]] 0 <= c < clients.len() implies exists|i: int|
                0 <= i < pending.len() && (#[trigger] pending[i]).client == clients[c]
                    && pending[i].expires <= now by {
                if c == 0 {
                    assert(pending[at].client == clients[c]);
                } else {
                    assert(clients[c] == later[c - 1]);
                    let i = choose|i: int|
                        0 <= i < fewer.len() && (#[trigger] fewer[i]).client == later[c - 1]
                            && fewer[i].expires <= now;
                    let from = if i == at {
                        pending.len() - 1
                    } else {
                        i
                    };
                    assert(fewer[i] == pending[from]);
                }
            }
        } else {
            all_due_queries_expire(pending, now, at + 1);
        }
    } else {
        let (rest, clients) = expired_from(pending, now, at);
        assert(rest == pending && clients.len() == 0);
        assert forall|i: int| #![trigger pending[i]] 0 <= i < pending.len() implies if pending[i].expires
            <= now {
            clients.contains(pending[i].client)
        } else {
            rest.contains(pending[i])
        } by {
            assert(rest[i] == pending[i]);
        }
    }
}

/// Of several panes the first with an error is told of.
pub proof fn the_first_error_is_told(checks: Seq<Checked>, at: int)
    requires
        0 <= at <= checks.len(),
    ensures
        match errors_from(checks, at) {
            Some(error) => exists|i: int|
                at <= i < checks.len() && first_error(#[trigger] checks[i]) == Some(error)
                    && forall|j: int| at <= j < i ==> first_error(#[trigger] checks[j]) is None,
            None => forall|i: int|
                at <= i < checks.len() ==> first_error(#[trigger] checks[i]) is None,
        },
    decreases checks.len() - at,
{
    if at < checks.len() {
        if first_error(checks[at]) is None {
            the_first_error_is_told(checks, at + 1);
            if errors_from(checks, at + 1) is Some {
                let error = errors_from(checks, at + 1)->0;
                let i = choose|i: int|
                    at + 1 <= i < checks.len() && first_error(#[trigger] checks[i]) == Some(error)
                        && forall|j: int|
                        at + 1 <= j < i ==> first_error(#[trigger] checks[j]) is None;
                assert(first_error(checks[i]) == Some(error));
            }
        } else {
            assert(first_error(checks[at]) == errors_from(checks, at));
        }
    }
}

/// Hidden panes have no errors. Of a shown one its own value is told of first,
/// then what the component finds, then what lies in it.
pub proof fn errors_are_told_from_the_outside_in(check: Checked)
    ensures
        !check.visible ==> first_error(check) is None,
        check.visible && own_field_error(check) is Some ==> first_error(check)
            == own_field_error(check),
        check.visible && own_field_error(check) is None && check.own_error is Some ==> first_error(
            check,
        ) == text_option(check.own_error),
        check.visible && own_field_error(check) is None && check.own_error is None ==> first_error(
            check,
        ) == errors_from(check.children@, 0),
{
}

/// A blank value fails only where one is required, whatever the pattern; other
/// values fail only by their pattern.
pub proof fn blank_values_fail_only_where_required(
    id: Seq<char>,
    text: Seq<char>,
    pattern: Option<Seq<char>>,
)
    ensures
        stripped(text).len() == 0 ==> field_error(id, text, true, pattern) == Some(
            id + " is required"@,
        ) && field_error(id, text, false, pattern) is None,
        stripped(text).len() > 0 ==> field_error(id, text, true, pattern) == field_error(
            id,
            text,
            false,
            pattern,
        ),
        stripped(text).len() > 0 && pattern is None ==> field_error(id, text, true, pattern) is None,
{
}

/// A row ends behind the last cell that shows anything or has a style.
pub proof fn rows_end_behind_the_last_cell_shown(cells: Seq<CellView>, count: int)
    requires
        0 <= count <= cells.len(),
    ensures
        0 <= shown_end(cells, count) <= count,
        forall|i: int|
            #![trigger cells[i]]
            shown_end(cells, count) <= i < count ==> (cells[i].content is Blank || cells[i].content
                is Continuation) && (Style { link: None, ..cells[i].style }) == plain(),
        shown_end(cells, count) > 0 ==> {
            let last = cells[shown_end(cells, count) - 1];
            last.content is Grapheme || last.content is Image || (Style {
                link: None,
                ..last.style
            }) != plain()
        },
    decreases count,
{
    if count > 0 {
        rows_end_behind_the_last_cell_shown(cells, count - 1);
    }
}

/// Ages read in the largest unit they have reached, in whole units of it: `n`
/// units and less than another read as `n`.
pub proof fn ages_read_in_whole_units(n: u64, rest: u64)
    requires
        n >= 1,
    ensures
        rest < 1_000 ==> key_text(age_key(rest)) == "now"@,
        n < 60 && rest < 1_000 ==> key_text(age_key((n * 1_000 + rest) as u64)) == decimal(n as nat)
            + "s"@ + " ago"@,
        n < 60 && rest < 60_000 ==> key_text(age_key((n * 60_000 + rest) as u64)) == decimal(
            n as nat,
        ) + "m"@ + " ago"@,
        n < 24 && rest < 3_600_000 ==> key_text(age_key((n * 3_600_000 + rest) as u64)) == decimal(
            n as nat,
        ) + "h"@ + " ago"@,
        n < 7 && rest < 86_400_000 ==> key_text(age_key((n * 86_400_000 + rest) as u64)) == decimal(
            n as nat,
        ) + "d"@ + " ago"@,
        rest < 604_800_000 && n * 604_800_000 + rest < 30 * 86_400_000 ==> key_text(
            age_key((n * 604_800_000 + rest) as u64),
        ) == decimal(n as nat) + "w"@ + " ago"@,
        rest < 30 * 86_400_000 && n * (30 * 86_400_000) + rest < 365 * 86_400_000 ==> key_text(
            age_key((n * (30 * 86_400_000) + rest) as u64),
        ) == decimal(n as nat) + "mo"@ + " ago"@,
        rest < 365 * 86_400_000 && n * (365 * 86_400_000) + rest <= u64::MAX ==> key_text(
            age_key((n * (365 * 86_400_000) + rest) as u64),
        ) == decimal(n as nat) + "y"@ + " ago"@,
{
    if n < 60 && rest < 1_000 {
        let age = (n * 1_000 + rest) as u64;
        assert(unit_of(age) == RelativeUnit::Second);
        assert(age / 1_000 == n);
    }
    if n < 60 && rest < 60_000 {
        let age = (n * 60_000 + rest) as u64;
        assert(unit_of(age) == RelativeUnit::Minute);
        assert(age / 60_000 == n);
    }
    if n < 24 && rest < 3_600_000 {
        let age = (n * 3_600_000 + rest) as u64;
        assert(unit_of(age) == RelativeUnit::Hour);
        assert(age / 3_600_000 == n);
    }
    if n < 7 && rest < 86_400_000 {
        let age = (n * 86_400_000 + rest) as u64;
        assert(unit_of(age) == RelativeUnit::Day);
        assert(age / 86_400_000 == n);
    }
    if rest < 604_800_000 && n * 604_800_000 + rest < 30 * 86_400_000 {
        let age = (n * 604_800_000 + rest) as u64;
        assert(unit_of(age) == RelativeUnit::Week);
        assert(age / 604_800_000 == n);
    }
    if rest < 30 * 86_400_000 && n * (30 * 86_400_000) + rest < 365 * 86_400_000 {
        let age = (n * (30 * 86_400_000) + rest) as u64;
        assert(unit_of(age) == RelativeUnit::Month);
        assert(age / 2_592_000_000 == n);
    }
    if rest < 365 * 86_400_000 && n * (365 * 86_400_000) + rest <= u64::MAX {
        let age = (n * (365 * 86_400_000) + rest) as u64;
        assert(unit_of(age) == RelativeUnit::Year);
        assert(age / 31_536_000_000 == n);
    }
}

/// A number in two digits.
pub open spec fn in_two_digits(n: u64) -> Seq<char> {
    decimal((n / 10) as nat) + decimal((n % 10) as nat)
}

/// Numbers below a hundred have two digits.
proof fn two_digits_are_two(n: u64)
    requires
        n < 100,
    ensures
        two_digits(n as nat) == in_two_digits(n),
{
    reveal_strlit("0");
    reveal_with_fuel(decimal, 2);
    assert(decimal((n / 10) as nat) == seq![digit((n / 10) as nat)]);
    assert(decimal((n % 10) as nat) == seq![digit((n % 10) as nat)]);
    if n < 10 {
        assert(digit(0) == '0');
        assert("0"@ =~= seq!['0']);
    } else {
        assert(decimal(n as nat) =~= in_two_digits(n));
    }
}

/// Durations below a second read in milliseconds, below a minute in seconds and
/// tenths, below an hour in minutes and seconds, and else in hours and minutes.
pub proof fn durations_read_in_two_parts(n: u64, part: u64, rest: u64)
    requires
        n < 1_000_000,
    ensures
        rest < 1_000 ==> duration_text(rest) == decimal(rest as nat) + "ms"@,
        1 <= n < 60 && part < 10 && rest < 100 ==> duration_text(
            (n * 1_000 + part * 100 + rest) as u64,
        ) == decimal(n as nat) + "."@ + decimal(part as nat) + "s"@,
        1 <= n < 60 && part < 60 && rest < 1_000 ==> duration_text(
            (n * 60_000 + part * 1_000 + rest) as u64,
        ) == decimal(n as nat) + "m"@ + in_two_digits(part) + "s"@,
        n >= 1 && part < 60 && rest < 60_000 ==> duration_text(
            (n * 3_600_000 + part * 60_000 + rest) as u64,
        ) == decimal(n as nat) + "h"@ + in_two_digits(part) + "m"@,
{
    if part < 60 {
        two_digits_are_two(part);
    }
    if 1 <= n < 60 && part < 10 && rest < 100 {
        let ms = (n * 1_000 + part * 100 + rest) as u64;
        assert(ms / 1000 == n);
        assert(ms / 100 == n * 10 + part);
        assert(ms / 100 % 10 == part);
    }
    if 1 <= n < 60 && part < 60 && rest < 1_000 {
        let ms = (n * 60_000 + part * 1_000 + rest) as u64;
        assert(ms / 60000 == n);
        assert(ms / 1000 == n * 60 + part);
        assert(ms / 1000 % 60 == part);
    }
    if n >= 1 && part < 60 && rest < 60_000 {
        let ms = (n * 3_600_000 + part * 60_000 + rest) as u64;
        assert(ms / 3600000 == n);
        assert(ms / 60000 == n * 60 + part);
        assert(ms / 60000 % 60 == part);
    }
}

} // verus!
