//! What the introspection server does about a request line, a host's answer and
//! the passing of time.

use vstd::prelude::*;

use crate::queries::{
    client_from, client_views, expired_from, position_of, waits, without, ClientView, Clients,
    PendingQuery, Queries,
};
use crate::requests::{
    parse_request, parsed_line, routed, Acknowledgement, DebugOp, DebugRequest, RequestView, Route,
};

verus! {

/// How long a query may wait for a host's answer, in milliseconds; hosts without
/// a retained tree never answer, so expiry is the normal path for them.
pub const QUERY_TIMEOUT: u64 = 2000;

/// What the server answers.
pub enum Reply {
    /// Input was delivered, or was not.
    Acknowledged(Acknowledgement),
    /// Something went wrong.
    Failed(String),
}

/// What the server answers.
pub enum ReplyView {
    /// Input was delivered, or was not.
    Acknowledged(Acknowledgement),
    /// Something went wrong.
    Failed(Seq<char>),
}

impl View for Reply {
    type V = ReplyView;

    open spec fn view(&self) -> ReplyView {
        match *self {
            Reply::Acknowledged(answer) => ReplyView::Acknowledged(answer),
            Reply::Failed(problem) => ReplyView::Failed(problem@),
        }
    }
}

/// What follows from a request line.
pub enum Decision {
    /// The client is answered at once.
    Answer(Reply),
    /// The input goes to the terminal, whose acknowledgement is the answer.
    Deliver(DebugRequest),
    /// The terminal is asked under an id.
    Ask(u64, DebugOp),
}

/// What follows from a request line.
pub enum DecisionView {
    /// The client is answered at once.
    Answer(ReplyView),
    /// The input goes to the terminal.
    Deliver(RequestView),
    /// The terminal is asked under an id.
    Ask(u64, DebugOp),
}

impl View for Decision {
    type V = DecisionView;

    open spec fn view(&self) -> DecisionView {
        match *self {
            Decision::Answer(reply) => DecisionView::Answer(reply@),
            Decision::Deliver(request) => DecisionView::Deliver(request@),
            Decision::Ask(id, op) => DecisionView::Ask(id, op),
        }
    }
}

/// The clients and what they wait for.
pub struct Server {
    /// Queries in flight.
    pub queries: Queries,
    /// Connected clients.
    pub clients: Clients,
}

/// What follows from a request line, given the next query id.
pub open spec fn decided(line: Seq<u8>, next: u64) -> DecisionView {
    match parsed_line(line) {
        Err(problem) => DecisionView::Answer(ReplyView::Failed(problem)),
        Ok(request) => match routed(request) {
            Route::Ask(op) => DecisionView::Ask(next, op),
            Route::Deliver => DecisionView::Deliver(request),
        },
    }
}

/// When a query asked at `now` expires.
pub open spec fn deadline(now: u64) -> u64 {
    if now + QUERY_TIMEOUT > u64::MAX {
        u64::MAX
    } else {
        (now + QUERY_TIMEOUT) as u64
    }
}

/// The clients after a response line is queued for one of them; a response to a
/// disconnected client is dropped.
pub open spec fn responded(clients: Seq<ClientView>, client: u64, response: Seq<u8>) -> Seq<
    ClientView,
> {
    match client_from(clients, client, 0) {
        Some(at) => clients.update(
            at,
            ClientView { output: clients[at].output + response + seq![10u8], ..clients[at] },
        ),
        None => clients,
    }
}

impl Server {
    /// Each query in flight has an id of its own.
    pub open spec fn wf(self) -> bool {
        self.queries.wf()
    }

    /// A server without clients.
    pub fn new() -> (server: Self)
        ensures
            server.wf(),
            server.queries.pending@ == Seq::<PendingQuery>::empty(),
            server.queries.next_id == 1,
            client_views(server.clients.list@) == Seq::<ClientView>::empty(),
            server.clients.next == 1,
    {
        Server { queries: Queries::new(), clients: Clients::new() }
    }

    /// Decides what follows from a request line.
    pub fn decide(&mut self, line: &[u8]) -> (decision: Decision)
        requires
            old(self).wf(),
            old(self).queries.next_id < u64::MAX,
        ensures
            final(self).wf(),
            final(self).clients == old(self).clients,
            final(self).queries.pending@ == old(self).queries.pending@,
            decision@ == decided(line@, old(self).queries.next_id),
            final(self).queries.next_id == old(self).queries.next_id + (if decision is Ask {
                1int
            } else {
                0int
            }),
            decision matches Decision::Ask(id, _) ==> !waits(final(self).queries.pending@, id),
    {
        match parse_request(line) {
            Err(problem) => Decision::Answer(Reply::Failed(problem)),
            Ok(request) => match request.route() {
                Route::Ask(op) => {
                    let id: u64 = self.queries.begin();
                    Decision::Ask(id, op)
                },
                Route::Deliver => Decision::Deliver(request),
            },
        }
    }

    /// Waits for the answer to a query that was sent at `now`; the client of one
    /// that could not be sent is told so.
    pub fn asked(&mut self, id: u64, client: u64, sent: bool, now: u64) -> (reply: Option<Reply>)
        requires
            old(self).wf(),
            id < old(self).queries.next_id,
            !waits(old(self).queries.pending@, id),
        ensures
            final(self).wf(),
            final(self).clients == old(self).clients,
            final(self).queries.next_id == old(self).queries.next_id,
            sent ==> reply is None && final(self).queries.pending@
                == old(self).queries.pending@.push(
                PendingQuery { id, client, expires: deadline(now) },
            ),
            !sent ==> final(self).queries.pending@ == old(self).queries.pending@ && reply is Some
                && (reply->0)@ == ReplyView::Failed("no live terminal to query"@),
    {
        if !sent {
            return Some(Reply::Failed("no live terminal to query".to_owned()));
        }
        self.queries.park(id, client, now.saturating_add(QUERY_TIMEOUT));
        None
    }

    /// Queues a host's answer for the client that asked; late and repeated
    /// answers, and answers to disconnected clients, are dropped. The place of
    /// the client that has something to be written now.
    pub fn answered(&mut self, id: u64, response: &[u8]) -> (place: Option<usize>)
        requires
            old(self).wf(),
        ensures
            final(self).wf(),
            final(self).queries.next_id == old(self).queries.next_id,
            final(self).clients.next == old(self).clients.next,
            ({
                let pending = old(self).queries.pending@;
                let views = client_views(old(self).clients.list@);
                match position_of(pending, id, 0) {
                    Some(at) => {
                        &&& final(self).queries.pending@ == without(pending, at)
                        &&& client_views(final(self).clients.list@) == responded(
                            views,
                            pending[at].client,
                            response@,
                        )
                        &&& crate::buffer::offset_view(place) == client_from(
                            views,
                            pending[at].client,
                            0,
                        )
                    },
                    None => {
                        &&& final(self).queries.pending@ == pending
                        &&& client_views(final(self).clients.list@) == views
                        &&& place is None
                    },
                }
            }),
            place matches Some(at) ==> at < final(self).clients.list.len(),
    {
        match self.queries.answer(id) {
            Some(client) => self.clients.respond(client, response),
            None => None,
        }
    }

    /// The clients whose queries have expired by `now`, and what they are told.
    pub fn expire(&mut self, now: u64) -> (told: (Vec<u64>, String))
        requires
            old(self).wf(),
        ensures
            final(self).wf(),
            final(self).clients == old(self).clients,
            final(self).queries.next_id == old(self).queries.next_id,
            (final(self).queries.pending@, told.0@) == expired_from(
                old(self).queries.pending@,
                now,
                0,
            ),
            told.1@
                == "no retained host answered; use `text` (omp_tui::App answers frame/tree/values)"@,
    {
        let clients: Vec<u64> = self.queries.expire(now);
        (
            clients,
            "no retained host answered; use `text` (omp_tui::App answers frame/tree/values)".to_owned(),
        )
    }
}

/// A reply for a client that is gone reaches nobody: the clients that are there
/// keep what they had.
pub proof fn strays_reach_nobody(clients: Seq<ClientView>, client: u64, response: Seq<u8>)
    requires
        forall|i: int| 0 <= i < clients.len() ==> (#[trigger] clients[i]).id != client,
    ensures
        responded(clients, client, response) == clients,
{
    nobody_found(clients, client, 0);
}

proof fn nobody_found(clients: Seq<ClientView>, client: u64, at: int)
    requires
        0 <= at,
        forall|i: int| at <= i < clients.len() ==> (#[trigger] clients[i]).id != client,
    ensures
        client_from(clients, client, at) is None,
    decreases clients.len() - at,
{
    if at < clients.len() {
        assert(clients[at].id != client);
        nobody_found(clients, client, at + 1);
    }
}

} // verus!
