//! Debug queries in flight, and the clients of the debug socket.

use vstd::prelude::*;
use vstd::slice::*;

verus! {

/// One in-flight retained-state query.
#[derive(Clone, Copy, Debug, PartialEq, Eq, Structural)]
pub struct PendingQuery {
    /// The query's id.
    pub id: u64,
    /// The client that asked.
    pub client: u64,
    /// When it expires, in milliseconds of the host's clock.
    pub expires: u64,
}

/// The queries in flight.
pub struct Queries {
    /// Those that wait for an answer.
    pub pending: Vec<PendingQuery>,
    /// The id of the next one.
    pub next_id: u64,
}

/// Whether a query with the id waits.
pub open spec fn waits(pending: Seq<PendingQuery>, id: u64) -> bool {
    exists|i: int| 0 <= i < pending.len() && (#[trigger] pending[i]).id == id
}

/// The position of the first query, from `at` on, with the id.
pub open spec fn position_of(pending: Seq<PendingQuery>, id: u64, at: int) -> Option<int>
    decreases pending.len() - at,
{
    if at >= pending.len() {
        None
    } else if pending[at].id == id {
        Some(at)
    } else {
        position_of(pending, id, at + 1)
    }
}

/// The queries without the one at a position, the last taking its place.
pub open spec fn without(pending: Seq<PendingQuery>, at: int) -> Seq<PendingQuery> {
    if at == pending.len() - 1 {
        pending.drop_last()
    } else {
        pending.update(at, pending.last()).drop_last()
    }
}

/// The queries left, and the clients whose queries have expired, from position
/// `at` on.
pub open spec fn expired_from(pending: Seq<PendingQuery>, now: u64, at: int) -> (
    Seq<PendingQuery>,
    Seq<u64>,
)
    decreases pending.len() - at,
{
    if at < 0 || at >= pending.len() {
        (pending, Seq::empty())
    } else if pending[at].expires <= now {
        let (rest, clients) = expired_from(without(pending, at), now, at);
        (rest, seq![pending[at].client] + clients)
    } else {
        expired_from(pending, now, at + 1)
    }
}

impl Queries {
    /// Each waiting query has an id of its own, below the next.
    pub open spec fn wf(self) -> bool {
        &&& forall|i: int|
            0 <= i < self.pending@.len() ==> (#[trigger] self.pending@[i]).id < self.next_id
        &&& forall|i: int, j: int|
            0 <= i < self.pending@.len() && 0 <= j < self.pending@.len() && i != j ==> (
            #[trigger] self.pending@[i]).id != (#[trigger] self.pending@[j]).id
    }

    /// No query in flight.
    pub fn new() -> (queries: Self)
        ensures
            queries.wf(),
            queries.pending@ == Seq::<PendingQuery>::empty(),
            queries.next_id == 1,
    {
        Queries { pending: Vec::new(), next_id: 1 }
    }

    /// The id for the next query.
    pub fn begin(&mut self) -> (id: u64)
        requires
            old(self).wf(),
            old(self).next_id < u64::MAX,
        ensures
            final(self).wf(),
            id == old(self).next_id,
            final(self).next_id == old(self).next_id + 1,
            final(self).pending@ == old(self).pending@,
            !waits(final(self).pending@, id),
    {
        let id: u64 = self.next_id;
        self.next_id = id + 1;
        id
    }

    /// Waits for the answer to a query that was sent.
    pub fn park(&mut self, id: u64, client: u64, expires: u64)
        requires
            old(self).wf(),
            id < old(self).next_id,
            !waits(old(self).pending@, id),
        ensures
            final(self).wf(),
            final(self).next_id == old(self).next_id,
            final(self).pending@ == old(self).pending@.push(PendingQuery { id, client, expires }),
    {
        let ghost before = self.pending@;
        self.pending.push(PendingQuery { id, client, expires });
        proof {
            assert forall|i: int, j: int|
                0 <= i < self.pending@.len() && 0 <= j < self.pending@.len() && i != j implies (
            #[trigger] self.pending@[i]).id != (#[trigger] self.pending@[j]).id by {
                if i == before.len() {
                    assert(before[j].id != id);
                } else if j == before.len() {
                    assert(before[i].id != id);
                }
            }
        }
    }

    /// Takes the query at a position out, the last taking its place.
    fn take(&mut self, at: usize) -> (query: PendingQuery)
        requires
            old(self).wf(),
            at < old(self).pending.len(),
        ensures
            final(self).wf(),
            final(self).next_id == old(self).next_id,
            query == old(self).pending@[at as int],
            final(self).pending@ == without(old(self).pending@, at as int),
            final(self).pending.len() + 1 == old(self).pending.len(),
    {
        let ghost before = self.pending@;
        let query: PendingQuery = self.pending[at];
        let last: usize = self.pending.len() - 1;
        if at != last {
            let moved: PendingQuery = self.pending[last];
            self.pending.set(at, moved);
        }
        let _ = self.pending.pop();
        assert(self.pending@ =~= without(before, at as int));
        proof {
            assert forall|i: int, j: int|
                0 <= i < self.pending@.len() && 0 <= j < self.pending@.len() && i != j implies (
            #[trigger] self.pending@[i]).id != (#[trigger] self.pending@[j]).id by {
                let from = |k: int|
                    if k == at {
                        last as int
                    } else {
                        k
                    };
                assert(self.pending@[i] == before[from(i)]);
                assert(self.pending@[j] == before[from(j)]);
                assert(before[from(i)].id != before[from(j)].id);
            }
            assert forall|i: int| 0 <= i < self.pending@.len() implies (
            #[trigger] self.pending@[i]).id < self.next_id by {
                let k = if i == at {
                    last as int
                } else {
                    i
                };
                assert(self.pending@[i] == before[k]);
            }
        }
        query
    }

    /// The client that an answer goes to; `None` drops a late or repeated
    /// answer.
    pub fn answer(&mut self, id: u64) -> (client: Option<u64>)
        requires
            old(self).wf(),
        ensures
            final(self).wf(),
            final(self).next_id == old(self).next_id,
            match position_of(old(self).pending@, id, 0) {
                Some(at) => client == Some(old(self).pending@[at].client) && final(self).pending@
                    == without(old(self).pending@, at),
                None => client is None && final(self).pending@ == old(self).pending@,
            },
    {
        let mut at: usize = 0;
        while at < self.pending.len()
            invariant
                at <= self.pending.len(),
                self.wf(),
                *self == *old(self),
                position_of(self.pending@, id, 0) == position_of(self.pending@, id, at as int),
            decreases self.pending.len() - at,
        {
            if self.pending[at].id == id {
                let query: PendingQuery = self.take(at);
                return Some(query.client);
            }
            at += 1;
        }
        None
    }

    /// The clients whose queries have expired.
    pub fn expire(&mut self, now: u64) -> (clients: Vec<u64>)
        requires
            old(self).wf(),
        ensures
            final(self).wf(),
            final(self).next_id == old(self).next_id,
            (final(self).pending@, clients@) == expired_from(old(self).pending@, now, 0),
    {
        let ghost goal = expired_from(self.pending@, now, 0);
        let mut clients: Vec<u64> = Vec::new();
        let mut at: usize = 0;
        assert(clients@ + goal.1 =~= goal.1);
        while at < self.pending.len()
            invariant
                at <= self.pending.len(),
                self.wf(),
                self.next_id == old(self).next_id,
                goal.0 == expired_from(self.pending@, now, at as int).0,
                goal.1 == clients@ + expired_from(self.pending@, now, at as int).1,
            decreases self.pending.len() - at,
        {
            if self.pending[at].expires <= now {
                let ghost rest = expired_from(self.pending@, now, at as int).1;
                let ghost earlier = clients@;
                let query: PendingQuery = self.take(at);
                clients.push(query.client);
                assert(clients@ + expired_from(self.pending@, now, at as int).1 =~= earlier
                    + rest);
            } else {
                at += 1;
            }
        }
        assert(clients@ + Seq::<u64>::empty() =~= clients@);
        clients
    }

    /// When the next query expires.
    pub fn earliest(&self) -> (expires: Option<u64>)
        ensures
            match expires {
                Some(when) => {
                    &&& exists|i: int|
                        0 <= i < self.pending@.len() && (#[trigger] self.pending@[i]).expires
                            == when
                    &&& forall|i: int|
                        0 <= i < self.pending@.len() ==> when <= (
                        #[trigger] self.pending@[i]).expires
                },
                None => self.pending@.len() == 0,
            },
    {
        if self.pending.len() == 0 {
            return None;
        }
        let mut when: u64 = self.pending[0].expires;
        let mut at: usize = 1;
        while at < self.pending.len()
            invariant
                1 <= at <= self.pending.len(),
                exists|i: int|
                    0 <= i < at && (#[trigger] self.pending@[i]).expires == when,
                forall|i: int| 0 <= i < at ==> when <= (#[trigger] self.pending@[i]).expires,
            decreases self.pending.len() - at,
        {
            if self.pending[at].expires < when {
                when = self.pending[at].expires;
            }
            at += 1;
        }
        Some(when)
    }
}

/// An answer reaches the client that parked the query, whatever other clients
/// came and went.
pub proof fn answers_follow_the_asking_client(pending: Seq<PendingQuery>, query: PendingQuery, at: int)
    requires
        0 <= at < pending.len(),
        pending[at] == query,
        forall|i: int, j: int|
            0 <= i < pending.len() && 0 <= j < pending.len() && i != j ==> (
            #[trigger] pending[i]).id != (#[trigger] pending[j]).id,
    ensures
        position_of(pending, query.id, 0) == Some(at),
{
    position_found(pending, query.id, 0, at);
}

/// A query is answered once: a late or repeated answer finds nobody.
pub proof fn answers_come_once(pending: Seq<PendingQuery>, id: u64, at: int)
    requires
        position_of(pending, id, 0) == Some(at),
        forall|i: int, j: int|
            0 <= i < pending.len() && 0 <= j < pending.len() && i != j ==> (
            #[trigger] pending[i]).id != (#[trigger] pending[j]).id,
    ensures
        position_of(without(pending, at), id, 0) is None,
{
    position_holds(pending, id, 0);
    let rest = without(pending, at);
    assert forall|i: int| 0 <= i < rest.len() implies (#[trigger] rest[i]).id != id by {
        let from = if i == at {
            pending.len() - 1
        } else {
            i
        };
        assert(rest[i] == pending[from]);
        assert(pending[from].id != pending[at].id);
    }
    position_missing(rest, id, 0);
}

/// Every query whose time has come is answered, and only those: what still
/// waits expires later and was waiting before.
pub proof fn expiry_leaves_later_queries(pending: Seq<PendingQuery>, now: u64, at: int)
    requires
        0 <= at <= pending.len(),
        forall|i: int| 0 <= i < at ==> now < (#[trigger] pending[i]).expires,
    ensures
        ({
            let (rest, clients) = expired_from(pending, now, at);
            &&& rest.len() + clients.len() == pending.len()
            &&& forall|i: int|
                0 <= i < rest.len() ==> now < (#[trigger] rest[i]).expires && pending.contains(
                    rest[i],
                )
        }),
    decreases pending.len() - at,
{
    if at < pending.len() {
        if pending[at].expires <= now {
            let fewer = without(pending, at);
            expiry_leaves_later_queries(fewer, now, at);
            let rest = expired_from(pending, now, at).0;
            assert forall|i: int| 0 <= i < rest.len() implies pending.contains(
                #[trigger] rest[i],
            ) by {
                assert(fewer.contains(rest[i]));
                let j = choose|j: int| 0 <= j < fewer.len() && fewer[j] == rest[i];
                if j == at {
                    assert(fewer[j] == pending[pending.len() - 1]);
                } else {
                    assert(fewer[j] == pending[j]);
                }
            }
        } else {
            expiry_leaves_later_queries(pending, now, at + 1);
        }
    }
}

proof fn position_holds(pending: Seq<PendingQuery>, id: u64, from: int)
    requires
        0 <= from,
    ensures
        position_of(pending, id, from) matches Some(at) ==> from <= at < pending.len()
            && pending[at].id == id,
    decreases pending.len() - from,
{
    if from < pending.len() && pending[from].id != id {
        position_holds(pending, id, from + 1);
    }
}

proof fn position_missing(pending: Seq<PendingQuery>, id: u64, from: int)
    requires
        0 <= from,
        forall|i: int| from <= i < pending.len() ==> (#[trigger] pending[i]).id != id,
    ensures
        position_of(pending, id, from) is None,
    decreases pending.len() - from,
{
    if from < pending.len() {
        assert(pending[from].id != id);
        position_missing(pending, id, from + 1);
    }
}

proof fn position_found(pending: Seq<PendingQuery>, id: u64, from: int, at: int)
    requires
        0 <= from <= at < pending.len(),
        pending[at].id == id,
        forall|i: int| from <= i < at ==> (#[trigger] pending[i]).id != id,
    ensures
        position_of(pending, id, from) == Some(at),
    decreases at - from,
{
    if from < at {
        assert(pending[from].id != id);
        position_found(pending, id, from + 1, at);
    }
}

/// One client of the debug socket.
pub struct Client {
    /// Stable id; survives the compaction of dead connections, so pending
    /// queries can hold it.
    pub id: u64,
    /// Bytes read and not yet taken.
    pub input: Vec<u8>,
    /// Bytes to write.
    pub output: Vec<u8>,
    /// Whether the connection is gone.
    pub dead: bool,
}

/// One client of the debug socket.
#[verifier::ext_equal]
pub struct ClientView {
    /// Stable id.
    pub id: u64,
    /// Bytes read and not yet taken.
    pub input: Seq<u8>,
    /// Bytes to write.
    pub output: Seq<u8>,
    /// Whether the connection is gone.
    pub dead: bool,
}

impl View for Client {
    type V = ClientView;

    open spec fn view(&self) -> ClientView {
        ClientView { id: self.id, input: self.input@, output: self.output@, dead: self.dead }
    }
}

/// The views of clients.
pub open spec fn client_views(clients: Seq<Client>) -> Seq<ClientView> {
    clients.map_values(|client: Client| client@)
}

/// The first line feed at or behind `at`.
pub open spec fn feed_from(bytes: Seq<u8>, at: int) -> Option<int>
    decreases bytes.len() - at,
{
    if at >= bytes.len() {
        None
    } else if bytes[at] == 10 {
        Some(at)
    } else {
        feed_from(bytes, at + 1)
    }
}

impl Client {
    /// A fresh connection.
    pub fn new(id: u64) -> (client: Self)
        ensures
            client@ == (ClientView {
                id,
                input: Seq::empty(),
                output: Seq::empty(),
                dead: false,
            }),
    {
        let client = Client { id, input: Vec::new(), output: Vec::new(), dead: false };
        assert(client@ =~= (ClientView {
            id,
            input: Seq::empty(),
            output: Seq::empty(),
            dead: false,
        }));
        client
    }

    /// Pops one complete request line, excluding its newline.
    pub fn take_line(&mut self) -> (line: Option<Vec<u8>>)
        ensures
            match feed_from(old(self)@.input, 0) {
                Some(end) => {
                    &&& line matches Some(bytes) && bytes@ == old(self)@.input.subrange(0, end)
                    &&& final(self)@ == (ClientView {
                        input: old(self)@.input.skip(end + 1),
                        ..old(self)@
                    })
                },
                None => line is None && final(self)@ == old(self)@,
            },
    {
        let ghost before = self@;
        let mut end: usize = 0;
        while end < self.input.len() && self.input[end] != 10
            invariant
                end <= self.input.len(),
                *self == *old(self),
                feed_from(self.input@, 0) == feed_from(self.input@, end as int),
            decreases self.input.len() - end,
        {
            end += 1;
        }
        if end == self.input.len() {
            return None;
        }
        let line: Vec<u8> = copy_bytes(slice_subrange(self.input.as_slice(), 0, end));
        let rest: Vec<u8> = copy_bytes(
            slice_subrange(self.input.as_slice(), end + 1, self.input.len()),
        );
        self.input = rest;
        assert(self@.input =~= before.input.skip(end + 1));
        assert(self@ =~= (ClientView { input: before.input.skip(end + 1), ..before }));
        Some(line)
    }

    /// Takes in bytes that were read.
    pub fn receive(&mut self, bytes: &[u8])
        ensures
            final(self)@ == (ClientView { input: old(self)@.input + bytes@, ..old(self)@ }),
    {
        let ghost before = self@;
        append_bytes(&mut self.input, bytes);
        assert(self@ =~= (ClientView { input: before.input + bytes@, ..before }));
    }

    /// Queues one response line.
    pub fn queue(&mut self, response: &[u8])
        ensures
            final(self)@ == (ClientView {
                output: old(self)@.output + response@ + seq![10u8],
                ..old(self)@
            }),
    {
        let ghost before = self@;
        append_bytes(&mut self.output, response);
        self.output.push(10);
        assert(self@ =~= (ClientView {
            output: before.output + response@ + seq![10u8],
            ..before
        }));
    }

    /// Forgets output that was written; nothing written where something was
    /// to write retires the connection.
    pub fn wrote(&mut self, count: usize)
        requires
            count <= old(self).output.len(),
            old(self).output.len() > 0,
        ensures
            final(self)@ == (if count == 0 {
                ClientView { dead: true, ..old(self)@ }
            } else {
                ClientView { output: old(self)@.output.skip(count as int), ..old(self)@ }
            }),
    {
        let ghost before = self@;
        if count == 0 {
            self.dead = true;
            assert(self@ =~= (ClientView { dead: true, ..before }));
            return;
        }
        let rest: Vec<u8> = copy_bytes(
            slice_subrange(self.output.as_slice(), count, self.output.len()),
        );
        self.output = rest;
        assert(self@.output =~= before.output.skip(count as int));
        assert(self@ =~= (ClientView { output: before.output.skip(count as int), ..before }));
    }

    /// Retires the connection.
    pub fn retire(&mut self)
        ensures
            final(self)@ == (ClientView { dead: true, ..old(self)@ }),
    {
        self.dead = true;
    }
}

/// A copy of some bytes.
fn copy_bytes(bytes: &[u8]) -> (copy: Vec<u8>)
    ensures
        copy@ == bytes@,
{
    let mut copy: Vec<u8> = Vec::new();
    append_bytes(&mut copy, bytes);
    assert(copy@ =~= bytes@);
    copy
}

/// Appends some bytes.
fn append_bytes(list: &mut Vec<u8>, bytes: &[u8])
    ensures
        final(list)@ == old(list)@ + bytes@,
{
    let ghost before = list@;
    let mut at: usize = 0;
    assert(list@ =~= before + bytes@.take(0));
    while at < bytes.len()
        invariant
            at <= bytes.len(),
            list@ == before + bytes@.take(at as int),
        decreases bytes.len() - at,
    {
        list.push(bytes[at]);
        at += 1;
        assert(list@ =~= before + bytes@.take(at as int));
    }
    assert(bytes@.take(at as int) =~= bytes@);
}

/// The clients of the debug socket.
pub struct Clients {
    /// The connections.
    pub list: Vec<Client>,
    /// The id of the next one.
    pub next: u64,
}

/// Whether a connection lives.
pub open spec fn alive() -> spec_fn(ClientView) -> bool {
    |client: ClientView| !client.dead
}

/// The position of the first client, from `at` on, that has a complete line.
pub open spec fn ready_from(clients: Seq<ClientView>, at: int) -> Option<int>
    decreases clients.len() - at,
{
    if at >= clients.len() {
        None
    } else if feed_from(clients[at].input, 0) is Some {
        Some(at)
    } else {
        ready_from(clients, at + 1)
    }
}

/// The position of the first client, from `at` on, with the id.
pub open spec fn client_from(clients: Seq<ClientView>, id: u64, at: int) -> Option<int>
    decreases clients.len() - at,
{
    if at >= clients.len() {
        None
    } else if clients[at].id == id {
        Some(at)
    } else {
        client_from(clients, id, at + 1)
    }
}

impl Clients {
    /// No client yet.
    pub fn new() -> (clients: Self)
        ensures
            client_views(clients.list@) == Seq::<ClientView>::empty(),
            clients.next == 1,
    {
        let clients = Clients { list: Vec::new(), next: 1 };
        assert(client_views(clients.list@) =~= Seq::<ClientView>::empty());
        clients
    }

    /// Admits a connection under an id of its own.
    pub fn accept(&mut self) -> (id: u64)
        requires
            old(self).next < u64::MAX,
        ensures
            id == old(self).next,
            final(self).next == old(self).next + 1,
            client_views(final(self).list@) == client_views(old(self).list@).push(
                ClientView { id, input: Seq::empty(), output: Seq::empty(), dead: false },
            ),
    {
        let ghost before = client_views(self.list@);
        let id: u64 = self.next;
        self.next = id + 1;
        let client: Client = Client::new(id);
        let ghost added = client@;
        self.list.push(client);
        assert(client_views(self.list@) =~= before.push(added));
        id
    }

    /// Forgets dead connections.
    pub fn compact(&mut self)
        ensures
            final(self).next == old(self).next,
            client_views(final(self).list@) == client_views(old(self).list@).filter(alive()),
    {
        let ghost views = client_views(self.list@);
        let ghost keep = alive();
        let mut kept: Vec<Client> = Vec::new();
        let ghost mut at: int = 0;
        assert(views.take(0).filter(keep) =~= Seq::<ClientView>::empty()) by {
            reveal(Seq::filter);
        }
        assert(client_views(kept@) =~= Seq::<ClientView>::empty());
        while self.list.len() > 0
            invariant
                0 <= at <= views.len(),
                keep == alive(),
                self.next == old(self).next,
                client_views(self.list@) == views.skip(at),
                client_views(kept@) == views.take(at).filter(keep),
            decreases self.list.len(),
        {
            let ghost left = client_views(self.list@);
            assert(left.len() == self.list.len());
            assert(left[0] == self.list@[0]@);
            let client: Client = self.list.remove(0);
            assert(client_views(self.list@) =~= left.drop_first());
            assert(left.drop_first() =~= views.skip(at + 1));
            proof {
                assert(views.skip(at)[0] == views[at]);
                crate::atoms::filter_grows(views, keep, at);
                assert(views[at] == client@);
            }
            let ghost earlier = client_views(kept@);
            if !client.dead {
                let ghost added = client@;
                kept.push(client);
                assert(client_views(kept@) =~= earlier.push(added));
            }
            proof {
                at = at + 1;
            }
        }
        proof {
            assert(views.skip(at).len() == 0);
            assert(views.take(at) =~= views);
        }
        self.list = kept;
    }

    /// The next complete request line of a living client, with the client.
    pub fn next_line(&mut self) -> (found: Option<(u64, Vec<u8>)>)
        ensures
            final(self).next == old(self).next,
            ({
                let living = client_views(old(self).list@).filter(alive());
                match ready_from(living, 0) {
                    Some(at) => {
                        let end = feed_from(living[at].input, 0)->0;
                        &&& found matches Some((id, line)) && id == living[at].id && line@
                            == living[at].input.subrange(0, end)
                        &&& client_views(final(self).list@) == living.update(
                            at,
                            ClientView { input: living[at].input.skip(end + 1), ..living[at] },
                        )
                    },
                    None => found is None && client_views(final(self).list@) == living,
                }
            }),
    {
        self.compact();
        let ghost living = client_views(self.list@);
        let mut at: usize = 0;
        assert(living.len() == self.list.len());
        while at < self.list.len()
            invariant
                at <= self.list.len(),
                self.next == old(self).next,
                living == client_views(self.list@),
                living == client_views(old(self).list@).filter(alive()),
                living.len() == self.list.len(),
                ready_from(living, 0) == ready_from(living, at as int),
            decreases self.list.len() - at,
        {
            assert(living[at as int] == self.list@[at as int]@);
            let id: u64 = self.list[at].id;
            let ghost before = self.list@;
            let line: Option<Vec<u8>> = self.list[at].take_line();
            match line {
                Some(bytes) => {
                    assert(client_views(self.list@) =~= living.update(
                        at as int,
                        self.list@[at as int]@,
                    ));
                    return Some((id, bytes));
                },
                None => {
                    assert(client_views(self.list@) =~= living);
                },
            }
            at += 1;
        }
        None
    }

    /// Queues one response line for a client; responses to disconnected
    /// clients are dropped.
    pub fn respond(&mut self, client: u64, response: &[u8]) -> (found: Option<usize>)
        ensures
            final(self).next == old(self).next,
            ({
                let views = client_views(old(self).list@);
                match client_from(views, client, 0) {
                    Some(at) => {
                        &&& found matches Some(place) && place == at
                        &&& at < final(self).list.len()
                        &&& client_views(final(self).list@) == views.update(
                            at,
                            ClientView {
                                output: views[at].output + response@ + seq![10u8],
                                ..views[at]
                            },
                        )
                    },
                    None => found is None && client_views(final(self).list@) == views,
                }
            }),
    {
        let ghost views = client_views(self.list@);
        let mut at: usize = 0;
        assert(views.len() == self.list.len());
        while at < self.list.len()
            invariant
                at <= self.list.len(),
                self.next == old(self).next,
                views == client_views(self.list@),
                views == client_views(old(self).list@),
                views.len() == self.list.len(),
                client_from(views, client, 0) == client_from(views, client, at as int),
            decreases self.list.len() - at,
        {
            assert(views[at as int] == self.list@[at as int]@);
            if self.list[at].id == client {
                self.list[at].queue(response);
                assert(client_views(self.list@) =~= views.update(
                    at as int,
                    self.list@[at as int]@,
                ));
                return Some(at);
            }
            at += 1;
        }
        None
    }
}

} // verus!
