//! The coordinating server: per-address connection states and message
//! routing.

use vstd::prelude::*;
use vstd::pervasive::unreached;

use crate::client::Client;
use crate::client::ClientV;
use crate::client::client_step;
use crate::client::spec_reply;
use crate::errors::CommsError;
use crate::errors::ErrV;
use crate::errors::NotSendableKind;
use crate::msg::Message;
use crate::msg::MessageType;
use crate::msg::MessageV;

verus! {

/// The mathematical value of a [`Connection`].
pub ghost enum ConnV {
    Closed,
    Halted(ClientV),
    Open(ClientV),
}

/// The lifecycle state of one peer address.
///
/// `Open` holds the live client and may carry messages. `Halted` retains the
/// client for inspection but carries nothing further. `Closed` holds
/// nothing. A connection moves `Open -> Halted` the instant a routed message
/// makes its client report an error, and to `Closed` only through
/// [`Server::close_all`]; nothing ever leaves `Closed` or `Halted`.
pub enum Connection {
    Closed,
    Halted(Client),
    Open(Client),
}

impl View for Connection {
    type V = ConnV;

    open spec fn view(&self) -> ConnV {
        match self {
            Connection::Closed => ConnV::Closed,
            Connection::Halted(c) => ConnV::Halted(c@),
            Connection::Open(c) => ConnV::Open(c@),
        }
    }
}

/// The mathematical value of one connection-table entry.
pub ghost struct EntryV {
    pub addr: Seq<char>,
    pub conn: ConnV,
}

/// One entry of the server's connection table: a peer address and the state
/// of its connection.
pub struct ConnEntry {
    pub addr: String,
    pub conn: Connection,
}

impl View for ConnEntry {
    type V = EntryV;

    open spec fn view(&self) -> EntryV {
        EntryV { addr: self.addr@, conn: self.conn@ }
    }
}

/// The state held for the first entry carrying `addr`, if any.
pub open spec fn lookup(s: Seq<EntryV>, addr: Seq<char>) -> Option<ConnV>
    decreases s.len(),
{
    if s.len() == 0 {
        None
    } else if s[0].addr == addr {
        Some(s[0].conn)
    } else {
        lookup(s.drop_first(), addr)
    }
}

/// The table with the first entry carrying `addr` set to `c`; unchanged if
/// no entry carries `addr`.
pub open spec fn set_conn(s: Seq<EntryV>, addr: Seq<char>, c: ConnV) -> Seq<EntryV>
    decreases s.len(),
{
    if s.len() == 0 {
        s
    } else if s[0].addr == addr {
        seq![EntryV { addr: s[0].addr, conn: c }] + s.drop_first()
    } else {
        seq![s[0]] + set_conn(s.drop_first(), addr, c)
    }
}

/// One where the entry is halted, zero otherwise.
pub open spec fn spec_contrib(c: ConnV) -> nat {
    if c is Halted {
        1
    } else {
        0
    }
}

/// How many entries of the table are halted.
pub open spec fn halted_count(s: Seq<EntryV>) -> nat
    decreases s.len(),
{
    if s.len() == 0 {
        0
    } else {
        spec_contrib(s[0].conn) + halted_count(s.drop_first())
    }
}

/// Every entry of the table is closed.
pub open spec fn all_closed(s: Seq<EntryV>) -> bool {
    forall|i: int| 0 <= i < s.len() ==> s[i].conn is Closed
}

/// No two entries of the table carry the same address.
pub open spec fn distinct_addrs(s: Seq<EntryV>) -> bool {
    forall|i: int, j: int| 0 <= i < j < s.len() ==> s[i].addr != s[j].addr
}

/// The view of `open`'s acknowledgement.
pub open spec fn spec_ack(r: Result<(), CommsError>) -> Result<(), ErrV> {
    match r {
        Ok(_) => Ok(()),
        Err(e) => Err(e@),
    }
}

/// What `open` does to the connection table: an address already present in
/// any state is refused; otherwise the client takes a handshake carrying
/// the server's address, and on its success an open connection holding the
/// bound client is appended. If the handshake fails, its error surfaces and
/// nothing is inserted.
pub open spec fn open_step(s: Seq<EntryV>, ip: Seq<char>, addr: Seq<char>, c: ClientV) -> (Seq<
    EntryV,
>, Result<(), ErrV>) {
    if lookup(s, addr) is Some {
        (s, Err(ErrV::ConnectionAlreadyExists { addr }))
    } else {
        let stepped = client_step(c, MessageV { msg_type: MessageType::Handshake, load: ip });
        match stepped.1 {
            Ok(_) => (s.push(EntryV { addr, conn: ConnV::Open(stepped.0) }), Ok(())),
            Err(e) => (s, Err(e)),
        }
    }
}

/// What `send` does to the connection table: an unknown, closed or halted
/// address is refused and nothing changes; an open connection delegates the
/// message to its client, keeps the connection open with the client's new
/// state on success, and halts it — preserving the client's state at the
/// time of failure — when the client reports an error, which surfaces
/// unchanged.
pub open spec fn send_step(s: Seq<EntryV>, addr: Seq<char>, m: MessageV) -> (Seq<EntryV>, Result<
    Option<Seq<char>>,
    ErrV,
>) {
    match lookup(s, addr) {
        None => (s, Err(ErrV::NotSendable { addr, kind: NotSendableKind::Unknown })),
        Some(ConnV::Closed) => (s, Err(ErrV::NotSendable { addr, kind: NotSendableKind::Closed })),
        Some(ConnV::Halted(_)) => (
            s,
            Err(ErrV::NotSendable { addr, kind: NotSendableKind::Halted }),
        ),
        Some(ConnV::Open(c)) => {
            let stepped = client_step(c, m);
            match stepped.1 {
                Ok(resp) => (set_conn(s, addr, ConnV::Open(stepped.0)), Ok(resp)),
                Err(e) => (set_conn(s, addr, ConnV::Halted(stepped.0)), Err(e)),
            }
        },
    }
}

/// Relies on str's `PartialEq`: two string slices are equal exactly when
/// their character sequences are.
#[verifier::external_body]
fn str_eq(a: &str, b: &str) -> (r: bool)
    ensures
        r == (a@ == b@),
{
    a == b
}

/// The coordinating server: its own address and the connection table, one
/// entry per peer address ever opened. Entries are never removed; closing
/// only changes their state.
pub struct Server {
    pub ip: String,
    pub connections: Vec<ConnEntry>,
}

impl Server {
    /// The mathematical value of the connection table.
    pub open spec fn entries(&self) -> Seq<EntryV> {
        self.connections@.map_values(|e: ConnEntry| e@)
    }

    /// Creates a server with the given address and no connections.
    pub fn new(ip: String) -> (r: Server)
        ensures
            r.ip == ip,
            r.entries() == Seq::<EntryV>::empty(),
    {
        let r = Server { ip, connections: Vec::new() };
        proof {
            assert(r.entries() =~= Seq::<EntryV>::empty());
        }
        r
    }

    /// The index of the first entry carrying `addr`, if any, tied to what
    /// [`lookup`] finds there.
    fn find_index(&self, addr: &str) -> (r: Option<usize>)
        ensures
            match r {
                Some(i) => 0 <= i < self.entries().len() && self.entries()[i as int].addr == addr@
                    && (forall|j: int| 0 <= j < i ==> self.entries()[j].addr != addr@) && lookup(
                    self.entries(),
                    addr@,
                ) == Some(self.entries()[i as int].conn),
                None => lookup(self.entries(), addr@) is None,
            },
    {
        let ghost s = self.entries();
        let mut k: usize = 0;
        while k < self.connections.len()
            invariant
                s == self.entries(),
                s.len() == self.connections@.len(),
                k <= self.connections@.len(),
                forall|j: int| 0 <= j < k ==> s[j].addr != addr@,
            decreases self.connections@.len() - k,
        {
            if str_eq(self.connections[k].addr.as_str(), addr) {
                proof {
                    lemma_lookup_from(s, addr@, k as int);
                    assert(s.skip(k as int)[0] == s[k as int]);
                }
                return Some(k);
            }
            k = k + 1;
        }
        proof {
            lemma_lookup_from(s, addr@, s.len() as int);
            assert(s.skip(s.len() as int).len() == 0);
        }
        None
    }

    /// The state of the connection to `addr`, if one was ever opened.
    pub fn connection(&self, addr: &str) -> (r: Option<&Connection>)
        ensures
            match r {
                Some(c) => lookup(self.entries(), addr@) == Some(c@),
                None => lookup(self.entries(), addr@) is None,
            },
    {
        match self.find_index(addr) {
            Some(i) => Some(&self.connections[i].conn),
            None => None,
        }
    }

    /// Opens a connection to `addr` by handing `client` a handshake that
    /// carries this server's address, exactly as [`open_step`] says: it
    /// fails if any entry for `addr` exists, or if the client refuses the
    /// handshake; otherwise the bound client is stored open under `addr`.
    pub fn open(&mut self, addr: &str, client: Client) -> (r: Result<(), CommsError>)
        ensures
            final(self).ip == old(self).ip,
            final(self).entries() == open_step(old(self).entries(), old(self).ip@, addr@, client@).0,
            spec_ack(r) == open_step(old(self).entries(), old(self).ip@, addr@, client@).1,
    {
        match self.find_index(addr) {
            Some(_) => Err(CommsError::ConnectionAlreadyExists { addr: addr.to_owned() }),
            None => {
                let mut c = client;
                let greeting = Message {
                    msg_type: MessageType::Handshake,
                    load: self.ip.clone(),
                };
                match c.receive(greeting) {
                    Ok(_) => {
                        let ghost before = self.entries();
                        let entry = ConnEntry { addr: addr.to_owned(), conn: Connection::Open(c) };
                        self.connections.push(entry);
                        proof {
                            assert(self.entries() =~= before.push(entry@));
                        }
                        Ok(())
                    },
                    Err(e) => Err(e),
                }
            },
        }
    }

    /// Routes `msg` to the client behind `addr`, exactly as [`send_step`]
    /// says: only an open connection carries it; a client error halts the
    /// connection and surfaces unchanged.
    pub fn send(&mut self, addr: &str, msg: Message) -> (r: Result<Option<String>, CommsError>)
        ensures
            final(self).ip == old(self).ip,
            final(self).entries() == send_step(old(self).entries(), addr@, msg@).0,
            spec_reply(r) == send_step(old(self).entries(), addr@, msg@).1,
    {
        let ghost s = self.entries();
        match self.find_index(addr) {
            None => Err(
                CommsError::NotSendable { addr: addr.to_owned(), kind: NotSendableKind::Unknown },
            ),
            Some(i) => {
                let mut open_now = false;
                let mut halted_now = false;
                match &self.connections[i].conn {
                    Connection::Open(_) => {
                        open_now = true;
                    },
                    Connection::Halted(_) => {
                        halted_now = true;
                    },
                    Connection::Closed => {},
                }
                if !open_now {
                    if halted_now {
                        Err(
                            CommsError::NotSendable {
                                addr: addr.to_owned(),
                                kind: NotSendableKind::Halted,
                            },
                        )
                    } else {
                        Err(
                            CommsError::NotSendable {
                                addr: addr.to_owned(),
                                kind: NotSendableKind::Closed,
                            },
                        )
                    }
                } else {
                    let entry = self.connections.remove(i);
                    match entry.conn {
                        Connection::Open(mut client) => {
                            let res = client.receive(msg);
                            let reopened = match &res {
                                Ok(_) => Connection::Open(client),
                                Err(_) => Connection::Halted(client),
                            };
                            let new_entry = ConnEntry { addr: entry.addr, conn: reopened };
                            self.connections.insert(i, new_entry);
                            proof {
                                lemma_set_conn_at(s, addr@, new_entry@.conn, i as int);
                                assert(self.connections@ =~= old(
                                    self,
                                ).connections@.update(i as int, new_entry));
                                assert(self.entries() =~= s.update(i as int, new_entry@));
                                assert(new_entry@ == (EntryV {
                                    addr: addr@,
                                    conn: new_entry@.conn,
                                }));
                                assert(self.entries() == send_step(s, addr@, msg@).0);
                            }
                            res
                        },
                        _ => unreached(),
                    }
                }
            },
        }
    }

    /// Whether a connection to `addr` exists and is exactly open.
    pub fn is_open(&self, addr: &str) -> (r: bool)
        ensures
            r == (lookup(self.entries(), addr@) matches Some(ConnV::Open(_))),
    {
        match self.find_index(addr) {
            None => false,
            Some(i) => match &self.connections[i].conn {
                Connection::Open(_) => true,
                _ => false,
            },
        }
    }

    /// How many connections are exactly halted.
    pub fn count_halted(&self) -> (r: usize)
        ensures
            r as nat == halted_count(self.entries()),
    {
        let ghost s = self.entries();
        let mut count: usize = 0;
        let mut k: usize = 0;
        proof {
            assert(s.skip(0) =~= s);
        }
        while k < self.connections.len()
            invariant
                s == self.entries(),
                s.len() == self.connections@.len(),
                k <= self.connections@.len(),
                count <= k,
                count as nat + halted_count(s.skip(k as int)) == halted_count(s),
            decreases self.connections@.len() - k,
        {
            let ghost rest = s.skip(k as int);
            proof {
                assert(rest.len() > 0);
                assert(rest[0] == s[k as int]);
                assert(rest.drop_first() =~= s.skip(k as int + 1));
            }
            match &self.connections[k].conn {
                Connection::Halted(_) => {
                    count = count + 1;
                },
                _ => {},
            }
            k = k + 1;
        }
        proof {
            assert(s.skip(s.len() as int).len() == 0);
        }
        count
    }

    /// Closes every connection: each entry keeps its address and is set to
    /// closed, whatever its state was; any held client is discarded.
    pub fn close_all(&mut self)
        ensures
            final(self).ip == old(self).ip,
            final(self).entries().len() == old(self).entries().len(),
            forall|i: int|
                0 <= i < old(self).entries().len() ==> final(self).entries()[i] == (EntryV {
                    addr: old(self).entries()[i].addr,
                    conn: ConnV::Closed,
                }),
    {
        let mut k: usize = 0;
        while k < self.connections.len()
            invariant
                self.ip == old(self).ip,
                self.connections@.len() == old(self).connections@.len(),
                k <= self.connections@.len(),
                forall|j: int|
                    0 <= j < k ==> (self.connections@[j].conn is Closed && self.connections@[j].addr@
                        == old(self).connections@[j].addr@),
                forall|j: int|
                    k <= j < self.connections@.len() ==> self.connections@[j] == old(
                        self,
                    ).connections@[j],
            decreases self.connections@.len() - k,
        {
            let ghost before = self.connections@;
            let e = self.connections.remove(k);
            self.connections.insert(k, ConnEntry { addr: e.addr, conn: Connection::Closed });
            proof {
                assert(self.connections@ =~= before.update(
                    k as int,
                    ConnEntry { addr: e.addr, conn: Connection::Closed },
                ));
            }
            k = k + 1;
        }
        proof {
            assert forall|i: int| 0 <= i < old(self).entries().len() implies self.entries()[i]
                == (EntryV {
                addr: old(self).entries()[i].addr,
                conn: ConnV::Closed,
            }) by {
                assert(self.entries()[i] == self.connections@[i]@);
                assert(old(self).entries()[i] == old(self).connections@[i]@);
            }
        }
    }
}

/// Skipping entries that do not carry `addr` does not change what [`lookup`]
/// finds.
proof fn lemma_lookup_from(s: Seq<EntryV>, addr: Seq<char>, i: int)
    requires
        0 <= i <= s.len(),
        forall|j: int| 0 <= j < i ==> s[j].addr != addr,
    ensures
        lookup(s, addr) == lookup(s.skip(i), addr),
    decreases i,
{
    if i > 0 {
        assert(s.skip(0) =~= s);
        assert(forall|j: int| 0 <= j < i - 1 ==> s.drop_first()[j].addr != addr);
        lemma_lookup_from(s.drop_first(), addr, i - 1);
        assert(s.drop_first().skip(i - 1) =~= s.skip(i));
    } else {
        assert(s.skip(0) =~= s);
    }
}

/// What [`lookup`] finds after appending an entry: anything already found
/// is kept; otherwise the new entry answers for its own address alone.
proof fn lemma_lookup_push(s: Seq<EntryV>, e: EntryV, addr: Seq<char>)
    ensures
        lookup(s.push(e), addr) == (if lookup(s, addr) is Some {
            lookup(s, addr)
        } else if e.addr == addr {
            Some(e.conn)
        } else {
            None::<ConnV>
        }),
    decreases s.len(),
{
    if s.len() == 0 {
        assert(s.push(e)[0] == e);
        assert(s.push(e).drop_first() =~= Seq::<EntryV>::empty());
        assert(lookup(s, addr) is None);
        if e.addr != addr {
            assert(lookup(s.push(e), addr) == lookup(s.push(e).drop_first(), addr));
            assert(lookup(s.push(e).drop_first(), addr) is None);
        }
    } else {
        assert(s.push(e)[0] == s[0]);
        assert(s.push(e).drop_first() =~= s.drop_first().push(e));
        lemma_lookup_push(s.drop_first(), e, addr);
        if s[0].addr == addr {
            assert(lookup(s.push(e), addr) == Some(s[0].conn));
            assert(lookup(s, addr) == Some(s[0].conn));
        } else {
            assert(lookup(s.push(e), addr) == lookup(s.drop_first().push(e), addr));
            assert(lookup(s, addr) == lookup(s.drop_first(), addr));
        }
    }
}

/// Appending an entry adds exactly its own contribution to the halted
/// count.
proof fn lemma_halted_count_push(s: Seq<EntryV>, e: EntryV)
    ensures
        halted_count(s.push(e)) == halted_count(s) + spec_contrib(e.conn),
    decreases s.len(),
{
    if s.len() == 0 {
        assert(s.push(e)[0] == e);
        assert(s.push(e).drop_first() =~= Seq::<EntryV>::empty());
        assert(halted_count(s.push(e).drop_first()) == 0);
    } else {
        assert(s.push(e)[0] == s[0]);
        assert(s.push(e).drop_first() =~= s.drop_first().push(e));
        lemma_halted_count_push(s.drop_first(), e);
    }
}

/// What [`lookup`] finds after [`set_conn`]: the set state under the set
/// address (when it was present at all), and everything else untouched.
proof fn lemma_lookup_set_conn(s: Seq<EntryV>, addr: Seq<char>, c: ConnV, probe: Seq<char>)
    ensures
        lookup(s, addr) is Some ==> lookup(set_conn(s, addr, c), addr) == Some(c),
        probe != addr ==> lookup(set_conn(s, addr, c), probe) == lookup(s, probe),
        lookup(s, addr) is None ==> set_conn(s, addr, c) == s,
    decreases s.len(),
{
    if s.len() > 0 {
        let t = set_conn(s, addr, c);
        if s[0].addr == addr {
            assert(t[0] == (EntryV { addr: s[0].addr, conn: c }));
            assert(t.drop_first() =~= s.drop_first());
        } else {
            assert(t[0] == s[0]);
            assert(t.drop_first() =~= set_conn(s.drop_first(), addr, c));
            lemma_lookup_set_conn(s.drop_first(), addr, c, probe);
            if lookup(s.drop_first(), addr) is None {
                assert(t =~= s);
            }
        }
    }
}

/// [`set_conn`] keeps the table's length and every address in place.
proof fn lemma_set_conn_addrs(s: Seq<EntryV>, addr: Seq<char>, c: ConnV)
    ensures
        set_conn(s, addr, c).len() == s.len(),
        forall|i: int| 0 <= i < s.len() ==> set_conn(s, addr, c)[i].addr == s[i].addr,
    decreases s.len(),
{
    if s.len() > 0 {
        let t = set_conn(s, addr, c);
        if s[0].addr == addr {
        } else {
            lemma_set_conn_addrs(s.drop_first(), addr, c);
            assert forall|i: int| 0 <= i < s.len() implies t[i].addr == s[i].addr by {
                if i > 0 {
                    assert(t[i] == set_conn(s.drop_first(), addr, c)[i - 1]);
                    assert(s.drop_first()[i - 1] == s[i]);
                }
            }
        }
    }
}

/// How [`set_conn`] moves the halted count: the set entry's contribution
/// replaces that of the state it had.
proof fn lemma_set_conn_halted_count(s: Seq<EntryV>, addr: Seq<char>, c0: ConnV, c: ConnV)
    requires
        lookup(s, addr) == Some(c0),
    ensures
        halted_count(set_conn(s, addr, c)) + spec_contrib(c0) == halted_count(s) + spec_contrib(c),
    decreases s.len(),
{
    let t = set_conn(s, addr, c);
    if s[0].addr == addr {
        assert(t[0] == (EntryV { addr: s[0].addr, conn: c }));
        assert(t.drop_first() =~= s.drop_first());
    } else {
        assert(t[0] == s[0]);
        assert(t.drop_first() =~= set_conn(s.drop_first(), addr, c));
        lemma_set_conn_halted_count(s.drop_first(), addr, c0, c);
    }
}

/// An address [`lookup`] does not find is carried by no entry.
proof fn lemma_lookup_none_absent(s: Seq<EntryV>, addr: Seq<char>)
    requires
        lookup(s, addr) is None,
    ensures
        forall|i: int| 0 <= i < s.len() ==> s[i].addr != addr,
    decreases s.len(),
{
    if s.len() > 0 {
        lemma_lookup_none_absent(s.drop_first(), addr);
        assert forall|i: int| 0 <= i < s.len() implies s[i].addr != addr by {
            if i > 0 {
                assert(s.drop_first()[i - 1] == s[i]);
            }
        }
    }
}

/// Law: a connection is opened exactly once per address. On an absent
/// address, `open` with an unbound client succeeds and leaves an open
/// connection holding the client bound to the server's address; on a
/// present address — in particular right after such a success — it fails
/// with the exact "already exists" error, whatever client or server address
/// the retry carries, and the table is untouched.
pub proof fn lemma_open_exactly_once(
    s: Seq<EntryV>,
    ip: Seq<char>,
    addr: Seq<char>,
    c: ClientV,
    ip2: Seq<char>,
    c2: ClientV,
)
    requires
        c.connected_server is None,
    ensures
        lookup(s, addr) is None ==> open_step(s, ip, addr, c).1 == Ok::<(), ErrV>(()),
        lookup(s, addr) is None ==> lookup(open_step(s, ip, addr, c).0, addr) == Some(
            ConnV::Open(ClientV { connected_server: Some(ip), ..c }),
        ),
        lookup(s, addr) is Some ==> open_step(s, ip, addr, c) == (
            s,
            Err::<(), ErrV>(ErrV::ConnectionAlreadyExists { addr }),
        ),
        lookup(s, addr) is None ==> open_step(open_step(s, ip, addr, c).0, ip2, addr, c2) == (
            open_step(s, ip, addr, c).0,
            Err::<(), ErrV>(ErrV::ConnectionAlreadyExists { addr }),
        ),
        lookup(s, addr) is None ==> halted_count(open_step(s, ip, addr, c).0) == halted_count(s),
{
    if lookup(s, addr) is None {
        let bound = ClientV { connected_server: Some(ip), ..c };
        lemma_lookup_push(s, EntryV { addr, conn: ConnV::Open(bound) }, addr);
        lemma_halted_count_push(s, EntryV { addr, conn: ConnV::Open(bound) });
    }
}

/// Law: a client error halts the connection. When the client behind an open
/// connection rejects a message, `send` surfaces the client's own error
/// unchanged, the connection holds the client halted in its state at the
/// time of failure, the halted count grows by exactly one, and every
/// further send to that address fails with the halted-connection error and
/// changes nothing.
pub proof fn lemma_client_error_halts(
    s: Seq<EntryV>,
    addr: Seq<char>,
    m: MessageV,
    c: ClientV,
    m2: MessageV,
)
    requires
        lookup(s, addr) == Some(ConnV::Open(c)),
        client_step(c, m).1 is Err,
    ensures
        send_step(s, addr, m).1 == client_step(c, m).1,
        lookup(send_step(s, addr, m).0, addr) == Some(ConnV::Halted(c)),
        halted_count(send_step(s, addr, m).0) == halted_count(s) + 1,
        send_step(send_step(s, addr, m).0, addr, m2) == (
            send_step(s, addr, m).0,
            Err::<Option<Seq<char>>, ErrV>(
                ErrV::NotSendable { addr, kind: NotSendableKind::Halted },
            ),
        ),
{
    assert(client_step(c, m).0 == c);
    lemma_lookup_set_conn(s, addr, ConnV::Halted(c), addr);
    lemma_set_conn_halted_count(s, addr, ConnV::Open(c), ConnV::Halted(c));
}

/// Law: after everything is closed, no address is open and nothing counts
/// as halted.
pub proof fn lemma_all_closed_nothing_open(s: Seq<EntryV>, addr: Seq<char>)
    requires
        all_closed(s),
    ensures
        !(lookup(s, addr) matches Some(ConnV::Open(_))),
        halted_count(s) == 0,
    decreases s.len(),
{
    if s.len() > 0 {
        assert(s[0].conn is Closed);
        assert forall|i: int| 0 <= i < s.drop_first().len() implies s.drop_first()[i].conn
            is Closed by {
            assert(s.drop_first()[i] == s[i + 1]);
        }
        lemma_all_closed_nothing_open(s.drop_first(), addr);
    }
}

/// Law: the connection table never carries an address twice — neither
/// opening (which refuses a present address) nor sending (which only
/// changes a connection's state) introduces a duplicate.
pub proof fn lemma_steps_preserve_distinct(
    s: Seq<EntryV>,
    ip: Seq<char>,
    addr: Seq<char>,
    c: ClientV,
    m: MessageV,
)
    requires
        distinct_addrs(s),
    ensures
        distinct_addrs(open_step(s, ip, addr, c).0),
        distinct_addrs(send_step(s, addr, m).0),
{
    let t = open_step(s, ip, addr, c).0;
    if lookup(s, addr) is None {
        lemma_lookup_none_absent(s, addr);
        assert forall|i: int, j: int| 0 <= i < j < t.len() implies t[i].addr != t[j].addr by {
            if j < s.len() {
                assert(t[i] == s[i] && t[j] == s[j]);
            } else {
                assert(t[i] == s[i] && t[j].addr == addr);
            }
        }
    }
    let u = send_step(s, addr, m).0;
    match lookup(s, addr) {
        Some(ConnV::Open(cc)) => {
            let stepped = client_step(cc, m);
            match stepped.1 {
                Ok(_) => {
                    lemma_set_conn_addrs(s, addr, ConnV::Open(stepped.0));
                    assert(u == set_conn(s, addr, ConnV::Open(stepped.0)));
                },
                Err(_) => {
                    lemma_set_conn_addrs(s, addr, ConnV::Halted(stepped.0));
                    assert(u == set_conn(s, addr, ConnV::Halted(stepped.0)));
                },
            }
            assert forall|i: int, j: int| 0 <= i < j < u.len() implies u[i].addr != u[j].addr by {
                assert(u[i].addr == s[i].addr);
                assert(u[j].addr == s[j].addr);
            }
        },
        _ => {
            assert(u == s);
        },
    }
}

/// Where `i` is the first entry carrying `addr`, [`set_conn`] is exactly an
/// update of that entry.
proof fn lemma_set_conn_at(s: Seq<EntryV>, addr: Seq<char>, c: ConnV, i: int)
    requires
        0 <= i < s.len(),
        s[i].addr == addr,
        forall|j: int| 0 <= j < i ==> s[j].addr != addr,
    ensures
        set_conn(s, addr, c) == s.update(i, EntryV { addr: addr, conn: c }),
    decreases i,
{
    if i == 0 {
        assert(seq![EntryV { addr: s[0].addr, conn: c }] + s.drop_first() =~= s.update(
            0,
            EntryV { addr: addr, conn: c },
        ));
    } else {
        assert(forall|j: int| 0 <= j < i - 1 ==> s.drop_first()[j].addr != addr);
        lemma_set_conn_at(s.drop_first(), addr, c, i - 1);
        assert(seq![s[0]] + s.drop_first().update(i - 1, EntryV { addr: addr, conn: c }) =~= s
            .update(i, EntryV { addr: addr, conn: c }));
    }
}

} // verus!
