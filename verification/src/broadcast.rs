//! The per-project broadcast hub: it owns the set of attached clients and
//! the ordered history of relayed messages, and decides, for every observed
//! event, which wire writes the surrounding tasks must perform. The accept
//! and relay loops themselves suspend on sockets and channels, so they live
//! outside the library and drive `attach_client`, `publish`, `consume` and
//! `close`.
//!
//! Fan-out policy: a published message is addressed to every currently
//! attached client, independently; a failed write to one client is logged
//! by the caller and ignored. A client attached later receives only what is
//! published after it attached.

use crate::message::{encode_wire_line, wire_line, Level, Message, Stream};
use vstd::prelude::*;
use vstd::string::*;

verus! {

/// How a character of a project root is spelt inside a socket name: `/`
/// and the escape character itself are escaped, so distinct roots always
/// get distinct names.
pub open spec fn encode_root_char(c: char) -> Seq<char> {
    if c == '/' {
        seq!['%', 's']
    } else if c == '%' {
        seq!['%', '%']
    } else {
        seq![c]
    }
}

pub open spec fn encoded_root(root: Seq<char>) -> Seq<char>
    decreases root.len(),
{
    if root.len() == 0 {
        Seq::empty()
    } else {
        encoded_root(root.drop_last()) + encode_root_char(root.last())
    }
}

/// The socket name a project root determines; the derivation is a pure
/// function of the root, so it is stable across daemon restarts.
pub open spec fn spec_socket_name(root: Seq<char>) -> Seq<char> {
    encoded_root(root) + ".socket"@
}

/// The full endpoint address of a project root.
pub open spec fn spec_socket_address(root: Seq<char>) -> Seq<char> {
    "/private/tmp/xbase/"@ + spec_socket_name(root)
}

/// The run of `%` at the end of a text.
spec fn trailing_pct(s: Seq<char>) -> int
    decreases s.len(),
{
    if s.len() == 0 {
        0
    } else if s.last() == '%' {
        1 + trailing_pct(s.drop_last())
    } else {
        0
    }
}

/// An encoded root ends in an even run of `%`: the only unit ending in
/// `%` is the two-character escape of `%` itself.
proof fn lemma_encoded_trailing_even(root: Seq<char>)
    ensures
        trailing_pct(encoded_root(root)) % 2 == 0,
    decreases root.len(),
{
    if root.len() > 0 {
        lemma_encoded_trailing_even(root.drop_last());
        let base = encoded_root(root.drop_last());
        let c = root.last();
        if c == '/' {
            assert(encoded_root(root) =~= base.push('%').push('s'));
            assert(encoded_root(root).last() == 's');
            assert(trailing_pct(encoded_root(root)) == 0);
        } else if c == '%' {
            assert(encoded_root(root) =~= base.push('%').push('%'));
            assert(encoded_root(root).last() == '%');
            assert(encoded_root(root).drop_last() =~= base.push('%'));
            assert(trailing_pct(encoded_root(root)) == 1 + trailing_pct(base.push('%')));
            assert(base.push('%').last() == '%');
            assert(base.push('%').drop_last() =~= base);
            assert(trailing_pct(base.push('%')) == 1 + trailing_pct(base));
        } else {
            assert(encoded_root(root) =~= base.push(c));
            assert(encoded_root(root).last() == c);
            assert(trailing_pct(encoded_root(root)) == 0);
        }
    }
}

proof fn lemma_seq_cancel_right(a: Seq<char>, b: Seq<char>, c: Seq<char>, d: Seq<char>)
    requires
        a + b == c + d,
        b.len() == d.len(),
    ensures
        a == c,
        b == d,
{
    assert((a + b).len() == a.len() + b.len());
    assert((c + d).len() == c.len() + d.len());
    assert(a.len() == c.len());
    assert(a =~= c) by {
        assert forall|i: int| 0 <= i < a.len() implies a[i] == c[i] by {
            assert((a + b)[i] == a[i]);
            assert((c + d)[i] == c[i]);
        }
    }
    assert(b =~= d) by {
        assert forall|i: int| 0 <= i < b.len() implies b[i] == d[i] by {
            assert((a + b)[a.len() + i] == b[i]);
            assert((c + d)[c.len() + i] == d[i]);
        }
    }
}

/// The root encoding is injective: distinct project roots get distinct
/// socket names, so no two projects ever contend for one endpoint.
proof fn lemma_encoded_root_injective(r1: Seq<char>, r2: Seq<char>)
    requires
        encoded_root(r1) == encoded_root(r2),
    ensures
        r1 == r2,
    decreases r1.len(),
{
    let e1 = encoded_root(r1);
    let e2 = encoded_root(r2);
    if r1.len() == 0 || r2.len() == 0 {
        if r1.len() == 0 && r2.len() > 0 {
            assert(encode_root_char(r2.last()).len() >= 1);
            assert(e2.len() >= 1);
            assert(false);
        }
        if r2.len() == 0 && r1.len() > 0 {
            assert(encode_root_char(r1.last()).len() >= 1);
            assert(e1.len() >= 1);
            assert(false);
        }
        assert(r1 =~= r2);
    } else {
        let a = r1.last();
        let b = r2.last();
        let base1 = encoded_root(r1.drop_last());
        let base2 = encoded_root(r2.drop_last());
        let ua = encode_root_char(a);
        let ub = encode_root_char(b);
        assert(e1 == base1 + ua);
        assert(e2 == base2 + ub);
        assert(e1.len() >= 1);
        assert((base1 + ua).last() == ua.last());
        assert((base2 + ub).last() == ub.last());
        assert(ua.last() == ub.last());
        let a_escape = a == '/' || a == '%';
        let b_escape = b == '/' || b == '%';
        if a_escape && !b_escape {
            // a one-character unit matching the tail of an escape would
            // leave the other base ending in an odd run of `%`
            assert(a == '/' && b == 's') by {
                if a == '%' {
                    assert(ua.last() == '%');
                }
            }
            assert(base1 + ua =~= base1.push('%') + seq![b]);
            lemma_seq_cancel_right(base1.push('%'), seq![b], base2, ub);
            lemma_encoded_trailing_even(r1.drop_last());
            lemma_encoded_trailing_even(r2.drop_last());
            assert(base1.push('%').drop_last() =~= base1);
            assert(trailing_pct(base2) == 1 + trailing_pct(base1));
            assert(false);
        } else if b_escape && !a_escape {
            assert(b == '/' && a == 's') by {
                if b == '%' {
                    assert(ub.last() == '%');
                }
            }
            assert(base2 + ub =~= base2.push('%') + seq![a]);
            lemma_seq_cancel_right(base2.push('%'), seq![a], base1, ua);
            lemma_encoded_trailing_even(r1.drop_last());
            lemma_encoded_trailing_even(r2.drop_last());
            assert(base2.push('%').drop_last() =~= base2);
            assert(trailing_pct(base1) == 1 + trailing_pct(base2));
            assert(false);
        } else {
            // units of equal length: they coincide, and so do the bases
            assert(ua.len() == ub.len());
            lemma_seq_cancel_right(base1, ua, base2, ub);
            assert(a == b) by {
                if a_escape {
                    assert(ua[1] == ub[1]);
                    if a == '/' && b == '%' {
                        assert(false);
                    }
                    if a == '%' && b == '/' {
                        assert(false);
                    }
                } else {
                    assert(ua[0] == a);
                    assert(ub[0] == b);
                }
            }
            lemma_encoded_root_injective(r1.drop_last(), r2.drop_last());
            assert(r1 =~= r1.drop_last().push(a));
            assert(r2 =~= r2.drop_last().push(b));
        }
    }
}

/// Endpoint uniqueness: the address is a function of the project root
/// alone, and two projects share an address only if they are the same
/// project.
pub proof fn lemma_socket_address_injective(r1: Seq<char>, r2: Seq<char>)
    requires
        spec_socket_address(r1) == spec_socket_address(r2),
    ensures
        r1 == r2,
{
    let p = "/private/tmp/xbase/"@;
    let s = ".socket"@;
    assert(p + spec_socket_name(r1) =~= (p + encoded_root(r1)) + s);
    assert(p + spec_socket_name(r2) =~= (p + encoded_root(r2)) + s);
    lemma_seq_cancel_right(p + encoded_root(r1), s, p + encoded_root(r2), s);
    assert(encoded_root(r1) =~= encoded_root(r2)) by {
        assert((p + encoded_root(r1)).len() == (p + encoded_root(r2)).len());
        assert forall|i: int| 0 <= i < encoded_root(r1).len() implies encoded_root(r1)[i]
            == encoded_root(r2)[i] by {
            assert((p + encoded_root(r1))[p.len() + i] == encoded_root(r1)[i]);
            assert((p + encoded_root(r2))[p.len() + i] == encoded_root(r2)[i]);
        }
    }
    lemma_encoded_root_injective(r1, r2);
}

/// Computes the endpoint address of a project root, exactly as
/// `spec_socket_address` says.
pub fn socket_address(root: &str) -> (r: String)
    ensures
        r@ == spec_socket_address(root@),
{
    let mut out = String::new();
    out.append("/private/tmp/xbase/");
    let n = root.unicode_len();
    let mut i: usize = 0;
    proof {
        assert(encoded_root(root@.take(0)) =~= Seq::<char>::empty());
        assert(out@ + encoded_root(root@.take(0)) =~= out@);
    }
    let ghost prefix = out@;
    while i < n
        invariant
            0 <= i <= n,
            n == root@.len(),
            out@ == prefix + encoded_root(root@.take(i as int)),
        decreases n - i,
    {
        let c = root.get_char(i);
        proof {
            assert(root@.take(i as int + 1).drop_last() =~= root@.take(i as int));
            assert(root@.take(i as int + 1).last() == root@[i as int]);
        }
        if c == '/' {
            out.push('%');
            out.push('s');
        } else if c == '%' {
            out.push('%');
            out.push('%');
        } else {
            out.push(c);
        }
        proof {
            assert(out@ =~= prefix + encoded_root(root@.take(i as int + 1)));
        }
        i += 1;
    }
    proof {
        assert(root@.take(n as int) =~= root@);
    }
    out.append(".socket");
    proof {
        assert(out@ =~= spec_socket_address(root@));
    }
    out
}

/// One attached client connection: its identity, and (as ghost state) the
/// point of the hub's history at which it attached and everything the hub
/// has addressed to it since.
#[derive(Clone, Copy)]
pub struct ClientConn {
    pub id: u64,
    pub attach: Ghost<nat>,
    pub delivered: Ghost<Seq<Message>>,
}

/// One socket write the caller owes: `line` is to be written to the client
/// with identity `client`.
#[derive(Debug, PartialEq)]
pub struct WireWrite {
    pub client: u64,
    pub line: String,
}

/// An event observed while consuming a supervised process.
#[derive(Debug)]
pub enum ProcessEvent {
    /// The process emitted one output line on the given stream.
    Line { stream: Stream, text: String },
    /// The process terminated on its own with the given status.
    Exited { success: bool },
    /// The hub's cancellation signal fired while the process was streaming.
    Cancelled,
}

/// What the consumption task must do next.
#[derive(Debug, PartialEq)]
pub enum ConsumeAction {
    /// Perform these writes, one per attached client.
    Deliver { writes: Vec<WireWrite> },
    /// Resolve the single-use outcome receiver with this status and stop.
    Outcome { success: bool },
    /// Signal the process to terminate, resolve the outcome receiver to
    /// failure, and stop.
    Abort,
}

/// Broadcast hub of one project: relays messages, in the order they were
/// produced, to every client attached at the time of publication.
pub struct Broadcast {
    /// Project root for which the hub was opened.
    pub root: String,
    /// Endpoint address, derived deterministically from the root.
    pub address: String,
    /// The currently attached clients.
    pub clients: Vec<ClientConn>,
    /// Every message published so far, in emission order.
    pub history: Ghost<Seq<Message>>,
    /// Whether the cancellation signal has fired.
    pub closed: bool,
    /// Source of fresh client identities.
    pub next_id: u64,
}

/// The log message one output line of a consumed process becomes.
pub open spec fn log_of(stream: Stream, text: String) -> Message {
    Message::Log {
        stream,
        level: if stream is Stdout {
            Level::Info
        } else {
            Level::Error
        },
        text,
    }
}

impl Broadcast {
    pub open spec fn client_ok(self, i: int) -> bool {
        &&& self.clients@[i].attach@ <= self.history@.len()
        &&& self.clients@[i].delivered@ == self.history@.skip(self.clients@[i].attach@ as int)
        &&& self.clients@[i].id < self.next_id
    }

    /// Hub invariant: every client's delivered sequence is exactly the
    /// suffix of the history from its attach point, identities are unique,
    /// and the address is the one its root determines.
    pub open spec fn wf(self) -> bool {
        &&& forall|i: int| 0 <= i < self.clients@.len() ==> self.client_ok(i)
        &&& forall|i: int, j: int|
            0 <= i < j < self.clients@.len() ==> self.clients@[i].id != self.clients@[j].id
        &&& self.address@ == spec_socket_address(self.root@)
    }

    /// Everything the hub has addressed to client `i` so far.
    pub open spec fn received(self, i: int) -> Seq<Message> {
        self.clients@[i].delivered@
    }

    /// The full relation between a hub before and after publishing `m`,
    /// and the writes the caller owes: the history grows by `m`, every
    /// attached client is addressed exactly one wire line carrying `m`,
    /// and nothing else changes.
    pub open spec fn published(
        pre: Broadcast,
        post: Broadcast,
        m: Message,
        writes: Seq<WireWrite>,
    ) -> bool {
        &&& post.root == pre.root
        &&& post.address == pre.address
        &&& post.closed == pre.closed
        &&& post.next_id == pre.next_id
        &&& post.history@ == pre.history@.push(m)
        &&& post.clients@.len() == pre.clients@.len()
        &&& forall|i: int|
            0 <= i < pre.clients@.len() ==> {
                &&& (#[trigger] post.clients@[i]).id == pre.clients@[i].id
                &&& post.clients@[i].attach == pre.clients@[i].attach
                &&& post.clients@[i].delivered@ == pre.clients@[i].delivered@.push(m)
            }
        &&& writes.len() == pre.clients@.len()
        &&& forall|i: int|
            0 <= i < writes.len() ==> {
                &&& (#[trigger] writes[i]).client == pre.clients@[i].id
                &&& writes[i].line@ == wire_line(m)
            }
    }

    /// Opens the hub of a project: no clients, no history, not cancelled,
    /// bound (by the caller) at the address the root determines. If a stale
    /// endpoint from a previous run exists there, the caller removes it
    /// before binding.
    pub fn new(root: String) -> (hub: Broadcast)
        ensures
            hub.wf(),
            hub.root == root,
            hub.address@ == spec_socket_address(root@),
            hub.history@ == Seq::<Message>::empty(),
            hub.clients@ == Seq::<ClientConn>::empty(),
            !hub.closed,
            hub.next_id == 0,
    {
        let address = socket_address(root.as_str());
        Broadcast {
            root,
            address,
            clients: Vec::new(),
            history: Ghost(Seq::empty()),
            closed: false,
            next_id: 0,
        }
    }

    /// Attaches a newly accepted client. It will receive exactly the
    /// messages published from this point on: nothing is replayed.
    pub fn attach_client(&mut self) -> (id: u64)
        requires
            old(self).wf(),
            !old(self).closed,
            old(self).next_id < u64::MAX,
        ensures
            final(self).wf(),
            final(self).root == old(self).root,
            final(self).address == old(self).address,
            final(self).closed == old(self).closed,
            final(self).history == old(self).history,
            final(self).next_id == old(self).next_id + 1,
            final(self).clients@.len() == old(self).clients@.len() + 1,
            forall|i: int|
                0 <= i < old(self).clients@.len() ==> final(self).clients@[i] == old(
                    self,
                ).clients@[i],
            final(self).clients@.last().id == id,
            final(self).clients@.last().attach@ == old(self).history@.len(),
            final(self).clients@.last().delivered@ == Seq::<Message>::empty(),
    {
        let id = self.next_id;
        self.next_id = self.next_id + 1;
        let client = ClientConn {
            id,
            attach: Ghost(self.history@.len()),
            delivered: Ghost(Seq::empty()),
        };
        self.clients.push(client);
        proof {
            assert(self.history@.skip(self.history@.len() as int) =~= Seq::<Message>::empty());
            assert forall|i: int| 0 <= i < self.clients@.len() implies self.client_ok(i) by {
                if i < self.clients@.len() - 1 {
                    assert(old(self).client_ok(i));
                }
            }
            assert forall|i: int, j: int|
                0 <= i < j < self.clients@.len() implies self.clients@[i].id
                != self.clients@[j].id by {
                if j < self.clients@.len() - 1 {
                    assert(old(self).clients@[i].id != old(self).clients@[j].id);
                } else {
                    assert(old(self).client_ok(i));
                }
            }
        }
        id
    }

    /// Publishes one message: appends it to the history and addresses one
    /// wire line to every currently attached client.
    pub fn publish(&mut self, m: Message) -> (writes: Vec<WireWrite>)
        requires
            old(self).wf(),
            !old(self).closed,
        ensures
            final(self).wf(),
            Self::published(*old(self), *final(self), m, writes@),
    {
        let line = encode_wire_line(&m);
        let mut new_clients: Vec<ClientConn> = Vec::new();
        let mut writes: Vec<WireWrite> = Vec::new();
        let n = self.clients.len();
        let mut i: usize = 0;
        while i < n
            invariant
                0 <= i <= n,
                n == self.clients@.len(),
                line@ == wire_line(m),
                new_clients@.len() == i,
                writes@.len() == i,
                forall|k: int|
                    0 <= k < i ==> {
                        &&& (#[trigger] new_clients@[k]).id == self.clients@[k].id
                        &&& new_clients@[k].attach == self.clients@[k].attach
                        &&& new_clients@[k].delivered@ == self.clients@[k].delivered@.push(m)
                    },
                forall|k: int|
                    0 <= k < i ==> {
                        &&& (#[trigger] writes@[k]).client == self.clients@[k].id
                        &&& writes@[k].line@ == wire_line(m)
                    },
            decreases n - i,
        {
            let c = self.clients[i];
            new_clients.push(
                ClientConn { id: c.id, attach: c.attach, delivered: Ghost(c.delivered@.push(m)) },
            );
            writes.push(WireWrite { client: c.id, line: line.clone() });
            i += 1;
        }
        let ghost pre = *self;
        self.clients = new_clients;
        proof {
            self.history@ = pre.history@.push(m);
        }
        proof {
            assert forall|k: int| 0 <= k < self.clients@.len() implies self.client_ok(k) by {
                assert(pre.client_ok(k));
                assert(self.history@.skip(pre.clients@[k].attach@ as int) =~= pre.clients@[
                    k
                ].delivered@.push(m));
            }
        }
        writes
    }

    /// Builds and publishes an informational notification.
    pub fn notify_info(&mut self, text: String) -> (writes: Vec<WireWrite>)
        requires
            old(self).wf(),
            !old(self).closed,
        ensures
            final(self).wf(),
            Self::published(
                *old(self),
                *final(self),
                Message::Notify { level: Level::Info, text },
                writes@,
            ),
    {
        let m = Message::notify_info(text);
        self.publish(m)
    }

    /// Builds and publishes an error notification.
    pub fn notify_error(&mut self, text: String) -> (writes: Vec<WireWrite>)
        requires
            old(self).wf(),
            !old(self).closed,
        ensures
            final(self).wf(),
            Self::published(
                *old(self),
                *final(self),
                Message::Notify { level: Level::Error, text },
                writes@,
            ),
    {
        let m = Message::notify_error(text);
        self.publish(m)
    }

    /// Builds and publishes an informational log line.
    pub fn log_info(&mut self, text: String) -> (writes: Vec<WireWrite>)
        requires
            old(self).wf(),
            !old(self).closed,
        ensures
            final(self).wf(),
            Self::published(
                *old(self),
                *final(self),
                Message::Log { stream: Stream::Stdout, level: Level::Info, text },
                writes@,
            ),
    {
        let m = Message::log_info(text);
        self.publish(m)
    }

    /// Builds and publishes an error log line.
    pub fn log_error(&mut self, text: String) -> (writes: Vec<WireWrite>)
        requires
            old(self).wf(),
            !old(self).closed,
        ensures
            final(self).wf(),
            Self::published(
                *old(self),
                *final(self),
                Message::Log { stream: Stream::Stderr, level: Level::Error, text },
                writes@,
            ),
    {
        let m = Message::log_error(text);
        self.publish(m)
    }

    /// Feeds one observed event of a consumed process through the hub: an
    /// output line is wrapped into a log message and relayed to every
    /// attached client; termination resolves the single-use outcome
    /// receiver with the process's own status; cancellation terminates the
    /// process and resolves the outcome to failure.
    pub fn consume(&mut self, ev: ProcessEvent) -> (act: ConsumeAction)
        requires
            old(self).wf(),
            !old(self).closed,
        ensures
            final(self).wf(),
            (ev matches ProcessEvent::Line { stream, text } ==> act matches
                ConsumeAction::Deliver { writes } && Self::published(
                *old(self),
                *final(self),
                log_of(stream, text),
                writes@,
            )),
            (ev matches ProcessEvent::Exited { success } ==> act == (ConsumeAction::Outcome {
                success,
            }) && *final(self) == *old(self)),
            (ev is Cancelled ==> act == ConsumeAction::Abort && *final(self) == *old(self)),
    {
        match ev {
            ProcessEvent::Line { stream, text } => {
                let level = match stream {
                    Stream::Stdout => Level::Info,
                    Stream::Stderr => Level::Error,
                };
                let writes = self.publish(Message::Log { stream, level, text });
                ConsumeAction::Deliver { writes }
            },
            ProcessEvent::Exited { success } => ConsumeAction::Outcome { success },
            ProcessEvent::Cancelled => ConsumeAction::Abort,
        }
    }

    /// Signals cancellation. The first close hands back the endpoint
    /// address so the accept loop can remove it from the filesystem — it
    /// is exactly the address `new` derived from the root, so a later
    /// `new` on the same root finds the same address free. Idempotent:
    /// closing again yields nothing to remove.
    pub fn close(&mut self) -> (endpoint: Option<String>)
        requires
            old(self).wf(),
        ensures
            final(self).wf(),
            final(self).closed,
            final(self).root == old(self).root,
            final(self).address == old(self).address,
            final(self).history == old(self).history,
            final(self).clients == old(self).clients,
            final(self).next_id == old(self).next_id,
            old(self).closed ==> endpoint is None,
            !old(self).closed ==> (endpoint matches Some(a) && a@ == spec_socket_address(
                old(self).root@,
            )),
    {
        let r = if self.closed {
            None
        } else {
            self.closed = true;
            Some(self.address.clone())
        };
        proof {
            assert forall|i: int| 0 <= i < self.clients@.len() implies self.client_ok(i) by {
                assert(old(self).client_ok(i));
            }
        }
        r
    }
}

/// Order preservation, per producer: a client's delivered sequence is the
/// contiguous suffix of the hub's emission history from its attach point.
/// Hence any two attached clients receive every message published while
/// both were attached, at positions that preserve the emission order.
pub proof fn lemma_order_preservation(h: Broadcast, a: int, b: int)
    requires
        h.wf(),
        0 <= a < h.clients@.len(),
        0 <= b < h.clients@.len(),
    ensures
        forall|k: int|
            h.clients@[a].attach@ <= k < h.history@.len() && h.clients@[b].attach@ <= k ==> {
                &&& h.received(a)[k - h.clients@[a].attach@] == h.history@[k]
                &&& h.received(b)[k - h.clients@[b].attach@] == h.history@[k]
            },
{
    assert(h.client_ok(a));
    assert(h.client_ok(b));
}

/// No replay: everything delivered to a client is a message published at
/// or after the moment it attached, in order; a message published before
/// the client attached is never among them.
pub proof fn lemma_no_replay(h: Broadcast, i: int)
    requires
        h.wf(),
        0 <= i < h.clients@.len(),
    ensures
        h.received(i).len() == h.history@.len() - h.clients@[i].attach@,
        forall|k: int|
            0 <= k < h.received(i).len() ==> h.received(i)[k] == h.history@[h.clients@[i].attach@
                + k],
{
    assert(h.client_ok(i));
}

} // verus!
