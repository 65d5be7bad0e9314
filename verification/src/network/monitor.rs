//! MONITOR: every processed command is streamed to the subscribed clients.
//!
//! A client that issues `MONITOR` gets the receiving end of an unbounded
//! channel; the registry keeps the sending ends. Sending never blocks, so
//! monitored connections never slow down normal command execution.

use vstd::prelude::*;
use tokio::sync::mpsc::{UnboundedReceiver, UnboundedSender};

verus! {

/// tokio's `UnboundedSender`, made known to Verus as an opaque type.
#[verifier::external_type_specification]
#[verifier::external_body]
#[verifier::reject_recursive_types(T)]
pub struct ExUnboundedSender<T>(UnboundedSender<T>);

/// tokio's `UnboundedReceiver`, made known to Verus as an opaque type.
#[verifier::external_type_specification]
#[verifier::external_body]
#[verifier::reject_recursive_types(T)]
pub struct ExUnboundedReceiver<T>(UnboundedReceiver<T>);

/// One command snapshot broadcast to all MONITOR clients.
pub struct MonitorMessage {
    /// Absolute millisecond timestamp.
    pub timestamp_ms: i64,
    /// Address (`ip:port`) of the client that issued the command.
    pub peer: String,
    /// The command and its arguments (e.g. `["SET", "key", "value"]`).
    pub args: Vec<Vec<u8>>,
}

impl View for MonitorMessage {
    type V = (i64, Seq<char>, Seq<Seq<u8>>);

    /// The timestamp, the peer's address text, and the arguments' bytes.
    open spec fn view(&self) -> (i64, Seq<char>, Seq<Seq<u8>>) {
        (self.timestamp_ms, self.peer@, Seq::new(self.args@.len(), |i: int| self.args@[i]@))
    }
}

/// A byte-for-byte copy of `bytes`.
fn copy_bytes(bytes: &Vec<u8>) -> (copy: Vec<u8>)
    ensures
        copy@ == bytes@,
{
    let mut copy: Vec<u8> = Vec::new();
    let mut i: usize = 0;
    while i < bytes.len()
        invariant
            i <= bytes@.len(),
            copy@ == bytes@.subrange(0, i as int),
        decreases bytes@.len() - i,
    {
        copy.push(bytes[i]);
        i = i + 1;
        assert(copy@ =~= bytes@.subrange(0, i as int));
    }
    assert(bytes@.subrange(0, i as int) =~= bytes@);
    copy
}

impl Clone for MonitorMessage {
    /// A copy with the same timestamp, peer and arguments.
    fn clone(&self) -> (copy: Self)
        ensures
            copy@ == self@,
    {
        let mut args: Vec<Vec<u8>> = Vec::new();
        let mut i: usize = 0;
        while i < self.args.len()
            invariant
                i <= self.args@.len(),
                args@.len() == i,
                forall|j: int| 0 <= j < i ==> #[trigger] args@[j]@ == self.args@[j]@,
            decreases self.args@.len() - i,
        {
            args.push(copy_bytes(&self.args[i]));
            i = i + 1;
        }
        let copy = MonitorMessage {
            timestamp_ms: self.timestamp_ms,
            peer: self.peer.clone(),
            args,
        };
        assert(copy@.2 =~= self@.2);
        copy
    }
}

/// `s` with the elements at the positions where `keep` is false left out;
/// the others keep their order.
pub open spec fn keep_where<T>(s: Seq<T>, keep: Seq<bool>) -> Seq<T>
    decreases s.len(),
{
    if s.len() == 0 {
        Seq::empty()
    } else {
        let rest = keep_where(s.drop_last(), keep.drop_last());
        if keep.last() {
            rest.push(s.last())
        } else {
            rest
        }
    }
}

/// Sending never adds clients: what survives a send is at most what was
/// there, and when every channel takes the message, nothing is dropped.
pub proof fn lemma_send_never_adds_clients<T>(s: Seq<T>, keep: Seq<bool>)
    requires
        keep.len() == s.len(),
    ensures
        keep_where(s, keep).len() <= s.len(),
        (forall|i: int| 0 <= i < keep.len() ==> #[trigger] keep[i]) ==> keep_where(s, keep) == s,
    decreases s.len(),
{
    if s.len() > 0 {
        lemma_send_never_adds_clients(s.drop_last(), keep.drop_last());
        if forall|i: int| 0 <= i < keep.len() ==> #[trigger] keep[i] {
            assert(forall|i: int|
                0 <= i < keep.drop_last().len() ==> #[trigger] keep.drop_last()[i] == keep[i]);
            assert(keep.last() == keep[keep.len() - 1]);
            assert(s.drop_last().push(s.last()) =~= s);
        }
    }
}

/// The abstract value of a [`MonitorMessage`]: timestamp, peer text and the
/// arguments' bytes.
pub type MessageView = (i64, Seq<char>, Seq<Seq<u8>>);

/// Registry of the active MONITOR clients.
pub struct MonitorRegistry {
    senders: Vec<UnboundedSender<MonitorMessage>>,
    /// Every message handed to a channel, with that channel's sending half,
    /// in the order it was handed.
    handed: Ghost<Seq<(UnboundedSender<MonitorMessage>, MessageView)>>,
}

/// `tokio::sync::mpsc::unbounded_channel`: a new channel, as its sending and
/// receiving halves. Nothing is claimed of the halves beyond their types.
#[verifier::external_body]
fn open_channel() -> (UnboundedSender<MonitorMessage>, UnboundedReceiver<MonitorMessage>) {
    tokio::sync::mpsc::unbounded_channel()
}

/// `UnboundedSender::send`: queues `msg` on the channel without blocking.
/// Returns whether it was queued; tokio refuses it once the receiving half
/// is closed or dropped, which depends on the other side, so nothing is
/// claimed of the result.
#[verifier::external_body]
fn deliver(tx: &UnboundedSender<MonitorMessage>, msg: MonitorMessage) -> (queued: bool) {
    tx.send(msg).is_ok()
}

impl View for MonitorRegistry {
    type V = Seq<UnboundedSender<MonitorMessage>>;

    /// The sending halves of the subscribed clients, oldest first.
    closed spec fn view(&self) -> Seq<UnboundedSender<MonitorMessage>> {
        self.senders@
    }
}

impl MonitorRegistry {
    /// Every message this registry has handed to a subscriber's channel, with
    /// that channel's sending half, in the order it was handed.
    pub closed spec fn handed(&self) -> Seq<(UnboundedSender<MonitorMessage>, MessageView)> {
        self.handed@
    }
}

impl Default for MonitorRegistry {
    /// An empty registry that has handed nothing yet.
    fn default() -> (r: MonitorRegistry)
        ensures
            r@ == Seq::<UnboundedSender<MonitorMessage>>::empty(),
            r.handed() == Seq::<(UnboundedSender<MonitorMessage>, MessageView)>::empty(),
    {
        MonitorRegistry { senders: Vec::new(), handed: Ghost(Seq::empty()) }
    }
}

impl MonitorRegistry {
    /// The number of registered MONITOR clients.
    pub fn subscriber_count(&self) -> (n: usize)
        ensures
            n == self@.len(),
    {
        self.senders.len()
    }

    /// Registers a new MONITOR client and returns its receiving half. The
    /// new sending half goes after every one already registered.
    ///
    /// The contract states only that the registry grows by one sender at
    /// the end. That this sender and the returned receiver are the two halves
    /// of one tokio channel (so later sends reach the receiver) is what the
    /// code does but is not proved: channel halves are opaque tokio values,
    /// and their pairing cannot be named in a contract.
    pub fn subscribe(&mut self) -> (rx: UnboundedReceiver<MonitorMessage>)
        ensures
            final(self)@.len() == old(self)@.len() + 1,
            final(self)@.take(old(self)@.len() as int) == old(self)@,
            final(self).handed() == old(self).handed(),
    {
        let (tx, rx) = open_channel();
        self.senders.push(tx);
        assert(self.senders@.take(old(self)@.len() as int) =~= old(self)@);
        rx
    }

    /// Sends a copy of `msg` to every registered client. Clients whose
    /// channel refused it (they disconnected) are dropped from the registry;
    /// the others stay, in their order.
    ///
    /// Each registered channel, in order, is handed exactly one copy equal to
    /// `msg` (timestamp, peer and arguments): this is recorded in
    /// [`MonitorRegistry::handed`]. The registry is then rebuilt by
    /// [`keep_accepted`], which is proved to keep exactly the senders whose
    /// channel took the copy. Whether a channel takes it, and what its
    /// receiver later reads, are not stated: the channel is an opaque tokio
    /// value whose state its receiving side changes.
    pub fn send(&mut self, msg: MonitorMessage)
        ensures
            exists|accepted: Seq<bool>|
                accepted.len() == old(self)@.len() && final(self)@ == keep_where(
                    old(self)@,
                    accepted,
                ),
            final(self).handed() == old(self).handed() + Seq::new(
                old(self)@.len(),
                |i: int| (old(self)@[i], msg@),
            ),
    {
        let mut pending: Vec<UnboundedSender<MonitorMessage>> = Vec::new();
        core::mem::swap(&mut pending, &mut self.senders);
        let mut accepted: Vec<bool> = Vec::new();
        let mut i: usize = 0;
        while i < pending.len()
            invariant
                pending@ == old(self)@,
                i <= pending@.len(),
                accepted@.len() == i,
                self.handed@ == old(self).handed() + Seq::new(
                    i as nat,
                    |j: int| (pending@[j], msg@),
                ),
            decreases pending@.len() - i,
        {
            let copy = msg.clone();
            let ghost before = self.handed@;
            self.handed = Ghost(self.handed@.push((pending@[i as int], copy@)));
            let queued = deliver(&pending[i], copy);
            accepted.push(queued);
            i = i + 1;
            assert(self.handed@ =~= old(self).handed() + Seq::new(
                i as nat,
                |j: int| (pending@[j], msg@),
            ));
        }
        self.senders = keep_accepted(pending, &accepted);
    }
}

/// Appends `tx` to `kept` when its channel accepted the message.
fn keep_if_accepted(
    kept: &mut Vec<UnboundedSender<MonitorMessage>>,
    tx: UnboundedSender<MonitorMessage>,
    accepted: bool,
)
    ensures
        final(kept)@ == if accepted {
            old(kept)@.push(tx)
        } else {
            old(kept)@
        },
{
    if accepted {
        kept.push(tx);
    }
}

/// The senders whose channel accepted a message, in their order:
/// `senders[i]` is kept exactly when `accepted[i]` holds.
pub fn keep_accepted(senders: Vec<UnboundedSender<MonitorMessage>>, accepted: &Vec<bool>) -> (kept:
    Vec<UnboundedSender<MonitorMessage>>)
    requires
        accepted@.len() == senders@.len(),
    ensures
        kept@ == keep_where(senders@, accepted@),
{
    let ghost all = senders@;
    let mut kept: Vec<UnboundedSender<MonitorMessage>> = Vec::new();
    let n = accepted.len();
    let mut i: usize = 0;
    assert(all.take(0) =~= Seq::<UnboundedSender<MonitorMessage>>::empty());
    assert(accepted@.take(0) =~= Seq::<bool>::empty());
    for tx in it: senders
        invariant
            it.seq() == all,
            accepted@.len() == all.len(),
            n == accepted@.len(),
            i == it.index(),
            kept@ == keep_where(all.take(i as int), accepted@.take(i as int)),
    {
        let ghost before = all.take(i as int);
        let ghost before_keep = accepted@.take(i as int);
        assert(tx == all[i as int]);
        keep_if_accepted(&mut kept, tx, accepted[i]);
        proof {
            let after = all.take(i + 1);
            let after_keep = accepted@.take(i + 1);
            assert(after.drop_last() =~= before);
            assert(after_keep.drop_last() =~= before_keep);
            assert(after.last() == all[i as int]);
            assert(after_keep.last() == accepted@[i as int]);
        }
        i = i + 1;
    }
    assert(all.take(all.len() as int) =~= all);
    assert(accepted@.take(all.len() as int) =~= accepted@);
    kept
}

} // verus!
