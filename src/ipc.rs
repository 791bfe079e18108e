use vstd::prelude::*;
use crate::string::String;

verus! {

/// Number of messages a mailbox holds at once.
pub const MAILBOX_CAPACITY: usize = 10;

/// Number of payload bytes a message carries.
pub const PAYLOAD_SIZE: usize = 32;

/// The kind of a message.
#[derive(Debug, Clone, Copy, PartialEq, Eq, Structural)]
pub enum MessageType {
    Command,
    Response,
    Notification,
}

/// A message as it sits in a mailbox.
#[derive(Debug, Clone, Copy)]
pub struct Message {
    pub sender_pid: usize,
    pub receiver_pid: usize,
    pub message_type: MessageType,
    pub data: [u8; 32],
}

/// The payload stored for source bytes `d`: the first `PAYLOAD_SIZE` of them,
/// padded with zeros.
pub open spec fn payload(d: Seq<u8>) -> Seq<u8> {
    Seq::new(PAYLOAD_SIZE as nat, |i: int| if i < d.len() { d[i] } else { 0u8 })
}

/// `m` is the message that `from` sends to `to` with kind `kind` and source
/// bytes `d`.
pub open spec fn carries(m: Message, from: usize, to: usize, kind: MessageType, d: Seq<u8>) -> bool {
    &&& m.sender_pid == from
    &&& m.receiver_pid == to
    &&& m.message_type == kind
    &&& m.data@ == payload(d)
}

/// The message that `from` sends to `to` with kind `kind` and source bytes `d`.
pub open spec fn message_of(from: usize, to: usize, kind: MessageType, d: Seq<u8>) -> Message {
    choose|m: Message| carries(m, from, to, kind, d)
}

/// Mailbox contents and outcome after offering `m` to mailbox `q`: appended
/// while there is room, refused with nothing changed when full.
pub open spec fn mailbox_send(q: Seq<Message>, m: Message) -> (Seq<Message>, bool) {
    if q.len() < MAILBOX_CAPACITY {
        (q.push(m), true)
    } else {
        (q, false)
    }
}

/// Mailbox contents and outcome after taking from mailbox `q`: the oldest
/// message, or nothing when it is empty.
pub open spec fn mailbox_receive(q: Seq<Message>) -> (Seq<Message>, Option<Message>) {
    if q.len() == 0 {
        (q, None)
    } else {
        (q.drop_first(), Some(q[0]))
    }
}

/// Hands out process ids from a counter that only grows.
pub struct PidAllocator {
    next: usize,
}

impl PidAllocator {
    /// The id that the next process will get.
    pub closed spec fn next_id(&self) -> nat {
        self.next as nat
    }

    /// An allocator whose first id is 1.
    pub fn new() -> (r: PidAllocator)
        ensures
            r.next_id() == 1,
    {
        PidAllocator { next: 1 }
    }

    /// The id that the next process will get.
    pub fn peek(&self) -> (r: usize)
        ensures
            r == self.next_id(),
    {
        self.next
    }
}

/// A process record: an id, a name and a bounded mailbox kept as an array
/// whose first `mailbox_index` slots hold the pending messages, oldest first.
pub struct Process {
    pid: usize,
    name: &'static str,
    mailbox: [Option<Message>; 10],
    mailbox_index: usize,
}

impl Process {
    pub closed spec fn wf(&self) -> bool {
        &&& self.mailbox_index <= MAILBOX_CAPACITY
        &&& forall|i: int| 0 <= i < self.mailbox_index ==> (#[trigger] self.mailbox@[i]).is_some()
        &&& forall|i: int|
            self.mailbox_index <= i < MAILBOX_CAPACITY ==> (#[trigger] self.mailbox@[i]).is_none()
    }

    /// The process id.
    pub closed spec fn id(&self) -> usize {
        self.pid
    }

    /// The process name.
    pub closed spec fn spec_name(&self) -> &'static str {
        self.name
    }

    /// The pending messages, oldest first.
    pub closed spec fn inbox(&self) -> Seq<Message> {
        Seq::new(self.mailbox_index as nat, |i: int| self.mailbox@[i]->Some_0)
    }

    /// A process named `name` with an empty mailbox and the next id of `ids`.
    pub fn new(ids: &mut PidAllocator, name: &'static str) -> (r: Process)
        requires
            old(ids).next_id() < usize::MAX,
        ensures
            r.wf(),
            r.id() == old(ids).next_id(),
            final(ids).next_id() == old(ids).next_id() + 1,
            r.spec_name() == name,
            r.inbox() == Seq::<Message>::empty(),
    {
        let pid = ids.next;
        ids.next = ids.next + 1;
        let r = Process { pid, name, mailbox: [None; 10], mailbox_index: 0 };
        assert(r.inbox() =~= Seq::<Message>::empty());
        r
    }

    pub fn get_pid(&self) -> (r: usize)
        ensures
            r == self.id(),
    {
        self.pid
    }

    pub fn get_name(&self) -> (r: &'static str)
        ensures
            r == self.spec_name(),
    {
        self.name
    }

    /// Sends a message of kind `msg_type` with payload `data` (truncated or
    /// zero-padded to `PAYLOAD_SIZE` bytes) to `receiver`'s mailbox. Returns
    /// false, changing nothing, when that mailbox is full.
    pub fn send_message(&self, receiver: &mut Process, msg_type: MessageType, data: &[u8]) -> (r:
        bool)
        requires
            old(receiver).wf(),
        ensures
            final(receiver).wf(),
            final(receiver).id() == old(receiver).id(),
            final(receiver).spec_name() == old(receiver).spec_name(),
            (final(receiver).inbox(), r) == mailbox_send(
                old(receiver).inbox(),
                message_of(self.id(), old(receiver).id(), msg_type, data@),
            ),
            r ==> carries(final(receiver).inbox().last(), self.id(), old(receiver).id(), msg_type, data@),
    {
        if receiver.mailbox_index >= receiver.mailbox.len() {
            return false;
        }
        let mut message_data = [0u8; 32];
        let copy_len = if data.len() < PAYLOAD_SIZE {
            data.len()
        } else {
            PAYLOAD_SIZE
        };
        let mut i: usize = 0;
        while i < copy_len
            invariant
                i <= copy_len,
                copy_len <= PAYLOAD_SIZE,
                copy_len <= data@.len(),
                copy_len == data@.len() || copy_len == PAYLOAD_SIZE,
                message_data@.len() == PAYLOAD_SIZE,
                forall|j: int|
                    0 <= j < PAYLOAD_SIZE ==> #[trigger] message_data@[j] == if j < i {
                        data@[j]
                    } else {
                        0u8
                    },
            decreases copy_len - i,
        {
            message_data[i] = data[i];
            i = i + 1;
        }
        let message = Message {
            sender_pid: self.pid,
            receiver_pid: receiver.pid,
            message_type: msg_type,
            data: message_data,
        };
        assert(message.data@ =~= payload(data@));
        proof {
            lemma_message_of(message, self.pid, receiver.pid, msg_type, data@);
        }
        let ghost q = old(receiver).inbox();
        let idx = receiver.mailbox_index;
        receiver.mailbox[idx] = Some(message);
        receiver.mailbox_index = idx + 1;
        assert(receiver.inbox() =~= q.push(message));
        true
    }

    /// Takes the oldest pending message out of the mailbox, moving the others
    /// one slot forward; `None` when the mailbox is empty.
    pub fn receive_message(&mut self) -> (r: Option<Message>)
        requires
            old(self).wf(),
        ensures
            final(self).wf(),
            final(self).id() == old(self).id(),
            final(self).spec_name() == old(self).spec_name(),
            (final(self).inbox(), r) == mailbox_receive(old(self).inbox()),
    {
        if self.mailbox_index == 0 {
            return None;
        }
        let message = self.mailbox[0];
        let n = self.mailbox_index;
        let mut i: usize = 1;
        while i < n
            invariant
                1 <= i <= n,
                n == old(self).mailbox_index,
                n <= MAILBOX_CAPACITY,
                self.mailbox_index == n,
                self.pid == old(self).pid,
                self.name == old(self).name,
                forall|j: int|
                    0 <= j < MAILBOX_CAPACITY ==> #[trigger] self.mailbox@[j] == if j < i - 1 {
                        old(self).mailbox@[j + 1]
                    } else {
                        old(self).mailbox@[j]
                    },
            decreases n - i,
        {
            let next = self.mailbox[i];
            self.mailbox[i - 1] = next;
            i = i + 1;
        }
        self.mailbox[n - 1] = None;
        self.mailbox_index = n - 1;
        assert(self.inbox() =~= old(self).inbox().drop_first());
        message
    }
}

/// `message_of` picks exactly the message that carries its arguments.
proof fn lemma_message_of(m: Message, from: usize, to: usize, kind: MessageType, d: Seq<u8>)
    requires
        carries(m, from, to, kind, d),
    ensures
        message_of(from, to, kind, d) == m,
{
    let c = message_of(from, to, kind, d);
    assert(carries(c, from, to, kind, d));
    assert(c.data@ =~= m.data@);
    assert(c.data == m.data);
}


/// The text of payload bytes `d`: the bytes before the first zero, keeping
/// only printable ASCII.
pub open spec fn text_bytes(d: Seq<u8>) -> Seq<u8>
    decreases d.len(),
{
    if d.len() == 0 || d[0] == 0 {
        Seq::empty()
    } else if 32 <= d[0] && d[0] <= 126 {
        seq![d[0]] + text_bytes(d.drop_first())
    } else {
        text_bytes(d.drop_first())
    }
}

impl Message {
    /// The payload as text: the bytes before the first zero byte, keeping
    /// only printable ASCII.
    pub fn payload_text(&self) -> (r: String)
        ensures
            r.wf(),
            r@ == text_bytes(self.data@),
    {
        let ghost d = self.data@;
        let mut r = String::new();
        let mut i: usize = 0;
        assert(d.skip(0) =~= d);
        assert(r@ + text_bytes(d) =~= text_bytes(d));
        while i < PAYLOAD_SIZE
            invariant
                i <= PAYLOAD_SIZE,
                d == self.data@,
                d.len() == PAYLOAD_SIZE,
                r.wf(),
                r@.len() <= i,
                r@ + text_bytes(d.skip(i as int)) == text_bytes(d),
            decreases PAYLOAD_SIZE - i,
        {
            let byte = self.data[i];
            assert(d.skip(i as int).drop_first() =~= d.skip(i + 1));
            if byte == 0 {
                assert(r@ + Seq::<u8>::empty() =~= r@);
                return r;
            }
            if 32 <= byte && byte <= 126 {
                let ghost before = r@;
                r.push(byte as char);
                proof {
                    vstd::utf8::is_ascii_chars_encode_utf8(seq![byte as char]);
                    assert(vstd::utf8::encode_utf8(seq![byte as char]) =~= seq![byte]);
                    assert(before + seq![byte] + text_bytes(d.skip(i + 1)) =~= before + (
                    seq![byte] + text_bytes(d.skip(i + 1))));
                }
            }
            i = i + 1;
        }
        assert(d.skip(PAYLOAD_SIZE as int) =~= Seq::<u8>::empty());
        assert(r@ + Seq::<u8>::empty() =~= r@);
        r
    }
}

/// Mailbox contents and outcomes after offering the messages of `ms` in turn.
pub open spec fn send_all(q: Seq<Message>, ms: Seq<Message>) -> (Seq<Message>, Seq<bool>)
    decreases ms.len(),
{
    if ms.len() == 0 {
        (q, Seq::empty())
    } else {
        let (q1, oks) = send_all(q, ms.drop_last());
        let (q2, ok) = mailbox_send(q1, ms.last());
        (q2, oks.push(ok))
    }
}

/// Mailbox contents and outcomes after `n` receives in a row.
pub open spec fn receive_n(q: Seq<Message>, n: nat) -> (Seq<Message>, Seq<Option<Message>>)
    decreases n,
{
    if n == 0 {
        (q, Seq::empty())
    } else {
        let (q1, got) = receive_n(q, (n - 1) as nat);
        let (q2, r) = mailbox_receive(q1);
        (q2, got.push(r))
    }
}

/// While there is room, every send succeeds and the mailbox holds what was sent.
proof fn lemma_send_all_fits(q: Seq<Message>, ms: Seq<Message>)
    requires
        q.len() + ms.len() <= MAILBOX_CAPACITY,
    ensures
        send_all(q, ms) == (q + ms, Seq::new(ms.len(), |i: int| true)),
    decreases ms.len(),
{
    if ms.len() > 0 {
        lemma_send_all_fits(q, ms.drop_last());
        assert(q + ms.drop_last() + seq![ms.last()] =~= q + ms);
        assert(Seq::new(ms.drop_last().len(), |i: int| true).push(true) =~= Seq::new(
            ms.len(),
            |i: int| true,
        ));
    } else {
        assert(q + ms =~= q);
        assert(Seq::new(ms.len(), |i: int| true) =~= Seq::<bool>::empty());
    }
}

/// `n` receives from a mailbox holding at least `n` messages hand out its
/// first `n` messages in order and leave the rest.
proof fn lemma_receive_n(q: Seq<Message>, n: nat)
    requires
        n <= q.len(),
    ensures
        receive_n(q, n) == (q.skip(n as int), Seq::new(n, |i: int| Some(q[i]))),
    decreases n,
{
    if n > 0 {
        lemma_receive_n(q, (n - 1) as nat);
        assert(q.skip(n - 1).drop_first() =~= q.skip(n as int));
        assert(Seq::new((n - 1) as nat, |i: int| Some(q[i])).push(Some(q[n - 1])) =~= Seq::new(
            n,
            |i: int| Some(q[i]),
        ));
    } else {
        assert(q.skip(0) =~= q);
        assert(Seq::new(0, |i: int| Some(q[i])) =~= Seq::<Option<Message>>::empty());
    }
}

/// First-in first-out: after up to `MAILBOX_CAPACITY` sends to an empty
/// mailbox, as many receives return the sent messages in the order sent.
pub proof fn lemma_fifo_order(ms: Seq<Message>)
    requires
        ms.len() <= MAILBOX_CAPACITY,
    ensures
        forall|i: int| 0 <= i < ms.len() ==> #[trigger] send_all(Seq::empty(), ms).1[i],
        receive_n(send_all(Seq::empty(), ms).0, ms.len()).1 == Seq::new(
            ms.len(),
            |i: int| Some(ms[i]),
        ),
{
    lemma_send_all_fits(Seq::empty(), ms);
    assert(Seq::<Message>::empty() + ms =~= ms);
    lemma_receive_n(ms, ms.len());
}

/// Bounded capacity: of `MAILBOX_CAPACITY + 1` sends to an empty mailbox the
/// first `MAILBOX_CAPACITY` succeed and the last fails and changes nothing.
pub proof fn lemma_bounded_capacity(ms: Seq<Message>)
    requires
        ms.len() == MAILBOX_CAPACITY + 1,
    ensures
        forall|i: int| 0 <= i < MAILBOX_CAPACITY ==> #[trigger] send_all(Seq::empty(), ms).1[i],
        !send_all(Seq::empty(), ms).1[MAILBOX_CAPACITY as int],
        send_all(Seq::empty(), ms).0 == send_all(Seq::empty(), ms.drop_last()).0,
        send_all(Seq::empty(), ms).0.len() == MAILBOX_CAPACITY,
{
    lemma_send_all_fits(Seq::empty(), ms.drop_last());
    assert(Seq::<Message>::empty() + ms.drop_last() =~= ms.drop_last());
}

/// Draining: after filling an empty mailbox and receiving as many times, the
/// mailbox is empty and a further receive returns nothing.
pub proof fn lemma_drain(ms: Seq<Message>)
    requires
        ms.len() <= MAILBOX_CAPACITY,
    ensures
        receive_n(send_all(Seq::empty(), ms).0, ms.len()).0.len() == 0,
        mailbox_receive(receive_n(send_all(Seq::empty(), ms).0, ms.len()).0).1 is None,
{
    lemma_send_all_fits(Seq::empty(), ms);
    assert(Seq::<Message>::empty() + ms =~= ms);
    lemma_receive_n(ms, ms.len());
}

/// Truncation: a payload keeps the first `PAYLOAD_SIZE` source bytes, and the
/// bytes past the end of a shorter source are zero.
pub proof fn lemma_payload_truncation(d: Seq<u8>)
    ensures
        payload(d).len() == PAYLOAD_SIZE,
        d.len() >= PAYLOAD_SIZE ==> payload(d) == d.take(PAYLOAD_SIZE as int),
        forall|i: int| 0 <= i < PAYLOAD_SIZE && i < d.len() ==> #[trigger] payload(d)[i] == d[i],
        forall|i: int| d.len() <= i < PAYLOAD_SIZE ==> #[trigger] payload(d)[i] == 0,
{
    if d.len() >= PAYLOAD_SIZE {
        assert(payload(d) =~= d.take(PAYLOAD_SIZE as int));
    }
}

/// Id uniqueness: processes created one after another from one allocator,
/// where process `i` got the allocator's id `counts[i]` and moved it to
/// `counts[i + 1]`, have strictly increasing, hence distinct, ids.
pub proof fn lemma_ids_increase(counts: Seq<nat>, pids: Seq<usize>)
    requires
        counts.len() == pids.len() + 1,
        forall|i: int| 0 <= i < pids.len() ==> #[trigger] pids[i] == counts[i],
        forall|i: int| 0 <= i < pids.len() ==> #[trigger] counts[i + 1] == counts[i] + 1,
    ensures
        forall|i: int, j: int| 0 <= i < j < pids.len() ==> pids[i] < pids[j],
{
    assert forall|i: int, j: int| 0 <= i < j < pids.len() implies pids[i] < pids[j] by {
        lemma_counts_grow(counts, pids, i, j);
    }
}

proof fn lemma_counts_grow(counts: Seq<nat>, pids: Seq<usize>, i: int, j: int)
    requires
        counts.len() == pids.len() + 1,
        forall|k: int| 0 <= k < pids.len() ==> #[trigger] counts[k + 1] == counts[k] + 1,
        0 <= i <= j <= pids.len(),
    ensures
        counts[j] == counts[i] + (j - i),
    decreases j - i,
{
    if i < j {
        lemma_counts_grow(counts, pids, i, j - 1);
        assert(counts[(j - 1) + 1] == counts[j - 1] + 1);
    }
}

} // verus!
