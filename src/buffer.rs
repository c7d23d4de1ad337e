//! The two halves of a client connection: an outgoing queue of framed messages
//! with their file descriptors, and an incoming buffer that frames requests.

use crate::objects::AnyObject;
use crate::wire::{
    lemma_words_bytes_append, lemma_words_bytes_push, ne_bytes, word_from_bytes, word_to_bytes, words_bytes, Id, WireError,
};
use vstd::prelude::*;

verus! {

/// Capacity of each byte buffer.
pub const CAP_BYTES: usize = 4096;

/// Capacity of each byte buffer, in words.
pub const CAP_WORDS: usize = 1024;

/// Capacity of each file-descriptor buffer.
pub const CAP_FDS: usize = 8;

/// Why a message could not be queued.
#[derive(Clone, Copy, Debug, PartialEq, Eq, Structural)]
pub enum SendError {
    /// Not enough room for the message bytes, even after compaction.
    NoRoomForBytes,
    /// Not enough room for the message file descriptors, even after compaction.
    NoRoomForFds,
}

/// The second header word: byte length in the upper 16 bits, opcode in the lower 16.
pub open spec fn header_word(byte_len: nat, opcode: u16) -> u32 {
    ((byte_len as u32) << 16u32) | (opcode as u32)
}

/// The words of a message: target id, length and opcode, then the arguments.
pub open spec fn message_words(object_id: u32, opcode: u16, args: Seq<u32>) -> Seq<u32> {
    seq![object_id, header_word(8 + 4 * args.len(), opcode)] + args
}

/// The words whose bytes are `b[i..i + 4]`.
pub open spec fn word_at(b: Seq<u8>, i: int) -> u32 {
    choose|w: u32| ne_bytes(w) == b.subrange(i, i + 4)
}

/// A fixed-capacity queue of file descriptors.
pub struct FdQueue {
    fds: Vec<i32>,
    read_idx: usize,
    write_idx: usize,
}

impl FdQueue {
    pub closed spec fn wf(&self) -> bool {
        &&& self.fds@.len() == CAP_FDS
        &&& self.read_idx <= self.write_idx <= CAP_FDS
    }

    /// The queued descriptors, oldest first.
    pub closed spec fn queued(&self) -> Seq<i32> {
        self.fds@.subrange(self.read_idx as int, self.write_idx as int)
    }

    /// An empty queue.
    pub fn new() -> (r: Self)
        ensures
            r.wf(),
            r.queued().len() == 0,
    {
        let mut fds: Vec<i32> = Vec::new();
        let mut i: usize = 0;
        while i < CAP_FDS
            invariant
                i <= CAP_FDS,
                fds@.len() == i,
            decreases CAP_FDS - i,
        {
            fds.push(-1);
            i = i + 1;
        }
        FdQueue { fds, read_idx: 0, write_idx: 0 }
    }

    /// Number of queued descriptors.
    pub fn len(&self) -> (r: usize)
        requires
            self.wf(),
        ensures
            r == self.queued().len(),
    {
        self.write_idx - self.read_idx
    }

    /// Move the queued descriptors to the front.
    fn compact(&mut self)
        requires
            old(self).wf(),
        ensures
            final(self).wf(),
            final(self).queued() == old(self).queued(),
            final(self).read_idx == 0,
            final(self).write_idx == old(self).queued().len(),
    {
        let s = self.read_idx;
        let n = self.write_idx - self.read_idx;
        let ghost old_fds = self.fds@;
        let mut k: usize = 0;
        while k < n
            invariant
                s + n <= CAP_FDS,
                self.fds@.len() == CAP_FDS,
                k <= n,
                forall|j: int| 0 <= j < k ==> self.fds@[j] == old_fds[s + j],
                forall|j: int| k <= j < CAP_FDS ==> self.fds@[j] == old_fds[j],
            decreases n - k,
        {
            let v = self.fds[s + k];
            self.fds.set(k, v);
            k = k + 1;
        }
        self.read_idx = 0;
        self.write_idx = n;
        assert(self.queued() =~= old(self).queued());
    }

    /// Free slots once the queue is compacted.
    pub fn room(&self) -> (r: usize)
        requires
            self.wf(),
        ensures
            r == CAP_FDS - self.queued().len(),
    {
        CAP_FDS - (self.write_idx - self.read_idx)
    }

    /// Append `new_fds`, or fail and change nothing when they do not fit.
    pub fn push_all(&mut self, new_fds: &[i32]) -> (r: Result<(), WireError>)
        requires
            old(self).wf(),
        ensures
            final(self).wf(),
            r is Ok <==> old(self).queued().len() + new_fds@.len() <= CAP_FDS,
            r is Ok ==> final(self).queued() == old(self).queued() + new_fds@,
            r is Err ==> r == Err::<(), WireError>(WireError::TooManyFds) && final(self).queued() == old(self).queued(),
    {
        if new_fds.len() > CAP_FDS - (self.write_idx - self.read_idx) {
            return Err(WireError::TooManyFds);
        }
        if new_fds.len() > CAP_FDS - self.write_idx {
            self.compact();
        }
        let ghost before = self.queued();
        let w = self.write_idx;
        let mut i: usize = 0;
        while i < new_fds.len()
            invariant
                self.fds@.len() == CAP_FDS,
                self.read_idx <= w,
                w + new_fds@.len() <= CAP_FDS,
                self.write_idx == w,
                i <= new_fds@.len(),
                self.fds@.subrange(self.read_idx as int, w as int) == before,
                forall|j: int| 0 <= j < i ==> self.fds@[w + j] == new_fds@[j],
            decreases new_fds@.len() - i,
        {
            self.fds.set(w + i, new_fds[i]);
            i = i + 1;
            assert(self.fds@.subrange(self.read_idx as int, w as int) =~= before);
        }
        self.write_idx = w + new_fds.len();
        assert(self.queued() =~= before + new_fds@);
        Ok(())
    }

    /// Take the oldest descriptor.
    pub fn pop(&mut self) -> (r: Result<i32, WireError>)
        requires
            old(self).wf(),
        ensures
            final(self).wf(),
            old(self).queued().len() == 0 ==> r == Err::<i32, WireError>(WireError::MissingFd)
                && final(self).queued() == old(self).queued(),
            old(self).queued().len() > 0 ==> r == Ok::<i32, WireError>(old(self).queued()[0])
                && final(self).queued() == old(self).queued().drop_first(),
    {
        if self.read_idx < self.write_idx {
            let fd = self.fds[self.read_idx];
            self.read_idx = self.read_idx + 1;
            assert(self.queued() =~= old(self).queued().drop_first());
            Ok(fd)
        } else {
            Err(WireError::MissingFd)
        }
    }

    /// Copy of the queued descriptors, oldest first.
    pub fn to_vec(&self) -> (r: Vec<i32>)
        requires
            self.wf(),
        ensures
            r@ == self.queued(),
    {
        let mut r: Vec<i32> = Vec::new();
        let mut i = self.read_idx;
        while i < self.write_idx
            invariant
                self.wf(),
                self.read_idx <= i <= self.write_idx,
                r@ == self.fds@.subrange(self.read_idx as int, i as int),
            decreases self.write_idx - i,
        {
            r.push(self.fds[i]);
            i = i + 1;
            assert(r@ =~= self.fds@.subrange(self.read_idx as int, i as int));
        }
        r
    }

    /// Drop every queued descriptor.
    pub fn clear(&mut self)
        requires
            old(self).wf(),
        ensures
            final(self).wf(),
            final(self).queued().len() == 0,
    {
        self.read_idx = 0;
        self.write_idx = 0;
    }
}

/// A zero-filled buffer of `CAP_BYTES` bytes.
fn zeroed_bytes() -> (r: Vec<u8>)
    ensures
        r@.len() == CAP_BYTES,
{
    let mut v: Vec<u8> = Vec::new();
    let mut i: usize = 0;
    while i < CAP_BYTES
        invariant
            i <= CAP_BYTES,
            v@.len() == i,
        decreases CAP_BYTES - i,
    {
        v.push(0);
        i = i + 1;
    }
    v
}

/// Move `bytes[from..to]` to the front of `bytes`.
fn shift_to_front(bytes: &mut Vec<u8>, from: usize, to: usize)
    requires
        from <= to <= old(bytes)@.len(),
    ensures
        final(bytes)@.len() == old(bytes)@.len(),
        final(bytes)@.subrange(0, (to - from) as int) == old(bytes)@.subrange(from as int, to as int),
{
    let n = to - from;
    let ghost orig = bytes@;
    let mut k: usize = 0;
    while k < n
        invariant
            from + n == to,
            to <= orig.len(),
            bytes@.len() == orig.len(),
            k <= n,
            forall|j: int| 0 <= j < k ==> bytes@[j] == orig[from + j],
            forall|j: int| k <= j < orig.len() ==> bytes@[j] == orig[j],
        decreases n - k,
    {
        let v = bytes[from + k];
        bytes.set(k, v);
        k = k + 1;
    }
    assert(bytes@.subrange(0, n as int) =~= orig.subrange(from as int, to as int));
}

/// Outgoing half of a connection: message bytes and descriptors waiting to be sent.
pub struct SendHalf {
    bytes: Vec<u8>,
    read_idx: usize,
    write_idx: usize,
    fds: FdQueue,
}

/// Room that a message needs and the queue has once compacted.
pub open spec fn send_room(pending_len: nat, read_in_word: nat, words: nat) -> bool {
    pending_len + read_in_word + 4 * words <= CAP_BYTES
}

impl SendHalf {
    pub closed spec fn wf(&self) -> bool {
        &&& self.bytes@.len() == CAP_BYTES
        &&& self.read_idx <= self.write_idx <= CAP_BYTES
        &&& self.write_idx % 4 == 0
        &&& self.fds.wf()
    }

    /// Bytes queued for the peer, in the order they will be sent.
    pub closed spec fn pending(&self) -> Seq<u8> {
        self.bytes@.subrange(self.read_idx as int, self.write_idx as int)
    }

    /// Descriptors queued for the peer.
    pub closed spec fn pending_fds(&self) -> Seq<i32> {
        self.fds.queued()
    }

    /// Bytes of a partly sent word at the head of the queue, kept by compaction.
    pub closed spec fn head_offset(&self) -> nat {
        (self.read_idx % 4) as nat
    }

    /// A well-formed half never queues more descriptors than it holds.
    pub proof fn lemma_fds_bounded(&self)
        requires
            self.wf(),
        ensures
            self.pending_fds().len() <= CAP_FDS,
    {
    }

    /// An empty outgoing half.
    pub fn new() -> (r: Self)
        ensures
            r.wf(),
            r.pending().len() == 0,
            r.pending_fds().len() == 0,
            r.head_offset() == 0,
    {
        SendHalf { bytes: zeroed_bytes(), read_idx: 0, write_idx: 0, fds: FdQueue::new() }
    }

    /// Move the queued bytes to the front, keeping word alignment.
    fn compact(&mut self)
        requires
            old(self).wf(),
        ensures
            final(self).wf(),
            final(self).pending() == old(self).pending(),
            final(self).pending_fds() == old(self).pending_fds(),
            final(self).head_offset() == old(self).head_offset(),
            final(self).write_idx == old(self).pending().len() + old(self).head_offset(),
    {
        let start = (self.read_idx / 4) * 4;
        let end = self.write_idx;
        shift_to_front(&mut self.bytes, start, end);
        let ghost moved = self.bytes@;
        self.read_idx = self.read_idx - start;
        self.write_idx = end - start;
        proof {
            assert(self.pending() =~= moved.subrange(0, (end - start) as int).subrange(
                self.read_idx as int,
                self.write_idx as int,
            ));
            assert(old(self).pending() =~= old(self).bytes@.subrange(start as int, end as int).subrange(
                self.read_idx as int,
                self.write_idx as int,
            ));
        }
    }

    /// Queue one message: the header words for `object_id` and `opcode`, then
    /// `args`, with `fds` alongside. Compacts the queue when the message does not
    /// fit at its end; fails, leaving what is queued as it was, when it still does
    /// not fit.
    #[verifier::rlimit(40)]
    pub fn submit<T>(&mut self, object_id: Id<T>, opcode: u16, args: &[u32], fds: &[i32]) -> (r: Result<(), SendError>)
        requires
            old(self).wf(),
        ensures
            final(self).wf(),
            r is Ok <==> send_room(old(self).pending().len(), old(self).head_offset(), args@.len() + 2)
                && old(self).pending_fds().len() + fds@.len() <= CAP_FDS,
            r == Err::<(), SendError>(SendError::NoRoomForBytes) <==> !send_room(
                old(self).pending().len(),
                old(self).head_offset(),
                args@.len() + 2,
            ),
            r is Ok ==> final(self).pending() == old(self).pending() + words_bytes(
                message_words(object_id.value(), opcode, args@),
            ),
            r is Ok ==> final(self).pending_fds() == old(self).pending_fds() + fds@,
            r is Ok ==> final(self).pending().len() == old(self).pending().len() + 4 * (args@.len() + 2),
            r is Err ==> final(self).pending() == old(self).pending() && final(self).pending_fds()
                == old(self).pending_fds(),
            final(self).head_offset() == old(self).head_offset(),
    {
        if args.len() > CAP_WORDS - 2 {
            return Err(SendError::NoRoomForBytes);
        }
        let words_len = args.len() + 2;
        let bytes_len = words_len * 4;
        if CAP_BYTES - self.write_idx < bytes_len || CAP_FDS - self.fds.write_idx < fds.len() {
            self.compact();
            self.fds.compact();
        }
        if CAP_BYTES - self.write_idx < bytes_len {
            return Err(SendError::NoRoomForBytes);
        }
        if self.fds.room() < fds.len() {
            return Err(SendError::NoRoomForFds);
        }
        let ghost before = self.pending();
        let ghost fds_before = self.fds.queued();
        let header = ((bytes_len as u32) << 16u32) | (opcode as u32);
        let mut msg: Vec<u32> = Vec::new();
        msg.push(object_id.get());
        msg.push(header);
        let mut i: usize = 0;
        while i < args.len()
            invariant
                i <= args@.len(),
                msg@ == seq![object_id.value(), header] + args@.take(i as int),
            decreases args@.len() - i,
        {
            msg.push(args[i]);
            i = i + 1;
            assert(msg@ =~= seq![object_id.value(), header] + args@.take(i as int));
        }
        assert(args@.take(args@.len() as int) =~= args@);
        assert(msg@ == message_words(object_id.value(), opcode, args@));
        let w0 = self.write_idx;
        self.write_words(w0, &msg);
        self.write_idx = w0 + bytes_len;
        assert(self.pending() =~= before + words_bytes(msg@)) by {
            assert(self.bytes@.subrange(self.read_idx as int, w0 as int) =~= before);
        }
        let pushed = self.fds.push_all(fds);
        assert(pushed is Ok);
        Ok(())
    }

    /// Write the bytes of `ws` from byte index `at` on.
    fn write_words(&mut self, at: usize, ws: &Vec<u32>)
        requires
            old(self).bytes@.len() == CAP_BYTES,
            at + 4 * ws@.len() <= CAP_BYTES,
        ensures
            final(self).bytes@.len() == CAP_BYTES,
            final(self).bytes@.subrange(at as int, at + 4 * ws@.len()) == words_bytes(ws@),
            forall|j: int| 0 <= j < at ==> final(self).bytes@[j] == old(self).bytes@[j],
            final(self).read_idx == old(self).read_idx,
            final(self).write_idx == old(self).write_idx,
            final(self).fds == old(self).fds,
    {
        let mut i: usize = 0;
        proof {
            assert(ws@.take(0) =~= Seq::<u32>::empty());
            assert(self.bytes@.subrange(at as int, at as int) =~= words_bytes(Seq::<u32>::empty()));
        }
        while i < ws.len()
            invariant
                self.bytes@.len() == CAP_BYTES,
                at + 4 * ws@.len() <= CAP_BYTES,
                i <= ws@.len(),
                self.bytes@.subrange(at as int, at + 4 * i) == words_bytes(ws@.take(i as int)),
                forall|j: int| 0 <= j < at ==> self.bytes@[j] == old(self).bytes@[j],
                self.read_idx == old(self).read_idx,
                self.write_idx == old(self).write_idx,
                self.fds == old(self).fds,
            decreases ws@.len() - i,
        {
            let ghost prev = self.bytes@;
            self.put_word(at + 4 * i, ws[i]);
            proof {
                assert(ws@.take(i + 1) =~= ws@.take(i as int).push(ws@[i as int]));
                lemma_words_bytes_push(ws@.take(i as int), ws@[i as int]);
                assert(self.bytes@.subrange(at as int, at + 4 * i) =~= prev.subrange(at as int, at + 4 * i));
                assert(self.bytes@.subrange(at as int, at + 4 * (i + 1)) =~= self.bytes@.subrange(at as int, at + 4 * i)
                    + self.bytes@.subrange(at + 4 * i, at + 4 * i + 4));
            }
            i = i + 1;
        }
        assert(ws@.take(ws@.len() as int) =~= ws@);
    }

    /// Write the bytes of `w` at byte index `at`.
    fn put_word(&mut self, at: usize, w: u32)
        requires
            old(self).bytes@.len() == CAP_BYTES,
            at + 4 <= CAP_BYTES,
        ensures
            final(self).bytes@.len() == CAP_BYTES,
            final(self).bytes@.subrange(at as int, at + 4) == ne_bytes(w),
            forall|j: int| 0 <= j < final(self).bytes@.len() && !(at <= j < at + 4) ==> final(self).bytes@[j] == old(self).bytes@[j],
            final(self).read_idx == old(self).read_idx,
            final(self).write_idx == old(self).write_idx,
            final(self).fds == old(self).fds,
    {
        let b = word_to_bytes(w);
        self.bytes.set(at, b[0]);
        self.bytes.set(at + 1, b[1]);
        self.bytes.set(at + 2, b[2]);
        self.bytes.set(at + 3, b[3]);
        assert(self.bytes@.subrange(at as int, at + 4) =~= b@);
    }

    /// Copy of the bytes waiting to be sent.
    pub fn pending_bytes(&self) -> (r: Vec<u8>)
        requires
            self.wf(),
        ensures
            r@ == self.pending(),
    {
        let mut r: Vec<u8> = Vec::new();
        let mut i = self.read_idx;
        while i < self.write_idx
            invariant
                self.wf(),
                self.read_idx <= i <= self.write_idx,
                r@ == self.bytes@.subrange(self.read_idx as int, i as int),
            decreases self.write_idx - i,
        {
            r.push(self.bytes[i]);
            i = i + 1;
            assert(r@ =~= self.bytes@.subrange(self.read_idx as int, i as int));
        }
        r
    }

    /// Copy of the descriptors waiting to be sent.
    pub fn pending_fd_list(&self) -> (r: Vec<i32>)
        requires
            self.wf(),
        ensures
            r@ == self.pending_fds(),
    {
        self.fds.to_vec()
    }

    /// Whether anything waits to be sent.
    pub fn has_pending(&self) -> (r: bool)
        requires
            self.wf(),
        ensures
            r <==> self.pending().len() > 0 || self.pending_fds().len() > 0,
    {
        self.read_idx < self.write_idx || self.fds.len() > 0
    }

    /// Record that the peer took the first `n` pending bytes in one send; every
    /// pending descriptor went with that send.
    pub fn mark_sent(&mut self, n: usize)
        requires
            old(self).wf(),
            n <= old(self).pending().len(),
        ensures
            final(self).wf(),
            final(self).pending() == old(self).pending().skip(n as int),
            final(self).pending_fds().len() == 0,
            n == old(self).pending().len() ==> final(self).head_offset() == 0,
    {
        self.read_idx = self.read_idx + n;
        if self.read_idx == self.write_idx {
            self.read_idx = 0;
            self.write_idx = 0;
        }
        self.fds.clear();
        assert(self.pending() =~= old(self).pending().skip(n as int));
    }
}

/// `w` is the one word whose bytes are `b[i..i + 4]`.
pub proof fn lemma_word_at(b: Seq<u8>, i: int, w: u32)
    requires
        ne_bytes(w) == b.subrange(i, i + 4),
        forall|v: u32| ne_bytes(v) == b.subrange(i, i + 4) ==> v == w,
    ensures
        word_at(b, i) == w,
{
}

/// Length field of a header word.
pub open spec fn header_len(w: u32) -> nat {
    (w >> 16u32) as nat
}

/// Opcode field of a header word.
pub open spec fn header_opcode(w: u32) -> u16 {
    (w & 0xffffu32) as u16
}

/// A framed request: target id, opcode, argument words and total byte length.
pub struct Frame {
    pub object_id: u32,
    pub opcode: u16,
    pub args: Seq<u32>,
    pub len: nat,
}

/// What framing makes of the buffered bytes `b`: an error for a malformed
/// header, `None` while the first message is incomplete, else that message.
pub open spec fn spec_frame(b: Seq<u8>) -> Result<Option<Frame>, WireError> {
    if b.len() < 8 {
        Ok(None)
    } else {
        let id = word_at(b, 0);
        let lo = word_at(b, 4);
        let len = header_len(lo);
        if len < 8 {
            Err(WireError::LengthTooShort)
        } else if len % 4 != 0 {
            Err(WireError::LengthNotAligned)
        } else if len > CAP_BYTES {
            Err(WireError::LengthTooLong)
        } else if id == 0 {
            Err(WireError::NullTarget)
        } else if b.len() < len {
            Ok(None)
        } else {
            Ok(
                Some(
                    Frame {
                        object_id: id,
                        opcode: header_opcode(lo),
                        args: Seq::new((len / 4 - 2) as nat, |k: int| word_at(b, 8 + 4 * k)),
                        len,
                    },
                ),
            )
        }
    }
}

/// One request taken from the incoming buffer.
pub struct RecvMessage {
    object_id: Id<AnyObject>,
    opcode: u16,
    args: Vec<u32>,
}

impl RecvMessage {
    pub closed spec fn spec_object_id(&self) -> Id<AnyObject> {
        self.object_id
    }

    pub closed spec fn spec_opcode(&self) -> u16 {
        self.opcode
    }

    pub closed spec fn spec_args(&self) -> Seq<u32> {
        self.args@
    }

    /// A request for `object_id` with `opcode` and argument words `args`.
    pub fn new(object_id: Id<AnyObject>, opcode: u16, args: Vec<u32>) -> (r: Self)
        ensures
            r.spec_object_id() == object_id,
            r.spec_opcode() == opcode,
            r.spec_args() == args@,
    {
        RecvMessage { object_id, opcode, args }
    }

    /// The target object.
    pub fn object_id(&self) -> (r: Id<AnyObject>)
        ensures
            r == self.spec_object_id(),
    {
        self.object_id
    }

    /// The request opcode.
    pub fn opcode(&self) -> (r: u16)
        ensures
            r == self.spec_opcode(),
    {
        self.opcode
    }

    /// The argument words.
    pub fn args(&self) -> (r: &[u32])
        ensures
            r@ == self.spec_args(),
    {
        self.args.as_slice()
    }
}

/// Incoming half of a connection: received bytes not yet framed, and received descriptors.
pub struct RecvHalf {
    bytes: Vec<u8>,
    read_idx: usize,
    write_idx: usize,
    fds: FdQueue,
}

impl RecvHalf {
    pub closed spec fn wf(&self) -> bool {
        &&& self.bytes@.len() == CAP_BYTES
        &&& self.read_idx <= self.write_idx <= CAP_BYTES
        &&& self.fds.wf()
    }

    /// Received bytes not yet taken as messages.
    pub closed spec fn buffered(&self) -> Seq<u8> {
        self.bytes@.subrange(self.read_idx as int, self.write_idx as int)
    }

    /// Received descriptors not yet handed out.
    pub closed spec fn queued_fds(&self) -> Seq<i32> {
        self.fds.queued()
    }

    /// An empty incoming half.
    pub fn new() -> (r: Self)
        ensures
            r.wf(),
            r.buffered().len() == 0,
            r.queued_fds().len() == 0,
    {
        RecvHalf { bytes: zeroed_bytes(), read_idx: 0, write_idx: 0, fds: FdQueue::new() }
    }

    /// Room for more received bytes.
    pub fn space(&self) -> (r: usize)
        requires
            self.wf(),
        ensures
            r == CAP_BYTES - self.buffered().len(),
    {
        CAP_BYTES - (self.write_idx - self.read_idx)
    }

    /// Whether no partial message is buffered.
    pub fn at_boundary(&self) -> (r: bool)
        requires
            self.wf(),
        ensures
            r <==> self.buffered().len() == 0,
    {
        self.read_idx == self.write_idx
    }

    /// Append received bytes.
    pub fn push_bytes(&mut self, data: &[u8])
        requires
            old(self).wf(),
            old(self).buffered().len() + data@.len() <= CAP_BYTES,
        ensures
            final(self).wf(),
            final(self).buffered() == old(self).buffered() + data@,
            final(self).queued_fds() == old(self).queued_fds(),
    {
        if data.len() > CAP_BYTES - self.write_idx {
            let (r, w) = (self.read_idx, self.write_idx);
            shift_to_front(&mut self.bytes, r, w);
            self.read_idx = 0;
            self.write_idx = w - r;
            assert(self.buffered() =~= old(self).buffered());
        }
        let ghost before = self.buffered();
        let w = self.write_idx;
        let mut i: usize = 0;
        while i < data.len()
            invariant
                self.bytes@.len() == CAP_BYTES,
                self.fds == old(self).fds,
                self.fds.wf(),
                self.read_idx <= w,
                w + data@.len() <= CAP_BYTES,
                i <= data@.len(),
                self.bytes@.subrange(self.read_idx as int, w as int) == before,
                forall|j: int| 0 <= j < i ==> self.bytes@[w + j] == data@[j],
            decreases data@.len() - i,
        {
            self.bytes.set(w + i, data[i]);
            i = i + 1;
            assert(self.bytes@.subrange(self.read_idx as int, w as int) =~= before);
        }
        self.write_idx = w + data.len();
        assert(self.buffered() =~= before + data@);
    }

    /// Append received descriptors; fails, keeping none of them, when they do not fit.
    pub fn push_fds(&mut self, new_fds: &[i32]) -> (r: Result<(), WireError>)
        requires
            old(self).wf(),
        ensures
            final(self).wf(),
            final(self).buffered() == old(self).buffered(),
            r is Ok <==> old(self).queued_fds().len() + new_fds@.len() <= CAP_FDS,
            r is Ok ==> final(self).queued_fds() == old(self).queued_fds() + new_fds@,
            r is Err ==> r == Err::<(), WireError>(WireError::TooManyFds) && final(self).queued_fds()
                == old(self).queued_fds(),
    {
        self.fds.push_all(new_fds)
    }

    /// Copy of the received descriptors not yet handed out.
    pub fn queued_fd_list(&self) -> (r: Vec<i32>)
        requires
            self.wf(),
        ensures
            r@ == self.queued_fds(),
    {
        self.fds.to_vec()
    }

    /// Hand out the oldest received descriptor.
    pub fn take_fd(&mut self) -> (r: Result<i32, WireError>)
        requires
            old(self).wf(),
        ensures
            final(self).wf(),
            final(self).buffered() == old(self).buffered(),
            old(self).queued_fds().len() == 0 ==> r == Err::<i32, WireError>(WireError::MissingFd)
                && final(self).queued_fds() == old(self).queued_fds(),
            old(self).queued_fds().len() > 0 ==> r == Ok::<i32, WireError>(old(self).queued_fds()[0])
                && final(self).queued_fds() == old(self).queued_fds().drop_first(),
    {
        self.fds.pop()
    }

    /// The word at offset `k` of the buffered bytes.
    fn word(&self, k: usize) -> (r: u32)
        requires
            self.wf(),
            k + 4 <= self.buffered().len(),
        ensures
            r == word_at(self.buffered(), k as int),
    {
        let at = self.read_idx + k;
        let r = word_from_bytes([self.bytes[at], self.bytes[at + 1], self.bytes[at + 2], self.bytes[at + 3]]);
        proof {
            let b = self.buffered();
            assert([self.bytes@[at as int], self.bytes@[at + 1], self.bytes@[at + 2], self.bytes@[at + 3]]@
                =~= b.subrange(k as int, k + 4));
            lemma_word_at(b, k as int, r);
        }
        r
    }

    /// The target and opcode of the next complete request, without taking it.
    pub fn peek(&self) -> (r: Option<(u32, u16)>)
        requires
            self.wf(),
        ensures
            r == match spec_frame(self.buffered()) {
                Ok(Some(f)) => Some((f.object_id, f.opcode)),
                _ => None::<(u32, u16)>,
            },
    {
        let avail = self.write_idx - self.read_idx;
        if avail < 8 {
            return None;
        }
        let id = self.word(0);
        let lo = self.word(4);
        let len = (lo >> 16u32) as usize;
        if len < 8 || len % 4 != 0 || len > CAP_BYTES || id == 0 || avail < len {
            return None;
        }
        Some((id, (lo & 0xffffu32) as u16))
    }

    /// Take the next complete request. Fails on a malformed header as soon as
    /// the header is buffered; gives `None` while the request is incomplete.
    #[verifier::rlimit(40)]
    pub fn poll_recv(&mut self) -> (r: Result<Option<RecvMessage>, WireError>)
        requires
            old(self).wf(),
        ensures
            final(self).wf(),
            final(self).queued_fds() == old(self).queued_fds(),
            r matches Err(e) ==> spec_frame(old(self).buffered()) == Err::<Option<Frame>, WireError>(e),
            r matches Ok(None) ==> spec_frame(old(self).buffered()) == Ok::<Option<Frame>, WireError>(None),
            r matches Ok(Some(m)) ==> (spec_frame(old(self).buffered()) matches Ok(Some(f))
                && m.spec_object_id().value() == f.object_id && m.spec_object_id().wf()
                && m.spec_opcode() == f.opcode && m.spec_args() == f.args
                && final(self).buffered() == old(self).buffered().skip(f.len as int)),
            !(r matches Ok(Some(_))) ==> final(self).buffered() == old(self).buffered(),
    {
        let avail = self.write_idx - self.read_idx;
        if avail < 8 {
            return Ok(None);
        }
        let id = self.word(0);
        let lo = self.word(4);
        let len = (lo >> 16u32) as usize;
        let opcode = (lo & 0xffffu32) as u16;
        if len < 8 {
            return Err(WireError::LengthTooShort);
        }
        if len % 4 != 0 {
            return Err(WireError::LengthNotAligned);
        }
        if len > CAP_BYTES {
            return Err(WireError::LengthTooLong);
        }
        let object_id = match Id::<AnyObject>::new(id) {
            Some(i) => i,
            None => {
                return Err(WireError::NullTarget);
            },
        };
        if avail < len {
            return Ok(None);
        }
        let n = len / 4 - 2;
        let ghost b = self.buffered();
        let mut args: Vec<u32> = Vec::new();
        let mut k: usize = 0;
        while k < n
            invariant
                self.wf(),
                self.buffered() == b,
                b.len() >= len,
                n == len / 4 - 2,
                len % 4 == 0,
                len <= CAP_BYTES,
                k <= n,
                args@ == Seq::new(k as nat, |j: int| word_at(b, 8 + 4 * j)),
            decreases n - k,
        {
            let w = self.word(8 + 4 * k);
            args.push(w);
            k = k + 1;
            assert(args@ =~= Seq::new(k as nat, |j: int| word_at(b, 8 + 4 * j)));
        }
        self.read_idx = self.read_idx + len;
        assert(self.buffered() =~= b.skip(len as int));
        Ok(Some(RecvMessage { object_id, opcode, args }))
    }
}

/// Queuing one message and then another hands the peer the first message's
/// bytes before the second's, and the first message's descriptors before the
/// second's.
pub proof fn lemma_submission_order(
    h0: SendHalf,
    h1: SendHalf,
    h2: SendHalf,
    m1: Seq<u32>,
    m2: Seq<u32>,
    d1: Seq<i32>,
    d2: Seq<i32>,
)
    requires
        h1.pending() == h0.pending() + words_bytes(m1),
        h1.pending_fds() == h0.pending_fds() + d1,
        h2.pending() == h1.pending() + words_bytes(m2),
        h2.pending_fds() == h1.pending_fds() + d2,
    ensures
        h2.pending() == h0.pending() + words_bytes(m1 + m2),
        h2.pending().subrange(h0.pending().len() as int, (h0.pending().len() + words_bytes(m1).len()) as int)
            == words_bytes(m1),
        h2.pending().skip((h0.pending().len() + words_bytes(m1).len()) as int) == words_bytes(m2),
        h2.pending_fds() == h0.pending_fds() + d1 + d2,
{
    lemma_words_bytes_append(m1, m2);
    let a = h0.pending();
    let b = words_bytes(m1);
    let c = words_bytes(m2);
    assert(a + b + c =~= a + (b + c));
    assert((a + b + c).subrange(a.len() as int, (a.len() + b.len()) as int) =~= b);
    assert((a + b + c).skip((a.len() + b.len()) as int) =~= c);
}

/// A header whose length field is below the header size, not word-aligned or
/// beyond the buffer, or whose target is null.
pub open spec fn malformed_header(b: Seq<u8>) -> bool {
    let len = header_len(word_at(b, 4));
    len < 8 || len % 4 != 0 || len > CAP_BYTES || word_at(b, 0) == 0
}

/// Framing rejects a malformed header as soon as its two words are buffered,
/// and the same way whatever bytes follow: nothing more is buffered for it.
pub proof fn lemma_malformed_header_rejected(b: Seq<u8>, more: Seq<u8>)
    requires
        b.len() >= 8,
        malformed_header(b),
    ensures
        spec_frame(b) is Err,
        spec_frame(b + more) == spec_frame(b),
{
    let e = b + more;
    assert(e.subrange(0, 4) =~= b.subrange(0, 4));
    assert(e.subrange(4, 8) =~= b.subrange(4, 8));
}

} // verus!
