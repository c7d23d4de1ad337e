//! Per-client state: the two halves of the connection and the object table.

use crate::buffer::{spec_frame, Frame, RecvHalf, RecvMessage, SendHalf};
use crate::dispatch::DispatchError;
use crate::object_impls::{dispatched, handled, Display};
use crate::objects::{kind_of, AnyObject, IdError, ObjectKind, Objects};
use crate::wire::{Id, WireError};
use vstd::prelude::*;

verus! {

/// Why a client's connection ends.
#[derive(Clone, Copy, Debug, PartialEq, Eq, Structural)]
pub enum ClientError {
    /// A request could not be framed.
    Framing(WireError),
    /// A request could not be carried out.
    Dispatch(DispatchError),
    /// The kernel truncated the descriptors sent with the data.
    ControlTruncated,
    /// The peer closed the connection in the middle of a request.
    UnexpectedEof,
    /// The peer closed the connection between requests.
    Closed,
}

/// One connected client.
pub struct Client {
    send: SendHalf,
    recv: RecvHalf,
    objects: Objects,
}

/// One request of a dispatch pass: the buffered bytes it was framed from, the
/// message, and the table and halves around its dispatch.
pub struct DispatchStep {
    pub before: Objects,
    pub after: Objects,
    pub send_before: SendHalf,
    pub send_after: SendHalf,
    pub recv_before: RecvHalf,
    pub recv_after: RecvHalf,
    pub message: RecvMessage,
    pub result: Result<(), DispatchError>,
    pub bytes: Seq<u8>,
}

/// The step's message is the request framed from its bytes, the bytes after it
/// are what the receive half holds, and the dispatch went as `dispatched` says.
pub open spec fn step_ok(st: DispatchStep) -> bool {
    &&& spec_frame(st.bytes) matches Ok(Some(f)) && st.message.spec_object_id().value() == f.object_id
        && st.message.spec_opcode() == f.opcode && st.message.spec_args() == f.args
        && st.recv_before.buffered() == st.bytes.skip(f.len as int)
    &&& st.recv_after.buffered() == st.recv_before.buffered()
    &&& dispatched(st.before, st.after, st.send_before, st.send_after, st.recv_before, st.recv_after, st.message, st.result)
}

/// `steps` dispatch, one after another in arrival order, the requests framed
/// from the bytes `b0`, starting from the table `o0` and the outgoing half `s0`.
pub open spec fn dispatch_chain(o0: Objects, s0: SendHalf, b0: Seq<u8>, steps: Seq<DispatchStep>) -> bool {
    &&& forall|i: int| 0 <= i < steps.len() ==> step_ok(#[trigger] steps[i])
    &&& steps.len() > 0 ==> steps[0].before == o0 && steps[0].send_before == s0 && steps[0].bytes == b0
    &&& forall|i: int| 0 <= i < steps.len() - 1 ==> #[trigger] steps[i + 1].before == steps[i].after
        && steps[i + 1].send_before == steps[i].send_after && steps[i + 1].bytes == steps[i].recv_after.buffered()
}

/// The table after `steps`.
pub open spec fn chain_objects(o0: Objects, steps: Seq<DispatchStep>) -> Objects {
    if steps.len() == 0 { o0 } else { steps.last().after }
}

/// The outgoing half after `steps`.
pub open spec fn chain_send(s0: SendHalf, steps: Seq<DispatchStep>) -> SendHalf {
    if steps.len() == 0 { s0 } else { steps.last().send_after }
}

/// The buffered bytes after `steps`.
pub open spec fn chain_bytes(b0: Seq<u8>, steps: Seq<DispatchStep>) -> Seq<u8> {
    if steps.len() == 0 { b0 } else { steps.last().recv_after.buffered() }
}

/// The first `n` bytes of `b` are whole requests, framed one after another.
pub open spec fn framed(b: Seq<u8>, n: nat) -> bool
    decreases n,
{
    if n == 0 {
        true
    } else {
        match spec_frame(b) {
            Ok(Some(f)) => 0 < f.len <= n && framed(b.skip(f.len as int), (n - f.len) as nat),
            _ => false,
        }
    }
}

proof fn lemma_framed_extend(b: Seq<u8>, n: nat, f: Frame)
    requires
        framed(b, n),
        n <= b.len(),
        spec_frame(b.skip(n as int)) == Ok::<Option<Frame>, WireError>(Some(f)),
        0 < f.len <= b.len() - n,
    ensures
        framed(b, n + f.len),
    decreases n,
{
    if n == 0 {
        assert(b.skip(0) =~= b);
        assert(framed(b.skip(f.len as int), 0));
    } else {
        let g = spec_frame(b)->Ok_0->Some_0;
        let c = b.skip(g.len as int);
        assert(c.skip((n - g.len) as int) =~= b.skip(n as int));
        lemma_framed_extend(c, (n - g.len) as nat, f);
        assert(c.skip(f.len as int) =~= c.skip(f.len as int));
        assert((n + f.len - g.len) as nat == (n - g.len) as nat + f.len);
    }
}

impl Client {
    pub closed spec fn wf(&self) -> bool {
        self.send.wf() && self.recv.wf()
    }

    /// The object table.
    pub closed spec fn spec_objects(&self) -> Objects {
        self.objects
    }

    /// The outgoing half.
    pub closed spec fn spec_send(&self) -> SendHalf {
        self.send
    }

    /// The incoming half.
    pub closed spec fn spec_recv(&self) -> RecvHalf {
        self.recv
    }

    /// A fresh client: empty buffers and the display at id 1.
    pub fn new() -> (r: Self)
        ensures
            r.wf(),
            r.spec_objects().slots().len() == 2,
            r.spec_objects().slots()[0] is None,
            r.spec_objects().slots()[1] == Some(AnyObject::Display(Display)),
            r.spec_send().pending().len() == 0,
            r.spec_send().pending_fds().len() == 0,
            r.spec_send().head_offset() == 0,
            r.spec_recv().buffered().len() == 0,
            r.spec_recv().queued_fds().len() == 0,
    {
        let mut objects = Objects::new();
        let id = Id::<Display>::new(1);
        match id {
            Some(i) => {
                let _entry = objects.insert(i, Display);
                assert(objects.slots() =~= seq![None, Some(AnyObject::Display(Display))]);
            },
            None => {},
        }
        Client { send: SendHalf::new(), recv: RecvHalf::new(), objects }
    }

    /// The outgoing half, for flushing.
    pub fn send_half(&self) -> (r: &SendHalf)
        ensures
            *r == self.spec_send(),
    {
        &self.send
    }

    /// The incoming half.
    pub fn recv_half(&self) -> (r: &RecvHalf)
        ensures
            *r == self.spec_recv(),
    {
        &self.recv
    }

    /// The object table.
    pub fn objects(&self) -> (r: &Objects)
        ensures
            *r == self.spec_objects(),
    {
        &self.objects
    }

    /// Room for received bytes.
    pub fn recv_space(&self) -> (r: usize)
        requires
            self.wf(),
        ensures
            r == crate::buffer::CAP_BYTES - self.spec_recv().buffered().len(),
    {
        self.recv.space()
    }

    /// Take in what one receive from the socket gave: bytes, descriptors, and
    /// whether the kernel truncated the descriptors. Truncation ends the
    /// connection; so does an empty receive, which means the peer closed it.
    pub fn receive(&mut self, data: &[u8], fds: &[i32], truncated: bool) -> (r: Result<(), ClientError>)
        requires
            old(self).wf(),
            old(self).spec_recv().buffered().len() + data@.len() <= crate::buffer::CAP_BYTES,
        ensures
            final(self).wf(),
            truncated ==> r == Err::<(), ClientError>(ClientError::ControlTruncated),
            !truncated && data@.len() == 0 && fds@.len() == 0 ==> r == Err::<(), ClientError>(
                if old(self).spec_recv().buffered().len() == 0 { ClientError::Closed } else { ClientError::UnexpectedEof },
            ),
            !truncated && (data@.len() > 0 || fds@.len() > 0) ==> final(self).spec_recv().buffered()
                == old(self).spec_recv().buffered() + data@ && (r is Ok <==> old(self).spec_recv().queued_fds().len()
                + fds@.len() <= crate::buffer::CAP_FDS),
            r is Ok ==> final(self).spec_recv().queued_fds() == old(self).spec_recv().queued_fds() + fds@,
            final(self).spec_objects() == old(self).spec_objects(),
            final(self).spec_send() == old(self).spec_send(),
    {
        if truncated {
            return Err(ClientError::ControlTruncated);
        }
        if data.len() == 0 && fds.len() == 0 {
            if self.recv.at_boundary() {
                return Err(ClientError::Closed);
            } else {
                return Err(ClientError::UnexpectedEof);
            }
        }
        self.recv.push_bytes(data);
        match self.recv.push_fds(fds) {
            Ok(()) => Ok(()),
            Err(e) => Err(ClientError::Framing(e)),
        }
    }

    /// Record that the first `n` pending bytes, and every pending descriptor, were sent.
    pub fn mark_sent(&mut self, n: usize)
        requires
            old(self).wf(),
            n <= old(self).spec_send().pending().len(),
        ensures
            final(self).wf(),
            final(self).spec_send().pending() == old(self).spec_send().pending().skip(n as int),
            final(self).spec_send().pending_fds().len() == 0,
            final(self).spec_objects() == old(self).spec_objects(),
            final(self).spec_recv() == old(self).spec_recv(),
    {
        self.send.mark_sent(n);
    }

    /// The interface, target and opcode of the next complete request, if one is
    /// buffered and its target's slot is occupied.
    pub fn next_request(&self) -> (r: Option<(ObjectKind, u32, u16)>)
        requires
            self.wf(),
        ensures
            match r {
                Some((k, id, op)) => (spec_frame(self.spec_recv().buffered()) matches Ok(Some(f)) && f.object_id == id
                    && f.opcode == op) && id < self.spec_objects().slots().len()
                    && (self.spec_objects().slots()[id as int] matches Some(o) && kind_of(o) == k),
                None => !(spec_frame(self.spec_recv().buffered()) matches Ok(Some(f)) && f.object_id < self.spec_objects().slots().len()
                    && self.spec_objects().slots()[f.object_id as int] is Some),
            },
    {
        match self.recv.peek() {
            Some((id, op)) => match self.objects.kind_at(id as usize) {
                Some(k) => Some((k, id, op)),
                None => None,
            },
            None => None,
        }
    }

    /// Frame and dispatch the next complete request, if one is buffered: `true`
    /// when one was dispatched, `false` when none is complete yet. Lets the
    /// caller flush queued events between requests, so that a request finds the
    /// outgoing buffer as empty as the peer allows.
    pub fn dispatch_next(&mut self) -> (r: Result<bool, ClientError>)
        requires
            old(self).wf(),
        ensures
            final(self).wf(),
            old(self).spec_objects().slots().len() <= final(self).spec_objects().slots().len(),
            r matches Ok(false) ==> spec_frame(old(self).spec_recv().buffered()) == Ok::<Option<Frame>, WireError>(None)
                && final(self).spec_objects() == old(self).spec_objects() && final(self).spec_send() == old(self).spec_send()
                && final(self).spec_recv().buffered() == old(self).spec_recv().buffered(),
            r matches Err(ClientError::Framing(e)) ==> spec_frame(old(self).spec_recv().buffered()) == Err::<
                Option<Frame>,
                WireError,
            >(e),
            (r matches Ok(true) || r matches Err(ClientError::Dispatch(_))) ==> (spec_frame(old(self).spec_recv().buffered())
                matches Ok(Some(f)) && final(self).spec_recv().buffered() == old(self).spec_recv().buffered().skip(f.len as int)),
            r matches Ok(true) ==> exists|m: RecvMessage, v0: RecvHalf|
                #[trigger] dispatched(old(self).spec_objects(), final(self).spec_objects(), old(self).spec_send(),
                    final(self).spec_send(), v0, final(self).spec_recv(), m, Ok(()))
                && (spec_frame(old(self).spec_recv().buffered()) matches Ok(Some(f)) && m.spec_object_id().value() == f.object_id
                && m.spec_opcode() == f.opcode && m.spec_args() == f.args),
            r matches Err(ClientError::Dispatch(e)) ==> exists|m: RecvMessage, v0: RecvHalf|
                #[trigger] dispatched(old(self).spec_objects(), final(self).spec_objects(), old(self).spec_send(),
                    final(self).spec_send(), v0, final(self).spec_recv(), m, Err(e))
                && (spec_frame(old(self).spec_recv().buffered()) matches Ok(Some(f)) && m.spec_object_id().value() == f.object_id
                && m.spec_opcode() == f.opcode && m.spec_args() == f.args),
            r is Err ==> (r matches Err(ClientError::Framing(_)) || r matches Err(ClientError::Dispatch(_))),
    {
        match self.recv.poll_recv() {
            Err(e) => Err(ClientError::Framing(e)),
            Ok(None) => Ok(false),
            Ok(Some(message)) => {
                let ghost m = message;
                let ghost v = self.recv;
                match self.objects.dispatch_request(&mut self.send, &mut self.recv, message) {
                    Ok(()) => {
                        proof {
                            assert(dispatched(old(self).spec_objects(), self.spec_objects(), old(self).spec_send(),
                                self.spec_send(), v, self.spec_recv(), m, Ok(())));
                        }
                        Ok(true)
                    },
                    Err(e) => {
                        proof {
                            assert(dispatched(old(self).spec_objects(), self.spec_objects(), old(self).spec_send(),
                                self.spec_send(), v, self.spec_recv(), m, Err(e)));
                        }
                        Err(ClientError::Dispatch(e))
                    },
                }
            },
        }
    }

    /// Frame and dispatch every complete request that is buffered, in arrival
    /// order. Stops at the first error: a malformed header, or a request that
    /// its handler refuses. Otherwise leaves no complete request behind.
    pub fn dispatch_pass(&mut self) -> (r: Result<(), ClientError>)
        requires
            old(self).wf(),
        ensures
            final(self).wf(),
            old(self).spec_objects().slots().len() <= final(self).spec_objects().slots().len(),
            ({
                let b = old(self).spec_recv().buffered();
                let rest = final(self).spec_recv().buffered();
                &&& rest.len() <= b.len()
                &&& rest == b.skip(b.len() - rest.len())
                &&& framed(b, (b.len() - rest.len()) as nat)
            }),
            r is Ok ==> spec_frame(final(self).spec_recv().buffered()) == Ok::<Option<Frame>, WireError>(None),
            r matches Err(ClientError::Framing(e)) ==> spec_frame(final(self).spec_recv().buffered()) == Err::<
                Option<Frame>,
                WireError,
            >(e),
            exists|steps: Seq<DispatchStep>|
                #[trigger] dispatch_chain(old(self).spec_objects(), old(self).spec_send(), old(self).spec_recv().buffered(), steps)
                && final(self).spec_objects() == chain_objects(old(self).spec_objects(), steps)
                && final(self).spec_send() == chain_send(old(self).spec_send(), steps)
                && final(self).spec_recv().buffered() == chain_bytes(old(self).spec_recv().buffered(), steps)
                && (forall|i: int| 0 <= i < steps.len() && !(r matches Err(ClientError::Dispatch(_)) && i == steps.len() - 1)
                    ==> (#[trigger] steps[i]).result is Ok)
                && (r matches Err(ClientError::Dispatch(e)) ==> steps.len() > 0 && steps.last().result == Err::<(), DispatchError>(e)),
            r is Err ==> (r matches Err(ClientError::Framing(_)) || r matches Err(ClientError::Dispatch(_))),
    {
        proof {
            let b = self.recv.buffered();
            assert(b.skip(0) =~= b);
        }
        let ghost mut steps: Seq<DispatchStep> = Seq::empty();
        loop
            invariant
                self.wf(),
                dispatch_chain(old(self).spec_objects(), old(self).spec_send(), old(self).spec_recv().buffered(), steps),
                self.objects == chain_objects(old(self).spec_objects(), steps),
                self.send == chain_send(old(self).spec_send(), steps),
                self.recv.buffered() == chain_bytes(old(self).spec_recv().buffered(), steps),
                forall|i: int| 0 <= i < steps.len() ==> (#[trigger] steps[i]).result is Ok,
                old(self).spec_objects().slots().len() <= self.objects.slots().len(),
                ({
                    let b = old(self).spec_recv().buffered();
                    let rest = self.recv.buffered();
                    &&& rest.len() <= b.len()
                    &&& rest == b.skip(b.len() - rest.len())
                    &&& framed(b, (b.len() - rest.len()) as nat)
                }),
            decreases self.recv.buffered().len(),
        {
            let ghost before = self.recv.buffered();
            match self.recv.poll_recv() {
                Err(e) => {
                    proof {
                        assert(dispatch_chain(old(self).spec_objects(), old(self).spec_send(), old(self).spec_recv().buffered(), steps));
                    }
                    return Err(ClientError::Framing(e));
                },
                Ok(None) => {
                    proof {
                        assert(dispatch_chain(old(self).spec_objects(), old(self).spec_send(), old(self).spec_recv().buffered(), steps));
                    }
                    return Ok(());
                },
                Ok(Some(message)) => {
                    let ghost after = self.recv.buffered();
                    proof {
                        let b = old(self).spec_recv().buffered();
                        let n = (b.len() - before.len()) as nat;
                        let f = spec_frame(before)->Ok_0->Some_0;
                        lemma_framed_extend(b, n, f);
                        assert(after =~= b.skip(b.len() - after.len()));
                    }
                    let ghost o0 = self.objects;
                    let ghost s0 = self.send;
                    let ghost v0 = self.recv;
                    let ghost m = message;
                    let r = self.objects.dispatch_request(&mut self.send, &mut self.recv, message);
                    let ghost step = DispatchStep {
                        before: o0,
                        after: self.objects,
                        send_before: s0,
                        send_after: self.send,
                        recv_before: v0,
                        recv_after: self.recv,
                        message: m,
                        result: r,
                        bytes: before,
                    };
                    proof {
                        assert(step_ok(step));
                        let old_steps = steps;
                        steps = steps.push(step);
                        assert forall|i: int| 0 <= i < steps.len() implies step_ok(#[trigger] steps[i]) by {
                            if i < old_steps.len() {
                                assert(steps[i] == old_steps[i]);
                            }
                        }
                        assert forall|i: int| 0 <= i < steps.len() - 1 implies #[trigger] steps[i + 1].before == steps[i].after
                            && steps[i + 1].send_before == steps[i].send_after
                            && steps[i + 1].bytes == steps[i].recv_after.buffered() by {
                            assert(steps[i] == old_steps[i]);
                            if i + 1 < old_steps.len() {
                                assert(steps[i + 1] == old_steps[i + 1]);
                            }
                        }
                        assert(dispatch_chain(old(self).spec_objects(), old(self).spec_send(), old(self).spec_recv().buffered(), steps));
                    }
                    match r {
                        Ok(()) => {
                            proof {
                                assert forall|i: int| 0 <= i < steps.len() implies (#[trigger] steps[i]).result is Ok by {
                                    if i < steps.len() - 1 {
                                        assert(steps[i] == steps.drop_last()[i]);
                                    }
                                }
                            }
                        },
                        Err(e) => {
                            proof {
                                assert forall|i: int| 0 <= i < steps.len() && !(i == steps.len() - 1) implies (#[trigger] steps[i]).result is Ok by {
                                    assert(steps[i] == steps.drop_last()[i]);
                                }
                            }
                            return Err(ClientError::Dispatch(e));
                        },
                    }
                    assert(self.recv.buffered() == after);
                },
            }
        }
    }
}

} // verus!
