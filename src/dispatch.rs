//! Errors of request dispatch, and the helpers that handlers share: argument
//! decoding, slot claiming and event sending.

use crate::args::Args;
use crate::buffer::{message_words, send_room, SendError, SendHalf};
use crate::encode::{encode_string, encode_uint, string_encoding};
use crate::objects::{grown, needed_len, AnyObject, Entry, IdError, ObjectType, Objects, VacantEntry};
use crate::wire::{words_bytes, Id, WireError};
use vstd::prelude::*;
use vstd::utf8::encode_utf8;

verus! {

/// Why a request could not be carried out. Each of them ends the connection.
#[derive(Clone, Copy, Debug, PartialEq, Eq, Structural)]
pub enum DispatchError {
    /// The request's arguments could not be decoded.
    Wire(WireError),
    /// An id argument or the target was not usable.
    Id(IdError),
    /// An event could not be queued.
    Send(SendError),
    /// The opcode names no request of the target's interface.
    UnknownOpcode,
    /// An argument value that the request does not accept.
    InvalidArgument,
}

/// `after` is `before` with empty slots appended and nothing else changed.
pub open spec fn extends(before: Seq<Option<AnyObject>>, after: Seq<Option<AnyObject>>) -> bool {
    &&& before.len() <= after.len()
    &&& after.take(before.len() as int) == before
    &&& forall|i: int| before.len() <= i < after.len() ==> after[i] is None
}

pub proof fn lemma_grown_extends(s: Seq<Option<AnyObject>>, n: nat)
    ensures
        extends(s, grown(s, n)),
{
    assert(grown(s, n).take(s.len() as int) =~= s);
}

/// Decode a non-null id argument for a new object.
pub fn decode_new_id(args: &mut Args) -> (r: Result<Id<AnyObject>, DispatchError>)
    requires
        old(args).wf(),
    ensures
        final(args).wf(),
        r matches Ok(id) ==> (id.wf() && id.value() < usize::MAX && old(args).rest().len() > 0
            && old(args).rest()[0] == id.value() && final(args).rest() == old(args).rest().skip(1)),
        r is Err ==> old(args).rest().len() == 0 || old(args).rest()[0] == 0 || old(args).rest()[0] as int == usize::MAX,
        old(args).rest().len() > 0 && old(args).rest()[0] != 0 && (old(args).rest()[0] as int) < usize::MAX ==> r is Ok,
{
    match args.take_object::<AnyObject>() {
        Ok(id) => {
            if id.into_usize() == usize::MAX {
                Err(DispatchError::Id(IdError::NoSuchObject))
            } else {
                Ok(id)
            }
        },
        Err(e) => Err(DispatchError::Wire(e)),
    }
}

/// Decode a `uint` argument.
pub fn decode_uint(args: &mut Args) -> (r: Result<u32, DispatchError>)
    requires
        old(args).wf(),
    ensures
        final(args).wf(),
        r matches Ok(v) ==> (old(args).rest().len() > 0 && old(args).rest()[0] == v
            && final(args).rest() == old(args).rest().skip(1)),
        r is Err <==> old(args).rest().len() == 0,
{
    match args.take_uint() {
        Ok(v) => Ok(v),
        Err(e) => Err(DispatchError::Wire(e)),
    }
}

/// Decode an `int` argument.
pub fn decode_int(args: &mut Args) -> (r: Result<i32, DispatchError>)
    requires
        old(args).wf(),
    ensures
        final(args).wf(),
        r matches Ok(v) ==> (old(args).rest().len() > 0 && old(args).rest()[0] as i32 == v
            && final(args).rest() == old(args).rest().skip(1)),
        r is Err <==> old(args).rest().len() == 0,
{
    match args.take_int() {
        Ok(v) => Ok(v),
        Err(e) => Err(DispatchError::Wire(e)),
    }
}

/// Require that every argument word was decoded.
pub fn finish_args(args: Args) -> (r: Result<(), DispatchError>)
    requires
        args.wf(),
    ensures
        r is Ok <==> args.rest().len() == 0,
{
    match args.finish() {
        Ok(()) => Ok(()),
        Err(e) => Err(DispatchError::Wire(e)),
    }
}

/// Claim the empty slot of `new_id` for an object of type `T`, next to the
/// receiver `self_id`: fails when `new_id` is the receiver or its slot is occupied.
pub fn claim_slot<T: ObjectType>(objects: &mut Objects, self_id: Id<AnyObject>, new_id: Id<AnyObject>) -> (r: Result<
    VacantEntry<T>,
    DispatchError,
>)
    requires
        self_id.value() < usize::MAX,
        new_id.value() < usize::MAX,
    ensures
        extends(old(objects).slots(), final(objects).slots()),
        r is Ok <==> self_id.value() != new_id.value() && !(new_id.value() < old(objects).slots().len()
            && old(objects).slots()[new_id.value() as int] is Some),
        r matches Ok(e) ==> e.spec_id().value() == new_id.value() && e.spec_id().wf() == new_id.wf()
            && new_id.value() < final(objects).slots().len() && final(objects).slots()[new_id.value() as int] is None,
{
    let ids = [self_id, new_id];
    let ghost vals = crate::objects::id_values(ids@);
    proof {
        assert(vals[0] == self_id.value() && vals[1] == new_id.value());
    }
    let got = objects.get_many_mut(&ids);
    proof {
        if got is Ok {
            lemma_grown_extends(old(objects).slots(), needed_len(old(objects).slots().len(), vals));
        }
    }
    match got {
        Err(e) => {
            assert(final(objects).slots().take(old(objects).slots().len() as int) =~= old(objects).slots());
            assert(vals[0] == vals[1]);
            Err(DispatchError::Id(e))
        },
        Ok(mut entries) => {
            proof {
                assert(!crate::objects::has_duplicate(vals));
                if self_id.value() == new_id.value() {
                    assert(vals[0] == vals[1]);
                }
                let s = final(objects).slots();
                if new_id.value() < old(objects).slots().len() {
                    assert(s[new_id.value() as int] == s.take(old(objects).slots().len() as int)[new_id.value() as int]);
                }
            }
            let second = entries.remove(1);
            match second {
                Entry::Vacant(v) => Ok(v.downcast::<T>()),
                Entry::Occupied(_) => Err(DispatchError::Id(IdError::AlreadyExists)),
            }
        },
    }
}

/// `true` when the two strings hold the same characters.
pub fn str_eq(a: &str, b: &str) -> (r: bool)
    ensures
        r <==> a@ == b@,
{
    let x = a.as_bytes();
    let y = b.as_bytes();
    proof {
        vstd::utf8::encode_utf8_decode_utf8(a@);
        vstd::utf8::encode_utf8_decode_utf8(b@);
    }
    assert(a@ == b@ ==> x@ == y@);
    assert(x@ == y@ ==> a@ == b@);
    if x.len() != y.len() {
        return false;
    }
    let mut i: usize = 0;
    while i < x.len()
        invariant
            x@.len() == y@.len(),
            a@ == b@ ==> x@ == y@,
            x@ == y@ ==> a@ == b@,
            i <= x@.len(),
            forall|j: int| 0 <= j < i ==> x@[j] == y@[j],
        decreases x@.len() - i,
    {
        if x[i] != y[i] {
            assert(x@ != y@);
            return false;
        }
        i = i + 1;
    }
    assert(x@ =~= y@);
    true
}

/// Queue an event with one `uint` argument.
pub fn send_uint_event<T>(sender: &mut SendHalf, target: Id<T>, opcode: u16, value: u32) -> (r: Result<(), DispatchError>)
    requires
        old(sender).wf(),
    ensures
        final(sender).wf(),
        r is Ok ==> final(sender).pending() == old(sender).pending() + words_bytes(
            message_words(target.value(), opcode, seq![value]),
        ),
        r is Err ==> final(sender).pending() == old(sender).pending(),
        final(sender).pending_fds() == old(sender).pending_fds(),
        final(sender).head_offset() == old(sender).head_offset(),
        r is Ok <==> send_room(old(sender).pending().len(), old(sender).head_offset(), 3),
        r is Ok ==> final(sender).pending().len() == old(sender).pending().len() + 12,
{
    proof {
        old(sender).lemma_fds_bounded();
    }
    let body = [value];
    assert(body@ =~= seq![value]);
    match sender.submit(target, opcode, &body, &[]) {
        Ok(()) => {
            assert(old(sender).pending_fds() + Seq::<i32>::empty() =~= old(sender).pending_fds());
            Ok(())
        },
        Err(e) => Err(DispatchError::Send(e)),
    }
}

/// `ws` is the body of a `wl_registry.global` event for `name`, `iface` and `version`.
pub open spec fn global_body(name: u32, iface: Seq<char>, version: u32, ws: Seq<u32>) -> bool {
    &&& ws.len() >= 2
    &&& ws[0] == name
    &&& ws.last() == version
    &&& string_encoding(iface, ws.subrange(1, ws.len() - 1))
}

/// Queue a `wl_registry.global` event.
pub fn send_global<T>(sender: &mut SendHalf, target: Id<T>, name: u32, iface: &str, version: u32) -> (r: Result<(), DispatchError>)
    requires
        old(sender).wf(),
        encode_utf8(iface@).len() < u32::MAX,
    ensures
        final(sender).wf(),
        r is Ok ==> exists|ws: Seq<u32>| #[trigger] global_body(name, iface@, version, ws)
            && final(sender).pending() == old(sender).pending() + words_bytes(message_words(target.value(), 0, ws)),
        r is Err ==> final(sender).pending() == old(sender).pending(),
        final(sender).pending_fds() == old(sender).pending_fds(),
        final(sender).head_offset() == old(sender).head_offset(),
        r is Ok <==> send_room(
            old(sender).pending().len(),
            old(sender).head_offset(),
            crate::encode::string_words(encode_utf8(iface@).len()) + 4,
        ),
        r is Ok ==> final(sender).pending().len() == old(sender).pending().len() + 4 * (crate::encode::string_words(
            encode_utf8(iface@).len(),
        ) + 4),
{
    proof {
        old(sender).lemma_fds_bounded();
    }
    let mut body: Vec<u32> = Vec::new();
    encode_uint(&mut body, name);
    encode_string(&mut body, iface);
    let ghost mid = body@;
    proof {
        assert(mid.take(1) =~= seq![name]);
        assert(mid.take(1)[0] == mid[0]);
        assert(mid[0] == name);
    }
    encode_uint(&mut body, version);
    proof {
        assert(body@ == mid.push(version));
        assert(body@.subrange(1, body@.len() - 1) =~= mid.skip(1));
        assert(body@[0] == mid[0]);
    }
    match sender.submit(target, 0, body.as_slice(), &[]) {
        Ok(()) => {
            assert(old(sender).pending_fds() + Seq::<i32>::empty() =~= old(sender).pending_fds());
            assert(global_body(name, iface@, version, body@));
            Ok(())
        },
        Err(e) => Err(DispatchError::Send(e)),
    }
}

} // verus!
