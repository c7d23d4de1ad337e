//! The objects behind the core interfaces, and what their requests do.

use crate::args::Args;
use crate::buffer::{message_words, send_room, RecvHalf, RecvMessage, SendHalf};
use crate::dispatch::{
    claim_slot, decode_int, decode_new_id, decode_uint, extends, finish_args, global_body, send_global,
    send_uint_event, str_eq, DispatchError,
};
use crate::objects::{kind_of, AnyObject, IdError, ObjectKind, Objects};
use crate::wire::{words_bytes, Id};
use vstd::prelude::*;
use vstd::utf8::encode_utf8;

verus! {

/// The display singleton, always at id 1.
pub struct Display;

/// A one-shot completion callback.
pub struct Callback;

/// The registry of globals.
pub struct Registry;

/// The shared-memory global.
pub struct ShmGlobal;

/// A shared-memory pool: the descriptor the client sent and the pool size in bytes.
pub struct ShmPool {
    pub fd: i32,
    pub size: u32,
}

/// A buffer cut from a pool.
#[derive(Clone, Copy)]
pub struct ShmBuffer {
    pub pool_fd: i32,
    pub offset: u32,
    pub width: u32,
    pub height: u32,
    pub stride: u32,
    pub format: u32,
}

/// The compositor global.
pub struct Compositor;

/// Double-buffered state of a surface.
pub struct SurfaceState {
    pub buffer: Option<ShmBuffer>,
    pub offset: (i32, i32),
    pub scale: i32,
    pub transform: u32,
}

/// A surface: state being built by requests, and state made current by commit.
pub struct Surface {
    pub current: SurfaceState,
    pub pending: SurfaceState,
}

/// A region.
pub struct Region;

/// Pixel format `argb8888` of `wl_shm`.
pub const FORMAT_ARGB8888: u32 = 0;

/// Pixel format `xrgb8888` of `wl_shm`.
pub const FORMAT_XRGB8888: u32 = 1;

/// The state of a fresh surface, and of a pending state after commit.
pub open spec fn initial_state() -> SurfaceState {
    SurfaceState { buffer: None, offset: (0, 0), scale: 1, transform: 0 }
}

impl SurfaceState {
    /// A fresh state: no buffer, no offset, scale 1, normal transform.
    pub fn new() -> (r: Self)
        ensures
            r == initial_state(),
    {
        SurfaceState { buffer: None, offset: (0, 0), scale: 1, transform: 0 }
    }
}

/// `after` is `before` with a new object `o` at `id`, in a slot that was empty or new.
pub open spec fn created(before: Seq<Option<AnyObject>>, after: Seq<Option<AnyObject>>, id: u32, o: AnyObject) -> bool {
    exists|ext: Seq<Option<AnyObject>>|
        #![trigger extends(before, ext)]
        extends(before, ext) && id < ext.len() && ext[id as int] is None && after == ext.update(id as int, Some(o))
}

/// Preconditions shared by every request handler: the target slot holds an object
/// of `kind`, and the halves are well formed.
pub open spec fn handler_ready(
    objects: Objects,
    sender: SendHalf,
    recv: RecvHalf,
    message: RecvMessage,
    kind: ObjectKind,
) -> bool {
    let id = message.spec_object_id().value();
    &&& id < objects.slots().len()
    &&& id < usize::MAX
    &&& message.spec_object_id().wf()
    &&& objects.slots()[id as int] matches Some(o) && kind_of(o) == kind
    &&& sender.wf()
    &&& recv.wf()
}

/// The request carries exactly one word, a new id that is neither null nor the
/// receiver, whose slot is free, and that the table can index.
pub open spec fn new_slot_ok(objects: Objects, message: RecvMessage) -> bool {
    let a = message.spec_args();
    &&& a.len() == 1
    &&& a[0] != 0
    &&& (a[0] as int) < usize::MAX
    &&& a[0] != message.spec_object_id().value()
    &&& !(a[0] < objects.slots().len() && objects.slots()[a[0] as int] is Some)
}

/// Argument word `k` is a new id that is neither null nor the receiver, whose
/// slot is free, and that the table can index.
pub open spec fn fresh_id_at(objects: Objects, message: RecvMessage, k: int) -> bool {
    let a = message.spec_args();
    &&& 0 <= k < a.len()
    &&& a[k] != 0
    &&& (a[k] as int) < usize::MAX
    &&& a[k] != message.spec_object_id().value()
    &&& !(a[k] < objects.slots().len() && objects.slots()[a[k] as int] is Some)
}

/// A well-formed `bind` of global 1 as `wl_compositor` version 5 to a usable new id.
pub open spec fn bind_compositor_ok(objects: Objects, message: RecvMessage) -> bool {
    let a = message.spec_args();
    &&& a.len() == 8
    &&& a[0] == 1
    &&& crate::args::spec_string(a.skip(1), false) == Ok::<(Option<Seq<char>>, nat), crate::wire::WireError>((Some("wl_compositor"@), 5))
    &&& a[6] == 5
    &&& fresh_id_at(objects, message, 7)
}

/// A well-formed `bind` of global 0 as `wl_shm` version 1 to a usable new id.
pub open spec fn bind_shm_ok(objects: Objects, message: RecvMessage) -> bool {
    let a = message.spec_args();
    &&& a.len() == 6
    &&& a[0] == 0
    &&& crate::args::spec_string(a.skip(1), false) == Ok::<(Option<Seq<char>>, nat), crate::wire::WireError>((Some("wl_shm"@), 3))
    &&& a[4] == 1
    &&& a[5] != 0
    &&& (a[5] as int) < usize::MAX
    &&& a[5] != message.spec_object_id().value()
    &&& !(a[5] < objects.slots().len() && objects.slots()[a[5] as int] is Some)
}

/// What a `Display` request leaves: the table, the outgoing and incoming halves
/// before (`o0`, `s0`, `v0`) and after (`o1`, `s1`, `v1`), and the result.
pub open spec fn display_post(
    o0: Objects,
    o1: Objects,
    s0: SendHalf,
    s1: SendHalf,
    v0: RecvHalf,
    v1: RecvHalf,
    message: RecvMessage,
    r: Result<(), DispatchError>,
) -> bool {
    &&& v1 == v0
    &&& s1.wf()
    &&& v1.wf()
    &&& o0.slots().len() <= o1.slots().len()
    &&& message.spec_opcode() > 1 ==> r == Err::<(), DispatchError>(DispatchError::UnknownOpcode)
    &&& message.spec_opcode() == 0 && new_slot_ok(o0, message)
        && send_room(s0.pending().len(), s0.head_offset(), 3) ==> r is Ok
    &&& message.spec_opcode() == 1 && new_slot_ok(o0, message)
        && send_room(s0.pending().len(), s0.head_offset(), 16) ==> r is Ok
    &&& message.spec_opcode() == 0 && r is Ok ==> message.spec_args().len() == 1
        && extends(o0.slots(), o1.slots())
        && message.spec_args()[0] < o1.slots().len() && o1.slots()[message.spec_args()[0] as int] is None
        && s1.pending() == s0.pending() + words_bytes(
            message_words(message.spec_args()[0], 0, seq![0u32]),
        )
    &&& message.spec_opcode() == 1 && r is Ok ==> message.spec_args().len() == 1
        && created(o0.slots(), o1.slots(), message.spec_args()[0], AnyObject::Registry(Registry))
        && exists|w1: Seq<u32>, w2: Seq<u32>|
            #[trigger] global_body(0, "wl_shm"@, 1, w1) && #[trigger] global_body(1, "wl_compositor"@, 5, w2)
            && s1.pending() == s0.pending() + words_bytes(message_words(message.spec_args()[0], 0, w1))
            + words_bytes(message_words(message.spec_args()[0], 0, w2))
}

/// What a `Callback` request leaves: the table, the outgoing and incoming halves
/// before (`o0`, `s0`, `v0`) and after (`o1`, `s1`, `v1`), and the result.
pub open spec fn callback_post(
    o0: Objects,
    o1: Objects,
    s0: SendHalf,
    s1: SendHalf,
    v0: RecvHalf,
    v1: RecvHalf,
    message: RecvMessage,
    r: Result<(), DispatchError>,
) -> bool {
    &&& s1 == s0
    &&& v1 == v0
    &&& r == Err::<(), DispatchError>(DispatchError::UnknownOpcode)
    &&& o1.slots() == o0.slots()
}

/// What a `Registry` request leaves: the table, the outgoing and incoming halves
/// before (`o0`, `s0`, `v0`) and after (`o1`, `s1`, `v1`), and the result.
pub open spec fn registry_post(
    o0: Objects,
    o1: Objects,
    s0: SendHalf,
    s1: SendHalf,
    v0: RecvHalf,
    v1: RecvHalf,
    message: RecvMessage,
    r: Result<(), DispatchError>,
) -> bool {
    &&& v1 == v0
    &&& s1.wf()
    &&& v1.wf()
    &&& o0.slots().len() <= o1.slots().len()
    &&& message.spec_opcode() > 0 ==> r == Err::<(), DispatchError>(DispatchError::UnknownOpcode)
    &&& message.spec_opcode() == 0 && bind_compositor_ok(o0, message) ==> r is Ok
    &&& message.spec_opcode() == 0 && bind_shm_ok(o0, message)
        && send_room(s0.pending().len(), s0.head_offset(), 6) ==> r is Ok
    &&& r is Ok ==> message.spec_args().len() >= 1 && (
        (message.spec_args()[0] == 0 && created(o0.slots(), o1.slots(),
            message.spec_args().last(), AnyObject::ShmGlobal(ShmGlobal))
            && s1.pending() == s0.pending()
                + words_bytes(message_words(message.spec_args().last(), 0, seq![FORMAT_ARGB8888]))
                + words_bytes(message_words(message.spec_args().last(), 0, seq![FORMAT_XRGB8888])))
        || (message.spec_args()[0] == 1 && created(o0.slots(), o1.slots(),
            message.spec_args().last(), AnyObject::Compositor(Compositor))
            && s1.pending() == s0.pending()))
}

/// What a `ShmGlobal` request leaves: the table, the outgoing and incoming halves
/// before (`o0`, `s0`, `v0`) and after (`o1`, `s1`, `v1`), and the result.
pub open spec fn shm_global_post(
    o0: Objects,
    o1: Objects,
    s0: SendHalf,
    s1: SendHalf,
    v0: RecvHalf,
    v1: RecvHalf,
    message: RecvMessage,
    r: Result<(), DispatchError>,
) -> bool {
    &&& v1.buffered() == v0.buffered()
    &&& s1 == s0
    &&& s1.wf()
    &&& v1.wf()
    &&& s1.pending() == s0.pending()
    &&& o0.slots().len() <= o1.slots().len()
    &&& message.spec_opcode() > 0 ==> r == Err::<(), DispatchError>(DispatchError::UnknownOpcode)
    &&& r is Err ==> extends(o0.slots(), o1.slots())
    &&& message.spec_opcode() == 0 && fresh_id_at(o0, message, 0) && message.spec_args().len() == 2
        && (message.spec_args()[1] as i32) >= 0 && v0.queued_fds().len() > 0 ==> r is Ok
    &&& r is Ok ==> message.spec_args().len() == 2 && v0.queued_fds().len() > 0
        && (message.spec_args()[1] as i32) >= 0
        && created(o0.slots(), o1.slots(), message.spec_args()[0],
            AnyObject::ShmPool(ShmPool { fd: v0.queued_fds()[0], size: message.spec_args()[1] }))
        && v1.queued_fds() == v0.queued_fds().drop_first()
}

/// What a `ShmPool` request leaves: the table, the outgoing and incoming halves
/// before (`o0`, `s0`, `v0`) and after (`o1`, `s1`, `v1`), and the result.
pub open spec fn shm_pool_post(
    o0: Objects,
    o1: Objects,
    s0: SendHalf,
    s1: SendHalf,
    v0: RecvHalf,
    v1: RecvHalf,
    message: RecvMessage,
    r: Result<(), DispatchError>,
) -> bool {
    &&& s1 == s0
    &&& v1 == v0
    &&& s1.wf()
    &&& v1.wf()
    &&& s1.pending() == s0.pending()
    &&& o0.slots().len() <= o1.slots().len()
    &&& message.spec_opcode() > 2 ==> r == Err::<(), DispatchError>(DispatchError::UnknownOpcode)
    &&& message.spec_opcode() == 1 && message.spec_args().len() == 0 ==> r is Ok
    &&& message.spec_opcode() == 2 ==> match o0.slots()[message.spec_object_id().value() as int] {
        Some(AnyObject::ShmPool(p)) => message.spec_args().len() == 1 && (message.spec_args()[0] as i32) >= 0
            && p.size <= message.spec_args()[0] ==> r is Ok,
        _ => true,
    }
    &&& message.spec_opcode() == 0 && fresh_id_at(o0, message, 0) && message.spec_args().len() == 6
        && (message.spec_args()[1] as i32) >= 0 && (message.spec_args()[2] as i32) >= 0
        && (message.spec_args()[3] as i32) >= 0 && (message.spec_args()[4] as i32) >= 0
        && (message.spec_args()[5] == FORMAT_ARGB8888 || message.spec_args()[5] == FORMAT_XRGB8888) ==> r is Ok
    &&& message.spec_opcode() == 1 && r is Ok ==> o1.slots() == o0.slots().update(
        message.spec_object_id().value() as int,
        None,
    )
    &&& message.spec_opcode() == 2 && r is Ok ==> (o0.slots()[message.spec_object_id().value() as int] matches Some(AnyObject::ShmPool(p))
        && message.spec_args().len() == 1 && (message.spec_args()[0] as i32) >= 0 && p.size <= message.spec_args()[0]
        && o1.slots() == o0.slots().update(
            message.spec_object_id().value() as int,
            Some(AnyObject::ShmPool(ShmPool { fd: p.fd, size: message.spec_args()[0] })),
        ))
    &&& message.spec_opcode() == 0 && r is Ok ==> (o0.slots()[message.spec_object_id().value() as int] matches Some(AnyObject::ShmPool(p))
        && message.spec_args().len() == 6
        && (message.spec_args()[5] == FORMAT_ARGB8888 || message.spec_args()[5] == FORMAT_XRGB8888)
        && created(o0.slots(), o1.slots(), message.spec_args()[0],
            AnyObject::ShmBuffer(ShmBuffer {
                pool_fd: p.fd,
                offset: message.spec_args()[1],
                width: message.spec_args()[2],
                height: message.spec_args()[3],
                stride: message.spec_args()[4],
                format: message.spec_args()[5],
            })))
}

/// What a `ShmBuffer` request leaves: the table, the outgoing and incoming halves
/// before (`o0`, `s0`, `v0`) and after (`o1`, `s1`, `v1`), and the result.
pub open spec fn shm_buffer_post(
    o0: Objects,
    o1: Objects,
    s0: SendHalf,
    s1: SendHalf,
    v0: RecvHalf,
    v1: RecvHalf,
    message: RecvMessage,
    r: Result<(), DispatchError>,
) -> bool {
    &&& s1 == s0
    &&& v1 == v0
    &&& message.spec_opcode() > 0 ==> r == Err::<(), DispatchError>(DispatchError::UnknownOpcode)
    &&& message.spec_opcode() == 0 && message.spec_args().len() == 0 ==> r is Ok
    &&& r is Ok ==> o1.slots() == o0.slots().update(message.spec_object_id().value() as int, None)
    &&& r is Err ==> o1.slots() == o0.slots()
}

/// What a `Region` request leaves: the table, the outgoing and incoming halves
/// before (`o0`, `s0`, `v0`) and after (`o1`, `s1`, `v1`), and the result.
pub open spec fn region_post(
    o0: Objects,
    o1: Objects,
    s0: SendHalf,
    s1: SendHalf,
    v0: RecvHalf,
    v1: RecvHalf,
    message: RecvMessage,
    r: Result<(), DispatchError>,
) -> bool {
    &&& s1 == s0
    &&& v1 == v0
    &&& message.spec_opcode() > 2 ==> r == Err::<(), DispatchError>(DispatchError::UnknownOpcode)
    &&& message.spec_opcode() == 0 && message.spec_args().len() == 0 ==> r is Ok
    &&& message.spec_opcode() == 0 && r is Ok ==> o1.slots() == o0.slots().update(
        message.spec_object_id().value() as int,
        None,
    )
    &&& message.spec_opcode() != 0 ==> o1.slots() == o0.slots()
    &&& message.spec_opcode() != 0 ==> (r is Ok <==> message.spec_opcode() <= 2 && message.spec_args().len() == 4)
    &&& r is Err ==> o1.slots() == o0.slots()
}

/// What a `Compositor` request leaves: the table, the outgoing and incoming halves
/// before (`o0`, `s0`, `v0`) and after (`o1`, `s1`, `v1`), and the result.
pub open spec fn compositor_post(
    o0: Objects,
    o1: Objects,
    s0: SendHalf,
    s1: SendHalf,
    v0: RecvHalf,
    v1: RecvHalf,
    message: RecvMessage,
    r: Result<(), DispatchError>,
) -> bool {
    &&& s1 == s0
    &&& v1 == v0
    &&& o0.slots().len() <= o1.slots().len()
    &&& message.spec_opcode() > 1 ==> r == Err::<(), DispatchError>(DispatchError::UnknownOpcode)
    &&& message.spec_opcode() <= 1 ==> (r is Ok <==> new_slot_ok(o0, message))
    &&& message.spec_opcode() == 0 && r is Ok ==> message.spec_args().len() == 1 && created(
        o0.slots(),
        o1.slots(),
        message.spec_args()[0],
        AnyObject::Surface(Surface { current: initial_state(), pending: initial_state() }),
    )
    &&& message.spec_opcode() == 1 && r is Ok ==> message.spec_args().len() == 1 && created(
        o0.slots(),
        o1.slots(),
        message.spec_args()[0],
        AnyObject::Region(Region),
    )
}

/// What a `Surface` request leaves: the table, the outgoing and incoming halves
/// before (`o0`, `s0`, `v0`) and after (`o1`, `s1`, `v1`), and the result.
pub open spec fn surface_post(
    o0: Objects,
    o1: Objects,
    s0: SendHalf,
    s1: SendHalf,
    v0: RecvHalf,
    v1: RecvHalf,
    message: RecvMessage,
    r: Result<(), DispatchError>,
) -> bool {
    &&& s1 == s0
    &&& v1 == v0
    &&& o0.slots().len() <= o1.slots().len()
    &&& message.spec_opcode() == 6 && message.spec_args().len() == 0 ==> r is Ok
    &&& message.spec_opcode() == 0 && message.spec_args().len() == 0 ==> r is Ok
    &&& message.spec_opcode() == 1 && message.spec_args().len() == 3 && (message.spec_args()[0] == 0 || (
        message.spec_args()[0] < o0.slots().len()
        && o0.slots()[message.spec_args()[0] as int] matches Some(AnyObject::ShmBuffer(_)))) ==> r is Ok
    &&& message.spec_opcode() == 3 && fresh_id_at(o0, message, 0) && message.spec_args().len() == 1 ==> r is Ok
    &&& message.spec_opcode() == 7 && message.spec_args().len() == 1 && (message.spec_args()[0] as i32) >= 0
        && (message.spec_args()[0] as i32) <= 7 ==> r is Ok
    &&& message.spec_opcode() == 8 && message.spec_args().len() == 1 ==> r is Ok
    &&& message.spec_opcode() == 10 && message.spec_args().len() == 2 ==> r is Ok
    &&& message.spec_opcode() > 10 ==> r == Err::<(), DispatchError>(DispatchError::UnknownOpcode)
    &&& ({
        let id = message.spec_object_id().value() as int;
        let a = message.spec_args();
        match o0.slots()[id] {
        Some(AnyObject::Surface(s)) => r is Ok ==> match message.spec_opcode() {
            0 => o1.slots() == o0.slots().update(id, None),
            1 => a.len() == 3 && (a[0] == 0 || (a[0] < o0.slots().len()
                && o0.slots()[a[0] as int] matches Some(AnyObject::ShmBuffer(_))))
                && o1.slots() == with_pending(o0.slots(), id,
                SurfaceState { buffer: attached_buffer(o0.slots(), a[0]), offset: (a[1] as i32, a[2] as i32), scale: s.pending.scale, transform: s.pending.transform }),
            3 => a.len() == 1 && created(o0.slots(), o1.slots(), a[0], AnyObject::Callback(Callback)),
            6 => a.len() == 0 && o1.slots() == o0.slots().update(id,
                Some(AnyObject::Surface(Surface { current: s.pending, pending: initial_state() }))),
            7 => a.len() == 1 && (a[0] as i32) >= 0 && (a[0] as i32) <= 7 && o1.slots() == with_pending(o0.slots(), id,
                SurfaceState { transform: a[0], ..s.pending }),
            8 => a.len() == 1 && o1.slots() == with_pending(o0.slots(), id,
                SurfaceState { scale: a[0] as i32, ..s.pending }),
            10 => a.len() == 2 && o1.slots() == with_pending(o0.slots(), id,
                SurfaceState { offset: (a[0] as i32, a[1] as i32), ..s.pending }),
            _ => o1.slots() == o0.slots(),
        },
        _ => true,
        }
    })
}

/// What dispatching `message` leaves: an error for a target past the end of
/// the table, nothing changed for an empty slot, else what the handler of the
/// target's interface leaves.
pub open spec fn dispatched(
    o0: Objects,
    o1: Objects,
    s0: SendHalf,
    s1: SendHalf,
    v0: RecvHalf,
    v1: RecvHalf,
    message: RecvMessage,
    r: Result<(), DispatchError>,
) -> bool {
    let id = message.spec_object_id().value();
    if id >= o0.slots().len() {
        r == Err::<(), DispatchError>(DispatchError::Id(IdError::NoSuchObject)) && o1.slots() == o0.slots()
    } else {
        match o0.slots()[id as int] {
            Some(o) => handled(kind_of(o), o0, o1, s0, s1, v0, v1, message, r),
            None => r is Ok && o1.slots() == o0.slots() && s1 == s0 && v1 == v0,
        }
    }
}

/// What a request to an object of interface `kind` leaves.
pub open spec fn handled(
    kind: ObjectKind,
    o0: Objects,
    o1: Objects,
    s0: SendHalf,
    s1: SendHalf,
    v0: RecvHalf,
    v1: RecvHalf,
    message: RecvMessage,
    r: Result<(), DispatchError>,
) -> bool {
    match kind {
        ObjectKind::Display => display_post(o0, o1, s0, s1, v0, v1, message, r),
        ObjectKind::Callback => callback_post(o0, o1, s0, s1, v0, v1, message, r),
        ObjectKind::Registry => registry_post(o0, o1, s0, s1, v0, v1, message, r),
        ObjectKind::ShmGlobal => shm_global_post(o0, o1, s0, s1, v0, v1, message, r),
        ObjectKind::ShmPool => shm_pool_post(o0, o1, s0, s1, v0, v1, message, r),
        ObjectKind::ShmBuffer => shm_buffer_post(o0, o1, s0, s1, v0, v1, message, r),
        ObjectKind::Region => region_post(o0, o1, s0, s1, v0, v1, message, r),
        ObjectKind::Compositor => compositor_post(o0, o1, s0, s1, v0, v1, message, r),
        ObjectKind::Surface => surface_post(o0, o1, s0, s1, v0, v1, message, r),
    }
}

proof fn lemma_extends_refl(s: Seq<Option<AnyObject>>)
    ensures
        extends(s, s),
{
    assert(s.take(s.len() as int) =~= s);
}

impl Display {
    /// `wl_display` requests: `sync` (opcode 0) creates a callback, sends its
    /// `done` event with data 0 and destroys it; `get_registry` (opcode 1)
    /// creates a registry and sends it the globals.
    #[verifier::rlimit(40)]
    pub fn handle_request(objects: &mut Objects, sender: &mut SendHalf, recv: &mut RecvHalf, message: RecvMessage) -> (r: Result<(), DispatchError>)
        requires
            handler_ready(*old(objects), *old(sender), *old(recv), message, ObjectKind::Display),
        ensures
            display_post(*old(objects), *final(objects), *old(sender), *final(sender), *old(recv), *final(recv), message, r),
    {
        let self_id = message.object_id();
        let opcode = message.opcode();
        proof {
            lemma_extends_refl(old(objects).slots());
        }
        if opcode > 1 {
            return Err(DispatchError::UnknownOpcode);
        }
        let mut args = Args::new(message.args());
        let new_id = decode_new_id(&mut args)?;
        finish_args(args)?;
        assert(message.spec_args() =~= seq![new_id.value()]);
        if opcode == 0 {
            let slot = claim_slot::<Callback>(objects, self_id, new_id)?;
            let id = slot.id();
            let ghost mid = objects.slots();
            let occupied = slot.insert(objects, Callback);
            let _done = occupied.take(objects);
            assert(objects.slots() =~= mid);
            send_uint_event(sender, id, 0, 0)
        } else {
            let slot = claim_slot::<Registry>(objects, self_id, new_id)?;
            let id = slot.id();
            let ghost ext = objects.slots();
            slot.insert(objects, Registry);
            proof {
                lemma_extends_refl(objects.slots());
                assert(created(old(objects).slots(), objects.slots(), new_id.value(), AnyObject::Registry(Registry)));
            }
            Registry::send_globals(sender, id)
        }
    }
}

impl Registry {
    /// Send the two globals: `wl_shm` version 1 as name 0 and `wl_compositor`
    /// version 5 as name 1.
    pub fn send_globals(sender: &mut SendHalf, id: Id<Registry>) -> (r: Result<(), DispatchError>)
        requires
            old(sender).wf(),
        ensures
            final(sender).wf(),
            send_room(old(sender).pending().len(), old(sender).head_offset(), 16) ==> r is Ok,
            r is Ok ==> exists|w1: Seq<u32>, w2: Seq<u32>|
                #[trigger] global_body(0, "wl_shm"@, 1, w1) && #[trigger] global_body(1, "wl_compositor"@, 5, w2)
                && final(sender).pending() == old(sender).pending() + words_bytes(message_words(id.value(), 0, w1))
                + words_bytes(message_words(id.value(), 0, w2)),
    {
        proof {
            reveal_strlit("wl_shm");
            reveal_strlit("wl_compositor");
            vstd::utf8::is_ascii_chars_encode_utf8("wl_shm"@);
            vstd::utf8::is_ascii_chars_encode_utf8("wl_compositor"@);
            assert(encode_utf8("wl_shm"@).len() == 6);
            assert(encode_utf8("wl_compositor"@).len() == 13);
        }
        send_global(sender, id, 0, "wl_shm", 1)?;
        let ghost mid = sender.pending();
        send_global(sender, id, 1, "wl_compositor", 5)?;
        Ok(())
    }

    /// `wl_registry.bind` (opcode 0): name, interface, version and a new id.
    /// Binds `wl_shm` v1 as name 0, sending its formats, and `wl_compositor` v5
    /// as name 1; any other triple is refused.
    #[verifier::rlimit(40)]
    pub fn handle_request(objects: &mut Objects, sender: &mut SendHalf, recv: &mut RecvHalf, message: RecvMessage) -> (r: Result<(), DispatchError>)
        requires
            handler_ready(*old(objects), *old(sender), *old(recv), message, ObjectKind::Registry),
        ensures
            registry_post(*old(objects), *final(objects), *old(sender), *final(sender), *old(recv), *final(recv), message, r),
    {
        let self_id = message.object_id();
        proof {
            lemma_extends_refl(old(objects).slots());
        }
        if message.opcode() != 0 {
            return Err(DispatchError::UnknownOpcode);
        }
        let mut args = Args::new(message.args());
        let ghost all = args.rest();
        let name = decode_uint(&mut args)?;
        let iface = match args.take_string(false) {
            Ok(Some(s)) => s,
            Ok(None) => {
                return Err(DispatchError::Wire(crate::wire::WireError::NullArgument));
            },
            Err(e) => {
                return Err(DispatchError::Wire(e));
            },
        };
        let version = decode_uint(&mut args)?;
        let ghost before_id = args.rest();
        let new_id = decode_new_id(&mut args)?;
        finish_args(args)?;
        proof {
            assert(all[0] == name);
            assert(before_id.skip(1).len() == 0);
            assert(all.last() == new_id.value()) by {
                assert(before_id == all.skip(all.len() - 1));
            }
        }
        proof {
            reveal_strlit("wl_shm");
            reveal_strlit("wl_compositor");
        }
        if name == 0 && str_eq(iface.as_str(), "wl_shm") && version == 1 {
            let slot = claim_slot::<ShmGlobal>(objects, self_id, new_id)?;
            let id = slot.id();
            slot.insert(objects, ShmGlobal);
            proof {
                lemma_extends_refl(objects.slots());
            }
            send_uint_event(sender, id, 0, FORMAT_ARGB8888)?;
            send_uint_event(sender, id, 0, FORMAT_XRGB8888)
        } else if name == 1 && str_eq(iface.as_str(), "wl_compositor") && version == 5 {
            let slot = claim_slot::<Compositor>(objects, self_id, new_id)?;
            slot.insert(objects, Compositor);
            proof {
                lemma_extends_refl(objects.slots());
            }
            Ok(())
        } else {
            Err(DispatchError::InvalidArgument)
        }
    }
}

/// Empty the receiver's slot for a destructor request that carries no arguments.
fn destroy_receiver(objects: &mut Objects, message: &RecvMessage) -> (r: Result<(), DispatchError>)
    requires
        message.spec_object_id().value() < old(objects).slots().len(),
    ensures
        r is Ok <==> message.spec_args().len() == 0,
        r is Ok ==> final(objects).slots() == old(objects).slots().update(message.spec_object_id().value() as int, None),
        r is Err ==> final(objects).slots() == old(objects).slots(),
{
    let args = Args::new(message.args());
    finish_args(args)?;
    let _gone = objects.take_slot(message.object_id().into_usize());
    Ok(())
}

impl Callback {
    /// `wl_callback` has no requests.
    #[verifier::rlimit(40)]
    pub fn handle_request(objects: &mut Objects, sender: &mut SendHalf, recv: &mut RecvHalf, message: RecvMessage) -> (r: Result<(), DispatchError>)
        ensures
            callback_post(*old(objects), *final(objects), *old(sender), *final(sender), *old(recv), *final(recv), message, r),
    {
        Err(DispatchError::UnknownOpcode)
    }
}

impl ShmGlobal {
    /// `wl_shm.create_pool` (opcode 0): a new id, a descriptor and a size. Creates
    /// a pool owning the descriptor; a negative size is refused.
    #[verifier::rlimit(40)]
    pub fn handle_request(objects: &mut Objects, sender: &mut SendHalf, recv: &mut RecvHalf, message: RecvMessage) -> (r: Result<(), DispatchError>)
        requires
            handler_ready(*old(objects), *old(sender), *old(recv), message, ObjectKind::ShmGlobal),
        ensures
            shm_global_post(*old(objects), *final(objects), *old(sender), *final(sender), *old(recv), *final(recv), message, r),
    {
        let self_id = message.object_id();
        proof {
            lemma_extends_refl(old(objects).slots());
        }
        if message.opcode() != 0 {
            return Err(DispatchError::UnknownOpcode);
        }
        let mut args = Args::new(message.args());
        let ghost all = args.rest();
        let new_id = decode_new_id(&mut args)?;
        let fd = match recv.take_fd() {
            Ok(fd) => fd,
            Err(e) => {
                return Err(DispatchError::Wire(e));
            },
        };
        let size = decode_int(&mut args)?;
        finish_args(args)?;
        assert(all =~= seq![new_id.value(), size as u32]) by {
            assert(all[0] == new_id.value());
            assert(all.skip(1)[0] as i32 == size);
            assert(all[1] == all.skip(1)[0]);
            assert(all.skip(1).skip(1).len() == 0);
            assert((size as u32) as i32 == size) by (bit_vector);
            assert(all[1] as i32 == size);
            let w = all[1];
            assert((w as i32) as u32 == w) by (bit_vector);
        }
        if size < 0 {
            return Err(DispatchError::InvalidArgument);
        }
        let slot = claim_slot::<ShmPool>(objects, self_id, new_id)?;
        slot.insert(objects, ShmPool { fd, size: size as u32 });
        proof {
            lemma_extends_refl(objects.slots());
        }
        Ok(())
    }
}

impl ShmPool {
    /// `wl_shm_pool` requests: `create_buffer` (opcode 0) cuts a buffer from the
    /// pool, refusing negative geometry and formats other than argb8888 and
    /// xrgb8888; `destroy` (opcode 1) drops the pool; `resize` (opcode 2) grows
    /// it, refusing a negative or smaller size.
    #[verifier::rlimit(40)]
    pub fn handle_request(objects: &mut Objects, sender: &mut SendHalf, recv: &mut RecvHalf, message: RecvMessage) -> (r: Result<(), DispatchError>)
        requires
            handler_ready(*old(objects), *old(sender), *old(recv), message, ObjectKind::ShmPool),
        ensures
            shm_pool_post(*old(objects), *final(objects), *old(sender), *final(sender), *old(recv), *final(recv), message, r),
    {
        let self_id = message.object_id();
        let idx = self_id.into_usize();
        proof {
            lemma_extends_refl(old(objects).slots());
        }
        let opcode = message.opcode();
        let (pool_fd, pool_size) = match objects.get(idx) {
            Some(AnyObject::ShmPool(p)) => (p.fd, p.size),
            _ => {
                return Err(DispatchError::Id(IdError::WrongType));
            },
        };
        if opcode == 1 {
            return destroy_receiver(objects, &message);
        }
        let mut args = Args::new(message.args());
        let ghost all = args.rest();
        if opcode == 2 {
            let size = decode_int(&mut args)?;
            finish_args(args)?;
            proof {
                let w = all[0];
                assert((w as i32) as u32 == w) by (bit_vector);
                assert(all[0] as i32 == size);
            }
            if size < 0 || (size as u32) < pool_size {
                return Err(DispatchError::InvalidArgument);
            }
            objects.put_slot(idx, AnyObject::ShmPool(ShmPool { fd: pool_fd, size: size as u32 }));
            return Ok(());
        }
        if opcode != 0 {
            return Err(DispatchError::UnknownOpcode);
        }
        let new_id = decode_new_id(&mut args)?;
        let ghost a1 = args.rest();
        let offset = decode_int(&mut args)?;
        let ghost a2 = args.rest();
        let width = decode_int(&mut args)?;
        let ghost a3 = args.rest();
        let height = decode_int(&mut args)?;
        let ghost a4 = args.rest();
        let stride = decode_int(&mut args)?;
        let ghost a5 = args.rest();
        let format = decode_uint(&mut args)?;
        finish_args(args)?;
        if offset < 0 || width < 0 || height < 0 || stride < 0 {
            return Err(DispatchError::InvalidArgument);
        }
        if format != FORMAT_ARGB8888 && format != FORMAT_XRGB8888 {
            return Err(DispatchError::InvalidArgument);
        }
        proof {
            assert(a1 == all.skip(1));
            assert(a2 == all.skip(2));
            assert(a3 == all.skip(3));
            assert(a4 == all.skip(4));
            assert(a5 == all.skip(5));
            assert(all.len() == 6);
            let (w1, w2, w3, w4) = (all[1], all[2], all[3], all[4]);
            assert(w1 == a1[0] && w2 == a2[0] && w3 == a3[0] && w4 == a4[0]);
            assert((w1 as i32) as u32 == w1) by (bit_vector);
            assert((w2 as i32) as u32 == w2) by (bit_vector);
            assert((w3 as i32) as u32 == w3) by (bit_vector);
            assert((w4 as i32) as u32 == w4) by (bit_vector);
            assert(all[5] == a5[0]);
        }
        let slot = claim_slot::<ShmBuffer>(objects, self_id, new_id)?;
        slot.insert(
            objects,
            ShmBuffer {
                pool_fd,
                offset: offset as u32,
                width: width as u32,
                height: height as u32,
                stride: stride as u32,
                format,
            },
        );
        proof {
            lemma_extends_refl(objects.slots());
        }
        Ok(())
    }
}

impl ShmBuffer {
    /// `wl_buffer.destroy` (opcode 0) drops the buffer.
    #[verifier::rlimit(40)]
    pub fn handle_request(objects: &mut Objects, sender: &mut SendHalf, recv: &mut RecvHalf, message: RecvMessage) -> (r: Result<(), DispatchError>)
        requires
            handler_ready(*old(objects), *old(sender), *old(recv), message, ObjectKind::ShmBuffer),
        ensures
            shm_buffer_post(*old(objects), *final(objects), *old(sender), *final(sender), *old(recv), *final(recv), message, r),
    {
        if message.opcode() != 0 {
            return Err(DispatchError::UnknownOpcode);
        }
        destroy_receiver(objects, &message)
    }
}

impl Region {
    /// `wl_region` requests: `destroy` (opcode 0) drops the region; `add` and
    /// `subtract` (opcodes 1 and 2) take a rectangle and change nothing kept.
    #[verifier::rlimit(40)]
    pub fn handle_request(objects: &mut Objects, sender: &mut SendHalf, recv: &mut RecvHalf, message: RecvMessage) -> (r: Result<(), DispatchError>)
        requires
            handler_ready(*old(objects), *old(sender), *old(recv), message, ObjectKind::Region),
        ensures
            region_post(*old(objects), *final(objects), *old(sender), *final(sender), *old(recv), *final(recv), message, r),
    {
        let opcode = message.opcode();
        if opcode == 0 {
            return destroy_receiver(objects, &message);
        }
        if opcode > 2 {
            return Err(DispatchError::UnknownOpcode);
        }
        expect_words(&message, 4)
    }
}

/// Accept a request whose arguments are exactly `n` words of any value.
fn expect_words(message: &RecvMessage, n: usize) -> (r: Result<(), DispatchError>)
    ensures
        r is Ok <==> message.spec_args().len() == n,
{
    if message.args().len() == n {
        Ok(())
    } else if message.args().len() < n {
        Err(DispatchError::Wire(crate::wire::WireError::TooFewArgs))
    } else {
        Err(DispatchError::Wire(crate::wire::WireError::TooManyArgs))
    }
}

impl Compositor {
    /// `wl_compositor` requests: `create_surface` (opcode 0) and `create_region`
    /// (opcode 1) each create an object at a new id.
    #[verifier::rlimit(40)]
    pub fn handle_request(objects: &mut Objects, sender: &mut SendHalf, recv: &mut RecvHalf, message: RecvMessage) -> (r: Result<(), DispatchError>)
        requires
            handler_ready(*old(objects), *old(sender), *old(recv), message, ObjectKind::Compositor),
        ensures
            compositor_post(*old(objects), *final(objects), *old(sender), *final(sender), *old(recv), *final(recv), message, r),
    {
        let self_id = message.object_id();
        proof {
            lemma_extends_refl(old(objects).slots());
        }
        let opcode = message.opcode();
        if opcode > 1 {
            return Err(DispatchError::UnknownOpcode);
        }
        let mut args = Args::new(message.args());
        let new_id = decode_new_id(&mut args)?;
        finish_args(args)?;
        proof {
            new_id.lemma_value_wf();
        }
        assert(message.spec_args() =~= seq![new_id.value()]);
        if opcode == 0 {
            let slot = claim_slot::<Surface>(objects, self_id, new_id)?;
            slot.insert(objects, Surface { current: SurfaceState::new(), pending: SurfaceState::new() });
        } else {
            let slot = claim_slot::<Region>(objects, self_id, new_id)?;
            slot.insert(objects, Region);
        }
        proof {
            lemma_extends_refl(objects.slots());
        }
        Ok(())
    }
}

/// The buffer named by the word `w` of an `attach`: none for null, else the
/// buffer object at that id.
pub open spec fn attached_buffer(slots: Seq<Option<AnyObject>>, w: u32) -> Option<ShmBuffer> {
    if w == 0 {
        None
    } else {
        match slots[w as int] {
            Some(AnyObject::ShmBuffer(b)) => Some(b),
            _ => None,
        }
    }
}

/// The surface at `id` in `slots`, with its pending state replaced by `pending`.
pub open spec fn with_pending(slots: Seq<Option<AnyObject>>, id: int, pending: SurfaceState) -> Seq<Option<AnyObject>> {
    match slots[id] {
        Some(AnyObject::Surface(s)) => slots.update(id, Some(AnyObject::Surface(Surface { current: s.current, pending }))),
        _ => slots,
    }
}

impl Surface {
    /// `wl_surface` requests. `destroy` (0) drops the surface; `attach` (1) sets
    /// the pending buffer (a buffer object or null) and offset; `frame` (3)
    /// creates a callback; `commit` (6) makes the pending state current and
    /// starts a fresh pending state; `set_buffer_transform` (7),
    /// `set_buffer_scale` (8) and `offset` (10) set the pending field;
    /// `damage` (2), `set_opaque_region` (4), `set_input_region` (5) and
    /// `damage_buffer` (9) are accepted and keep nothing.
    #[verifier::rlimit(40)]
    pub fn handle_request(objects: &mut Objects, sender: &mut SendHalf, recv: &mut RecvHalf, message: RecvMessage) -> (r: Result<(), DispatchError>)
        requires
            handler_ready(*old(objects), *old(sender), *old(recv), message, ObjectKind::Surface),
        ensures
            surface_post(*old(objects), *final(objects), *old(sender), *final(sender), *old(recv), *final(recv), message, r),
    {
        let self_id = message.object_id();
        let idx = self_id.into_usize();
        let opcode = message.opcode();
        proof {
            lemma_extends_refl(old(objects).slots());
        }
        if opcode > 10 {
            return Err(DispatchError::UnknownOpcode);
        }
        if opcode == 0 {
            return destroy_receiver(objects, &message);
        }
        if opcode == 2 || opcode == 9 {
            return expect_words(&message, 4);
        }
        if opcode == 4 || opcode == 5 {
            return expect_words(&message, 1);
        }
        let mut args = Args::new(message.args());
        let ghost all = args.rest();
        if opcode == 3 {
            let new_id = decode_new_id(&mut args)?;
            finish_args(args)?;
            assert(all =~= seq![new_id.value()]);
            let slot = claim_slot::<Callback>(objects, self_id, new_id)?;
            slot.insert(objects, Callback);
            proof {
                lemma_extends_refl(objects.slots());
            }
            return Ok(());
        }
        if opcode == 6 {
            finish_args(args)?;
            let taken = objects.take_slot(idx);
            match taken {
                Some(AnyObject::Surface(s)) => {
                    let committed = Surface { current: s.pending, pending: SurfaceState::new() };
                    objects.put_slot(idx, AnyObject::Surface(committed));
                    assert(objects.slots() =~= old(objects).slots().update(idx as int,
                        Some(AnyObject::Surface(Surface { current: s.pending, pending: initial_state() }))));
                    return Ok(());
                },
                _ => {
                    return Err(DispatchError::Id(IdError::WrongType));
                },
            }
        }
        let mut buffer: Option<ShmBuffer> = None;
        let mut offset: Option<(i32, i32)> = None;
        let mut scale: Option<i32> = None;
        let mut transform: Option<u32> = None;
        if opcode == 1 {
            let ghost a0 = args.rest();
            let b = decode_uint(&mut args)?;
            let ghost a1 = args.rest();
            let x = decode_int(&mut args)?;
            let ghost a2 = args.rest();
            let y = decode_int(&mut args)?;
            finish_args(args)?;
            proof {
                assert(a1 == all.skip(1) && a2 == all.skip(2));
                assert(all.len() == 3 && all[1] == a1[0] && all[2] == a2[0]);
            }
            if b != 0 {
                let bi = b as usize;
                if bi >= objects.len() {
                    return Err(DispatchError::Id(IdError::NoSuchObject));
                }
                match objects.get(bi) {
                    Some(AnyObject::ShmBuffer(buf)) => {
                        buffer = Some(*buf);
                    },
                    Some(_) => {
                        return Err(DispatchError::Id(IdError::WrongType));
                    },
                    None => {
                        return Err(DispatchError::Id(IdError::NotFound));
                    },
                }
            }
            offset = Some((x, y));
        } else if opcode == 7 {
            let t = decode_int(&mut args)?;
            finish_args(args)?;
            if t < 0 || t > 7 {
                return Err(DispatchError::InvalidArgument);
            }
            proof {
                let w = all[0];
                assert((w as i32) as u32 == w) by (bit_vector);
            }
            transform = Some(t as u32);
        } else if opcode == 8 {
            let v = decode_int(&mut args)?;
            finish_args(args)?;
            scale = Some(v);
        } else if opcode == 10 {
            let ghost a1 = args.rest();
            let x = decode_int(&mut args)?;
            let ghost a2 = args.rest();
            let y = decode_int(&mut args)?;
            finish_args(args)?;
            proof {
                assert(a2 == all.skip(1));
                assert(all.len() == 2 && all[1] == a2[0]);
            }
            offset = Some((x, y));
        }
        let taken = objects.take_slot(idx);
        match taken {
            Some(AnyObject::Surface(s)) => {
                let cur = s.current;
                let p = s.pending;
                let new_pending = SurfaceState {
                    buffer: if opcode == 1 { buffer } else { p.buffer },
                    offset: match offset { Some(o) => o, None => p.offset },
                    scale: match scale { Some(v) => v, None => p.scale },
                    transform: match transform { Some(t) => t, None => p.transform },
                };
                objects.put_slot(idx, AnyObject::Surface(Surface { current: cur, pending: new_pending }));
                proof {
                    assert(objects.slots() =~= with_pending(old(objects).slots(), idx as int, new_pending));
                }
                Ok(())
            },
            _ => Err(DispatchError::Id(IdError::WrongType)),
        }
    }
}

impl Objects {
    /// Hand `message` to the handler of its target's interface. A target past
    /// the end of the table is an error; an empty slot makes the request a
    /// no-op, since its object may have been destroyed while the request was
    /// in flight.
    pub fn dispatch_request(&mut self, sender: &mut SendHalf, recv: &mut RecvHalf, message: RecvMessage) -> (r: Result<(), DispatchError>)
        requires
            old(sender).wf(),
            old(recv).wf(),
            message.spec_object_id().wf(),
        ensures
            final(recv).buffered() == old(recv).buffered(),
            final(sender).wf(),
            final(recv).wf(),
            old(self).slots().len() <= final(self).slots().len(),
            message.spec_object_id().value() >= old(self).slots().len() ==> r == Err::<(), DispatchError>(
                DispatchError::Id(IdError::NoSuchObject),
            ) && final(self).slots() == old(self).slots(),
            message.spec_object_id().value() < old(self).slots().len() ==> match old(self).slots()[message.spec_object_id().value() as int] {
                Some(o) => handled(kind_of(o), *old(self), *final(self), *old(sender), *final(sender), *old(recv), *final(recv), message, r),
                None => true,
            },
            message.spec_object_id().value() < old(self).slots().len() && old(self).slots()[message.spec_object_id().value() as int] is None
                ==> r is Ok && final(self).slots() == old(self).slots() && *final(sender) == *old(sender)
                && *final(recv) == *old(recv),
    {
        let idx = message.object_id().into_usize();
        let kind = match self.kind_at(idx) {
            Some(k) => k,
            None => {
                if idx < self.len() {
                    return Ok(());
                } else {
                    return Err(DispatchError::Id(IdError::NoSuchObject));
                }
            },
        };
        let n = self.len();
        assert(idx < n);
        match kind {
            ObjectKind::Display => Display::handle_request(self, sender, recv, message),
            ObjectKind::Callback => Callback::handle_request(self, sender, recv, message),
            ObjectKind::Registry => Registry::handle_request(self, sender, recv, message),
            ObjectKind::ShmGlobal => ShmGlobal::handle_request(self, sender, recv, message),
            ObjectKind::ShmPool => ShmPool::handle_request(self, sender, recv, message),
            ObjectKind::ShmBuffer => ShmBuffer::handle_request(self, sender, recv, message),
            ObjectKind::Compositor => Compositor::handle_request(self, sender, recv, message),
            ObjectKind::Surface => Surface::handle_request(self, sender, recv, message),
            ObjectKind::Region => Region::handle_request(self, sender, recv, message),
        }
    }
}

/// A destructor request that dispatch carries out is one `Destroy` step of the
/// table: the receiver's occupied slot is emptied and nothing else changes.
pub proof fn lemma_destructor_dispatch_is_step(
    o0: Objects,
    o1: Objects,
    s0: SendHalf,
    s1: SendHalf,
    v0: RecvHalf,
    v1: RecvHalf,
    message: RecvMessage,
)
    requires
        dispatched(o0, o1, s0, s1, v0, v1, message, Ok(())),
        message.spec_object_id().value() < o0.slots().len(),
        o0.slots()[message.spec_object_id().value() as int] matches Some(o)
            && crate::objects::is_destructor_request(kind_of(o), message.spec_opcode()),
    ensures
        crate::objects::table_step(
            o0.slots(),
            crate::objects::TableOp::Destroy(message.spec_object_id().value()),
            o1.slots(),
        ),
{
}

} // verus!
