//! The per-client object table: a dense array indexed by object id whose slots
//! are empty or hold one object, with typed handles onto its slots.

use crate::object_impls::{
    Callback, Compositor, Display, Region, Registry, ShmBuffer, ShmGlobal, ShmPool, Surface,
};
use crate::wire::Id;
use vstd::prelude::*;

verus! {

/// Every kind of object that a client can hold.
pub enum AnyObject {
    Display(Display),
    Callback(Callback),
    Registry(Registry),
    ShmGlobal(ShmGlobal),
    ShmPool(ShmPool),
    ShmBuffer(ShmBuffer),
    Compositor(Compositor),
    Surface(Surface),
    Region(Region),
}

/// The interface of an object, without its state.
#[derive(Clone, Copy, Debug, PartialEq, Eq, Structural)]
pub enum ObjectKind {
    Display,
    Callback,
    Registry,
    ShmGlobal,
    ShmPool,
    ShmBuffer,
    Compositor,
    Surface,
    Region,
}

/// The interface of `o`.
pub open spec fn kind_of(o: AnyObject) -> ObjectKind {
    match o {
        AnyObject::Display(_) => ObjectKind::Display,
        AnyObject::Callback(_) => ObjectKind::Callback,
        AnyObject::Registry(_) => ObjectKind::Registry,
        AnyObject::ShmGlobal(_) => ObjectKind::ShmGlobal,
        AnyObject::ShmPool(_) => ObjectKind::ShmPool,
        AnyObject::ShmBuffer(_) => ObjectKind::ShmBuffer,
        AnyObject::Compositor(_) => ObjectKind::Compositor,
        AnyObject::Surface(_) => ObjectKind::Surface,
        AnyObject::Region(_) => ObjectKind::Region,
    }
}

impl AnyObject {
    /// The interface of this object.
    pub fn kind(&self) -> (r: ObjectKind)
        ensures
            r == kind_of(*self),
    {
        match self {
            AnyObject::Display(_) => ObjectKind::Display,
            AnyObject::Callback(_) => ObjectKind::Callback,
            AnyObject::Registry(_) => ObjectKind::Registry,
            AnyObject::ShmGlobal(_) => ObjectKind::ShmGlobal,
            AnyObject::ShmPool(_) => ObjectKind::ShmPool,
            AnyObject::ShmBuffer(_) => ObjectKind::ShmBuffer,
            AnyObject::Compositor(_) => ObjectKind::Compositor,
            AnyObject::Surface(_) => ObjectKind::Surface,
            AnyObject::Region(_) => ObjectKind::Region,
        }
    }
}

/// The protocol name of interface `k`.
pub open spec fn interface_name_of(k: ObjectKind) -> Seq<char> {
    match k {
        ObjectKind::Display => "wl_display"@,
        ObjectKind::Callback => "wl_callback"@,
        ObjectKind::Registry => "wl_registry"@,
        ObjectKind::ShmGlobal => "wl_shm"@,
        ObjectKind::ShmPool => "wl_shm_pool"@,
        ObjectKind::ShmBuffer => "wl_buffer"@,
        ObjectKind::Compositor => "wl_compositor"@,
        ObjectKind::Surface => "wl_surface"@,
        ObjectKind::Region => "wl_region"@,
    }
}

impl ObjectKind {
    /// The protocol name of this interface.
    pub fn interface_name(&self) -> (r: &'static str)
        ensures
            r@ == interface_name_of(*self),
    {
        match self {
            ObjectKind::Display => "wl_display",
            ObjectKind::Callback => "wl_callback",
            ObjectKind::Registry => "wl_registry",
            ObjectKind::ShmGlobal => "wl_shm",
            ObjectKind::ShmPool => "wl_shm_pool",
            ObjectKind::ShmBuffer => "wl_buffer",
            ObjectKind::Compositor => "wl_compositor",
            ObjectKind::Surface => "wl_surface",
            ObjectKind::Region => "wl_region",
        }
    }

    /// The name of request `opcode` of this interface, if it has one.
    pub fn request_name(&self, opcode: u16) -> (r: Option<&'static str>)
        ensures
            r is Some <==> opcode < request_count(*self),
    {
        let names: &[&'static str] = match self {
            ObjectKind::Display => &["sync", "get_registry"],
            ObjectKind::Callback => &[],
            ObjectKind::Registry => &["bind"],
            ObjectKind::ShmGlobal => &["create_pool"],
            ObjectKind::ShmPool => &["create_buffer", "destroy", "resize"],
            ObjectKind::ShmBuffer => &["destroy"],
            ObjectKind::Compositor => &["create_surface", "create_region"],
            ObjectKind::Surface => &["destroy", "attach", "damage", "frame", "set_opaque_region", "set_input_region",
                "commit", "set_buffer_transform", "set_buffer_scale", "damage_buffer", "offset"],
            ObjectKind::Region => &["destroy", "add", "subtract"],
        };
        if (opcode as usize) < names.len() {
            Some(names[opcode as usize])
        } else {
            None
        }
    }
}

/// Number of requests of interface `k`.
pub open spec fn request_count(k: ObjectKind) -> nat {
    match k {
        ObjectKind::Display => 2,
        ObjectKind::Callback => 0,
        ObjectKind::Registry => 1,
        ObjectKind::ShmGlobal => 1,
        ObjectKind::ShmPool => 3,
        ObjectKind::ShmBuffer => 1,
        ObjectKind::Compositor => 2,
        ObjectKind::Surface => 11,
        ObjectKind::Region => 3,
    }
}

/// A type that the table can hold, as one variant of [`AnyObject`] or as any of them.
pub trait ObjectType: Sized {
    /// Whether a value of this type can stand in a slot holding an object of kind `k`.
    spec fn accepts(k: ObjectKind) -> bool;

    /// The table's form of `self`.
    spec fn spec_upcast(self) -> AnyObject;

    /// Whether a value of this type can stand in a slot holding an object of kind `k`.
    fn accepts_kind(k: ObjectKind) -> (r: bool)
        ensures
            r == Self::accepts(k),
    ;

    fn upcast(self) -> (r: AnyObject)
        ensures
            r == self.spec_upcast(),
            Self::accepts(kind_of(r)),
    ;

    fn downcast(object: AnyObject) -> (r: Option<Self>)
        ensures
            r is Some <==> Self::accepts(kind_of(object)),
            r matches Some(x) ==> x.spec_upcast() == object,
    ;
}

impl ObjectType for AnyObject {
    open spec fn accepts(k: ObjectKind) -> bool {
        true
    }

    fn accepts_kind(k: ObjectKind) -> (r: bool) {
        true
    }

    open spec fn spec_upcast(self) -> AnyObject {
        self
    }

    fn upcast(self) -> (r: AnyObject) {
        self
    }

    fn downcast(object: AnyObject) -> (r: Option<Self>) {
        Some(object)
    }
}

impl ObjectType for Display {
    open spec fn accepts(k: ObjectKind) -> bool {
        k == ObjectKind::Display
    }

    fn accepts_kind(k: ObjectKind) -> (r: bool) {
        k == ObjectKind::Display
    }

    open spec fn spec_upcast(self) -> AnyObject {
        AnyObject::Display(self)
    }

    fn upcast(self) -> (r: AnyObject) {
        AnyObject::Display(self)
    }

    fn downcast(object: AnyObject) -> (r: Option<Self>) {
        match object {
            AnyObject::Display(x) => Some(x),
            _ => None,
        }
    }
}

impl ObjectType for Callback {
    open spec fn accepts(k: ObjectKind) -> bool {
        k == ObjectKind::Callback
    }

    fn accepts_kind(k: ObjectKind) -> (r: bool) {
        k == ObjectKind::Callback
    }

    open spec fn spec_upcast(self) -> AnyObject {
        AnyObject::Callback(self)
    }

    fn upcast(self) -> (r: AnyObject) {
        AnyObject::Callback(self)
    }

    fn downcast(object: AnyObject) -> (r: Option<Self>) {
        match object {
            AnyObject::Callback(x) => Some(x),
            _ => None,
        }
    }
}

impl ObjectType for Registry {
    open spec fn accepts(k: ObjectKind) -> bool {
        k == ObjectKind::Registry
    }

    fn accepts_kind(k: ObjectKind) -> (r: bool) {
        k == ObjectKind::Registry
    }

    open spec fn spec_upcast(self) -> AnyObject {
        AnyObject::Registry(self)
    }

    fn upcast(self) -> (r: AnyObject) {
        AnyObject::Registry(self)
    }

    fn downcast(object: AnyObject) -> (r: Option<Self>) {
        match object {
            AnyObject::Registry(x) => Some(x),
            _ => None,
        }
    }
}

impl ObjectType for ShmGlobal {
    open spec fn accepts(k: ObjectKind) -> bool {
        k == ObjectKind::ShmGlobal
    }

    fn accepts_kind(k: ObjectKind) -> (r: bool) {
        k == ObjectKind::ShmGlobal
    }

    open spec fn spec_upcast(self) -> AnyObject {
        AnyObject::ShmGlobal(self)
    }

    fn upcast(self) -> (r: AnyObject) {
        AnyObject::ShmGlobal(self)
    }

    fn downcast(object: AnyObject) -> (r: Option<Self>) {
        match object {
            AnyObject::ShmGlobal(x) => Some(x),
            _ => None,
        }
    }
}

impl ObjectType for ShmPool {
    open spec fn accepts(k: ObjectKind) -> bool {
        k == ObjectKind::ShmPool
    }

    fn accepts_kind(k: ObjectKind) -> (r: bool) {
        k == ObjectKind::ShmPool
    }

    open spec fn spec_upcast(self) -> AnyObject {
        AnyObject::ShmPool(self)
    }

    fn upcast(self) -> (r: AnyObject) {
        AnyObject::ShmPool(self)
    }

    fn downcast(object: AnyObject) -> (r: Option<Self>) {
        match object {
            AnyObject::ShmPool(x) => Some(x),
            _ => None,
        }
    }
}

impl ObjectType for ShmBuffer {
    open spec fn accepts(k: ObjectKind) -> bool {
        k == ObjectKind::ShmBuffer
    }

    fn accepts_kind(k: ObjectKind) -> (r: bool) {
        k == ObjectKind::ShmBuffer
    }

    open spec fn spec_upcast(self) -> AnyObject {
        AnyObject::ShmBuffer(self)
    }

    fn upcast(self) -> (r: AnyObject) {
        AnyObject::ShmBuffer(self)
    }

    fn downcast(object: AnyObject) -> (r: Option<Self>) {
        match object {
            AnyObject::ShmBuffer(x) => Some(x),
            _ => None,
        }
    }
}

impl ObjectType for Compositor {
    open spec fn accepts(k: ObjectKind) -> bool {
        k == ObjectKind::Compositor
    }

    fn accepts_kind(k: ObjectKind) -> (r: bool) {
        k == ObjectKind::Compositor
    }

    open spec fn spec_upcast(self) -> AnyObject {
        AnyObject::Compositor(self)
    }

    fn upcast(self) -> (r: AnyObject) {
        AnyObject::Compositor(self)
    }

    fn downcast(object: AnyObject) -> (r: Option<Self>) {
        match object {
            AnyObject::Compositor(x) => Some(x),
            _ => None,
        }
    }
}

impl ObjectType for Surface {
    open spec fn accepts(k: ObjectKind) -> bool {
        k == ObjectKind::Surface
    }

    fn accepts_kind(k: ObjectKind) -> (r: bool) {
        k == ObjectKind::Surface
    }

    open spec fn spec_upcast(self) -> AnyObject {
        AnyObject::Surface(self)
    }

    fn upcast(self) -> (r: AnyObject) {
        AnyObject::Surface(self)
    }

    fn downcast(object: AnyObject) -> (r: Option<Self>) {
        match object {
            AnyObject::Surface(x) => Some(x),
            _ => None,
        }
    }
}

impl ObjectType for Region {
    open spec fn accepts(k: ObjectKind) -> bool {
        k == ObjectKind::Region
    }

    fn accepts_kind(k: ObjectKind) -> (r: bool) {
        k == ObjectKind::Region
    }

    open spec fn spec_upcast(self) -> AnyObject {
        AnyObject::Region(self)
    }

    fn upcast(self) -> (r: AnyObject) {
        AnyObject::Region(self)
    }

    fn downcast(object: AnyObject) -> (r: Option<Self>) {
        match object {
            AnyObject::Region(x) => Some(x),
            _ => None,
        }
    }
}

/// Errors of id handling.
#[derive(Clone, Copy, Debug, PartialEq, Eq, Structural)]
pub enum IdError {
    /// The same id requested twice in one multi-borrow.
    Duplicate,
    /// An empty slot where an object is required.
    NotFound,
    /// An occupied slot where a new id is required.
    AlreadyExists,
    /// A slot holding an object of another interface.
    WrongType,
    /// A request to an id past the end of the table.
    NoSuchObject,
}

/// `s` extended with empty slots to length `n`, or `s` when it is that long already.
pub open spec fn grown(s: Seq<Option<AnyObject>>, n: nat) -> Seq<Option<AnyObject>> {
    if n <= s.len() {
        s
    } else {
        s + Seq::new((n - s.len()) as nat, |i: int| None)
    }
}

/// The ids of the occupied slots of `s`.
pub open spec fn occupied_ids(s: Seq<Option<AnyObject>>) -> Set<nat> {
    Set::new(|i: nat| i < s.len() && s[i as int] is Some)
}

/// Whether `ids` holds one value twice.
pub open spec fn has_duplicate(ids: Seq<u32>) -> bool {
    exists|i: int, j: int| 0 <= i < j < ids.len() && ids[i] == ids[j]
}

/// The values of a list of ids.
pub open spec fn id_values<T>(ids: Seq<Id<T>>) -> Seq<u32> {
    Seq::new(ids.len(), |i: int| ids[i].value())
}

/// The table length that a multi-borrow of `ids` on a table of length `len` leaves.
pub open spec fn needed_len(len: nat, ids: Seq<u32>) -> nat
    decreases ids.len(),
{
    if ids.len() == 0 {
        len
    } else {
        let rest = needed_len(len, ids.drop_last());
        if ids.last() + 1 > rest {
            (ids.last() + 1) as nat
        } else {
            rest
        }
    }
}

pub proof fn lemma_needed_len(len: nat, ids: Seq<u32>)
    ensures
        needed_len(len, ids) >= len,
        forall|i: int| 0 <= i < ids.len() ==> ids[i] < needed_len(len, ids),
        needed_len(len, ids) <= len || exists|i: int| 0 <= i < ids.len() && needed_len(len, ids) == ids[i] + 1,
    decreases ids.len(),
{
    if ids.len() > 0 {
        lemma_needed_len(len, ids.drop_last());
        let rest = needed_len(len, ids.drop_last());
        assert forall|i: int| 0 <= i < ids.len() implies ids[i] < needed_len(len, ids) by {
            if i < ids.len() - 1 {
                assert(ids.drop_last()[i] == ids[i]);
            }
        }
        if needed_len(len, ids) > len && needed_len(len, ids) != ids.last() + 1 {
            let i = choose|i: int| 0 <= i < ids.drop_last().len() && rest == ids.drop_last()[i] + 1;
            assert(ids[i] == ids.drop_last()[i]);
        }
    }
}

/// Per-client map from object id to object.
pub struct Objects {
    vec: Vec<Option<AnyObject>>,
}

/// A handle on one slot of a table, as returned by a multi-borrow.
pub enum Entry<T> {
    Occupied(OccupiedEntry<T>),
    Vacant(VacantEntry<T>),
}

/// A handle on an occupied slot, typed by the interface expected there.
pub struct OccupiedEntry<T> {
    id: Id<T>,
}

/// A handle on an empty slot, typed by the interface to be created there.
pub struct VacantEntry<T> {
    id: Id<T>,
}

impl Objects {
    /// The slots, indexed by id.
    pub closed spec fn slots(&self) -> Seq<Option<AnyObject>> {
        self.vec@
    }

    /// An empty table.
    pub fn new() -> (r: Self)
        ensures
            r.slots().len() == 0,
    {
        Objects { vec: Vec::new() }
    }

    /// Number of slots.
    pub fn len(&self) -> (r: usize)
        ensures
            r == self.slots().len(),
    {
        self.vec.len()
    }

    /// Whether the slot of `id` exists and holds an object.
    pub fn is_occupied(&self, id: usize) -> (r: bool)
        ensures
            r <==> id < self.slots().len() && self.slots()[id as int] is Some,
    {
        id < self.vec.len() && self.vec[id].is_some()
    }

    /// The interface of the object at `id`, if the slot exists and is occupied.
    pub fn kind_at(&self, id: usize) -> (r: Option<ObjectKind>)
        ensures
            r is Some <==> id < self.slots().len() && self.slots()[id as int] is Some,
            r matches Some(k) ==> self.slots()[id as int] matches Some(o) && k == kind_of(o),
    {
        if id < self.vec.len() {
            match &self.vec[id] {
                Some(o) => Some(o.kind()),
                None => None,
            }
        } else {
            None
        }
    }

    /// Extend the table with empty slots up to length `n`.
    fn grow(&mut self, n: usize)
        ensures
            final(self).slots() == grown(old(self).slots(), n as nat),
    {
        if n > self.vec.len() {
            let ghost base = self.vec@;
            while self.vec.len() < n
                invariant
                    base.len() <= self.vec@.len() <= n,
                    self.vec@ == base + Seq::new((self.vec@.len() - base.len()) as nat, |i: int| None::<AnyObject>),
                decreases n - self.vec@.len(),
            {
                self.vec.push(None);
                assert(self.vec@ =~= base + Seq::new((self.vec@.len() - base.len()) as nat, |i: int| None::<AnyObject>));
            }
        }
    }

    /// Borrow one slot per id at once. Fails when an id appears twice; else grows
    /// the table to hold every id and returns, in order, an occupied handle for
    /// each occupied slot and a vacant one for each empty slot.
    #[verifier::rlimit(40)]
    pub fn get_many_mut(&mut self, ids: &[Id<AnyObject>]) -> (r: Result<Vec<Entry<AnyObject>>, IdError>)
        requires
            forall|i: int| 0 <= i < ids@.len() ==> ids@[i].value() < usize::MAX,
        ensures
            has_duplicate(id_values(ids@)) <==> r is Err,
            r is Err ==> r == Err::<Vec<Entry<AnyObject>>, IdError>(IdError::Duplicate)
                && final(self).slots() == old(self).slots(),
            r is Ok ==> final(self).slots() == grown(old(self).slots(), needed_len(old(self).slots().len(), id_values(ids@))),
            r matches Ok(es) ==> es@.len() == ids@.len() && forall|i: int| 0 <= i < es@.len() ==> (match #[trigger] es@[i] {
                Entry::Occupied(e) => e.spec_id() == ids@[i] && final(self).slots()[ids@[i].value() as int] is Some,
                Entry::Vacant(e) => e.spec_id() == ids@[i] && final(self).slots()[ids@[i].value() as int] is None,
            }),
    {
        let ghost vals = id_values(ids@);
        let mut new_len = self.vec.len();
        let mut i: usize = 0;
        while i < ids.len()
            invariant
                i <= ids@.len(),
                vals == id_values(ids@),
                self.vec@ == old(self).vec@,
                new_len == needed_len(old(self).slots().len(), vals.take(i as int)),
                forall|a: int, b: int| 0 <= a < b < i ==> vals[a] != vals[b],
                forall|a: int| 0 <= a < ids@.len() ==> ids@[a].value() < usize::MAX,
            decreases ids@.len() - i,
        {
            let id = ids[i].get();
            let mut j: usize = 0;
            while j < i
                invariant
                    j <= i < ids@.len(),
                    vals == id_values(ids@),
                    id == vals[i as int],
                    forall|b: int| 0 <= b < j ==> vals[b] != id,
                decreases i - j,
            {
                if ids[j].get() == id {
                    assert(has_duplicate(vals)) by {
                        assert(vals[j as int] == vals[i as int]);
                    }
                    return Err(IdError::Duplicate);
                }
                j = j + 1;
            }
            assert(vals.take(i + 1).drop_last() =~= vals.take(i as int));
            if (id as usize) + 1 > new_len {
                new_len = (id as usize) + 1;
            }
            i = i + 1;
        }
        assert(vals.take(ids@.len() as int) =~= vals);
        assert(!has_duplicate(vals));
        self.grow(new_len);
        proof {
            lemma_needed_len(old(self).slots().len(), vals);
        }
        let mut out: Vec<Entry<AnyObject>> = Vec::new();
        let mut k: usize = 0;
        while k < ids.len()
            invariant
                k <= ids@.len(),
                vals == id_values(ids@),
                forall|a: int| 0 <= a < ids@.len() ==> vals[a] < self.vec@.len(),
                out@.len() == k,
                forall|a: int| 0 <= a < k ==> (match #[trigger] out@[a] {
                    Entry::Occupied(e) => e.spec_id() == ids@[a] && self.vec@[ids@[a].value() as int] is Some,
                    Entry::Vacant(e) => e.spec_id() == ids@[a] && self.vec@[ids@[a].value() as int] is None,
                }),
            decreases ids@.len() - k,
        {
            let id = ids[k];
            assert(vals[k as int] == id.value());
            let idx = id.into_usize();
            if self.vec[idx].is_some() {
                out.push(Entry::Occupied(OccupiedEntry { id }));
            } else {
                out.push(Entry::Vacant(VacantEntry { id }));
            }
            k = k + 1;
        }
        Ok(out)
    }

    /// Put `obj` at `id`. Fails when the slot is occupied; the table is grown to
    /// hold `id` in either case.
    pub fn insert<T: ObjectType>(&mut self, id: Id<T>, obj: T) -> (r: Result<OccupiedEntry<T>, IdError>)
        requires
            id.value() < usize::MAX,
        ensures
            r is Err <==> id.value() < old(self).slots().len() && old(self).slots()[id.value() as int] is Some,
            r is Err ==> r == Err::<OccupiedEntry<T>, IdError>(IdError::AlreadyExists)
                && final(self).slots() == grown(old(self).slots(), (id.value() + 1) as nat),
            r matches Ok(e) ==> e.spec_id() == id
                && final(self).slots() == grown(old(self).slots(), (id.value() + 1) as nat).update(
                    id.value() as int,
                    Some(obj.spec_upcast()),
                ),
    {
        let idx = id.into_usize();
        self.grow(idx + 1);
        if self.vec[idx].is_some() {
            return Err(IdError::AlreadyExists);
        }
        self.vec.set(idx, Some(obj.upcast()));
        Ok(OccupiedEntry { id })
    }

    /// The slot at `idx`.
    pub fn get(&self, idx: usize) -> (r: &Option<AnyObject>)
        requires
            idx < self.slots().len(),
        ensures
            *r == self.slots()[idx as int],
    {
        &self.vec[idx]
    }

    /// Store `obj` in the slot at `idx`.
    pub(crate) fn put_slot(&mut self, idx: usize, obj: AnyObject)
        requires
            idx < old(self).slots().len(),
        ensures
            final(self).slots() == old(self).slots().update(idx as int, Some(obj)),
    {
        self.vec.set(idx, Some(obj));
    }

    /// Empty the slot of `id`, handing out what it held.
    pub(crate) fn take_slot(&mut self, idx: usize) -> (r: Option<AnyObject>)
        requires
            idx < old(self).slots().len(),
        ensures
            r == old(self).slots()[idx as int],
            final(self).slots() == old(self).slots().update(idx as int, None),
    {
        let mut slot: Option<AnyObject> = None;
        let ghost before = self.vec@;
        self.vec.set_and_swap(idx, &mut slot);
        assert(self.vec@ =~= before.update(idx as int, None));
        slot
    }
}

impl<T> Entry<T> {
    /// The handle, if its slot is occupied.
    pub fn into_occupied(self) -> (r: Result<OccupiedEntry<T>, IdError>)
        ensures
            self is Occupied <==> r is Ok,
            r matches Ok(e) ==> self == Entry::Occupied(e),
            r is Err ==> r == Err::<OccupiedEntry<T>, IdError>(IdError::NotFound),
    {
        match self {
            Entry::Occupied(e) => Ok(e),
            Entry::Vacant(_) => Err(IdError::NotFound),
        }
    }

    /// The handle, if its slot is empty.
    pub fn into_vacant(self) -> (r: Result<VacantEntry<T>, IdError>)
        ensures
            self is Vacant <==> r is Ok,
            r matches Ok(e) ==> self == Entry::Vacant(e),
            r is Err ==> r == Err::<VacantEntry<T>, IdError>(IdError::AlreadyExists),
    {
        match self {
            Entry::Occupied(_) => Err(IdError::AlreadyExists),
            Entry::Vacant(e) => Ok(e),
        }
    }
}

impl<T> OccupiedEntry<T> {
    pub closed spec fn spec_id(&self) -> Id<T> {
        self.id
    }

    /// The id of the slot.
    pub fn id(&self) -> (r: Id<T>)
        ensures
            r == self.spec_id(),
    {
        self.id
    }
}

impl OccupiedEntry<AnyObject> {
    /// Type the handle for interface `U`; fails when the slot holds another interface.
    pub fn downcast<U: ObjectType>(self, objects: &Objects) -> (r: Result<OccupiedEntry<U>, IdError>)
        requires
            self.spec_id().value() < objects.slots().len(),
            objects.slots()[self.spec_id().value() as int] is Some,
        ensures
            r is Ok <==> U::accepts(kind_of(objects.slots()[self.spec_id().value() as int]->0)),
            r matches Ok(e) ==> e.spec_id().value() == self.spec_id().value(),
            r is Err ==> r == Err::<OccupiedEntry<U>, IdError>(IdError::WrongType),
    {
        let idx = self.id.into_usize();
        let k = objects.kind_at(idx);
        match k {
            Some(kind) => {
                if U::accepts_kind(kind) {
                    Ok(OccupiedEntry { id: self.id.cast() })
                } else {
                    Err(IdError::WrongType)
                }
            },
            None => Err(IdError::WrongType),
        }
    }
}

impl<T: ObjectType> OccupiedEntry<T> {
    /// Empty the slot and take ownership of its object.
    pub fn take(self, objects: &mut Objects) -> (r: T)
        requires
            self.spec_id().value() < old(objects).slots().len(),
            old(objects).slots()[self.spec_id().value() as int] is Some,
            T::accepts(kind_of(old(objects).slots()[self.spec_id().value() as int]->0)),
        ensures
            Some(r.spec_upcast()) == old(objects).slots()[self.spec_id().value() as int],
            final(objects).slots() == old(objects).slots().update(self.spec_id().value() as int, None),
    {
        let idx = self.id.into_usize();
        let obj = objects.take_slot(idx);
        match obj {
            Some(o) => {
                let t = T::downcast(o);
                match t {
                    Some(x) => x,
                    None => {
                        vstd::pervasive::unreached()
                    },
                }
            },
            None => {
                vstd::pervasive::unreached()
            },
        }
    }
}

impl<T> VacantEntry<T> {
    pub closed spec fn spec_id(&self) -> Id<T> {
        self.id
    }

    /// The id of the slot.
    pub fn id(&self) -> (r: Id<T>)
        ensures
            r == self.spec_id(),
    {
        self.id
    }
}

impl VacantEntry<AnyObject> {
    /// Type the handle for interface `U`.
    pub fn downcast<U: ObjectType>(self) -> (r: VacantEntry<U>)
        ensures
            r.spec_id().value() == self.spec_id().value(),
            r.spec_id().wf() == self.spec_id().wf(),
    {
        VacantEntry { id: self.id.cast() }
    }
}

impl<T: ObjectType> VacantEntry<T> {
    /// Fill the empty slot with `obj`.
    pub fn insert(self, objects: &mut Objects, obj: T) -> (r: OccupiedEntry<T>)
        requires
            self.spec_id().value() < old(objects).slots().len(),
            old(objects).slots()[self.spec_id().value() as int] is None,
        ensures
            r.spec_id() == self.spec_id(),
            final(objects).slots() == old(objects).slots().update(self.spec_id().value() as int, Some(obj.spec_upcast())),
    {
        let idx = self.id.into_usize();
        objects.vec.set(idx, Some(obj.upcast()));
        OccupiedEntry { id: self.id }
    }
}

/// Whether request `opcode` of interface `k` destroys its receiver.
pub open spec fn is_destructor_request(k: ObjectKind, opcode: u16) -> bool {
    (k == ObjectKind::ShmPool && opcode == 1) || (k == ObjectKind::ShmBuffer && opcode == 0) || (k == ObjectKind::Surface
        && opcode == 0) || (k == ObjectKind::Region && opcode == 0)
}

/// One change to a table: an object created at an id, or the object at an id destroyed.
#[derive(Clone, Copy, Debug, PartialEq, Eq, Structural)]
pub enum TableOp {
    Insert(u32),
    Destroy(u32),
}

/// `after` is what a successful `op` makes of the table `before`: an insert
/// into an empty (or new) slot, or a destructor dispatch that empties an
/// occupied slot.
pub open spec fn table_step(before: Seq<Option<AnyObject>>, op: TableOp, after: Seq<Option<AnyObject>>) -> bool {
    match op {
        TableOp::Insert(id) => {
            &&& !(id < before.len() && before[id as int] is Some)
            &&& exists|o: AnyObject| after == grown(before, (id + 1) as nat).update(id as int, Some(o))
        },
        TableOp::Destroy(id) => {
            &&& id < before.len()
            &&& before[id as int] is Some
            &&& after == before.update(id as int, None)
        },
    }
}

/// The ids occupied after `ops`, starting from the ids `start`.
pub open spec fn ids_after(start: Set<nat>, ops: Seq<TableOp>) -> Set<nat>
    decreases ops.len(),
{
    if ops.len() == 0 {
        start
    } else {
        let s = ids_after(start, ops.drop_last());
        match ops.last() {
            TableOp::Insert(id) => s.insert(id as nat),
            TableOp::Destroy(id) => s.remove(id as nat),
        }
    }
}

proof fn lemma_step_ids(before: Seq<Option<AnyObject>>, op: TableOp, after: Seq<Option<AnyObject>>)
    requires
        table_step(before, op, after),
    ensures
        occupied_ids(after) == match op {
            TableOp::Insert(id) => occupied_ids(before).insert(id as nat),
            TableOp::Destroy(id) => occupied_ids(before).remove(id as nat),
        },
        before.len() <= after.len(),
{
    match op {
        TableOp::Insert(id) => {
            let o = choose|o: AnyObject| after == grown(before, (id + 1) as nat).update(id as int, Some(o));
            let g = grown(before, (id + 1) as nat);
            assert forall|i: nat| i < before.len() implies g[i as int] == before[i as int] by {
                if (id + 1) as nat > before.len() {
                    assert(g[i as int] == before[i as int]);
                }
            }
            assert forall|i: nat| before.len() <= i < g.len() implies g[i as int] is None by {
            }
            assert(occupied_ids(after) =~= occupied_ids(before).insert(id as nat));
        },
        TableOp::Destroy(id) => {
            assert(occupied_ids(after) =~= occupied_ids(before).remove(id as nat));
        },
    }
}

/// After any sequence of inserts and destructor dispatches, the occupied ids
/// are those of the start with each insert added and each destroyed id removed,
/// in order; and the table never shrinks.
pub proof fn lemma_occupied_ids_follow_ops(states: Seq<Seq<Option<AnyObject>>>, ops: Seq<TableOp>)
    requires
        states.len() == ops.len() + 1,
        forall|i: int| 0 <= i < ops.len() ==> table_step(#[trigger] states[i], ops[i], states[i + 1]),
    ensures
        occupied_ids(states.last()) == ids_after(occupied_ids(states[0]), ops),
        forall|i: int, j: int| 0 <= i <= j < states.len() ==> states[i].len() <= states[j].len(),
    decreases ops.len(),
{
    if ops.len() > 0 {
        let n = ops.len() - 1;
        let ss = states.drop_last();
        let os = ops.drop_last();
        assert forall|i: int| 0 <= i < os.len() implies table_step(#[trigger] ss[i], os[i], ss[i + 1]) by {
            assert(ss[i] == states[i] && ss[i + 1] == states[i + 1] && os[i] == ops[i]);
        }
        lemma_occupied_ids_follow_ops(ss, os);
        assert(table_step(states[n], ops[n], states[n + 1]));
        lemma_step_ids(states[n], ops[n], states[n + 1]);
        assert(ss.last() == states[n]);
        assert forall|i: int, j: int| 0 <= i <= j < states.len() implies states[i].len() <= states[j].len() by {
            if j == states.len() - 1 && i < j {
                assert(ss[i] == states[i]);
                assert(ss[i].len() <= ss[n].len());
            } else if j < states.len() - 1 {
                assert(ss[i] == states[i] && ss[j] == states[j]);
            }
        }
    }
}

} // verus!
