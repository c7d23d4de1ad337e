//! Wire primitives: words, object ids, fixed-point values and the byte view of words.

use core::marker::PhantomData;
use vstd::prelude::*;

verus! {

/// Size of one protocol word, in bytes.
pub const WORD_SIZE: usize = 4;

/// Errors met while decoding or framing protocol data.
#[derive(Clone, Copy, Debug, PartialEq, Eq, Structural)]
pub enum WireError {
    /// Fewer words (or file descriptors) than the arguments need.
    TooFewArgs,
    /// Words left over after the last argument.
    TooManyArgs,
    /// A zero where a non-null string or id is required.
    NullArgument,
    /// A string whose last byte is not NUL.
    NotNulTerminated,
    /// A string with a NUL byte before its end.
    InteriorNul,
    /// A string body that is not UTF-8.
    InvalidUtf8,
    /// No file descriptor is queued for an fd argument.
    MissingFd,
    /// A header length below the header size.
    LengthTooShort,
    /// A header length that is not a multiple of the word size.
    LengthNotAligned,
    /// A header length beyond what the buffer can ever hold.
    LengthTooLong,
    /// A message aimed at object id zero.
    NullTarget,
    /// More file descriptors than the buffer holds.
    TooManyFds,
}

/// The bytes of a word in the target's native byte order.
pub uninterp spec fn ne_bytes(w: u32) -> Seq<u8>;

/// Relies on `u32::to_ne_bytes`: the four bytes of `w` in native byte order.
#[verifier::external_body]
pub(crate) fn word_to_bytes(w: u32) -> (r: [u8; 4])
    ensures
        r@ == ne_bytes(w),
        r@ == seq![0u8, 0u8, 0u8, 0u8] <==> w == 0,
{
    w.to_ne_bytes()
}

/// Relies on `u32::from_ne_bytes`: the one word whose native-order bytes are `b`.
#[verifier::external_body]
pub(crate) fn word_from_bytes(b: [u8; 4]) -> (r: u32)
    ensures
        ne_bytes(r) == b@,
        forall|w: u32| ne_bytes(w) == b@ ==> w == r,
        r == 0 <==> b@ == seq![0u8, 0u8, 0u8, 0u8],
{
    u32::from_ne_bytes(b)
}

/// The bytes of a word sequence, word after word.
pub open spec fn words_bytes(ws: Seq<u32>) -> Seq<u8>
    decreases ws.len(),
{
    if ws.len() == 0 {
        Seq::empty()
    } else {
        words_bytes(ws.drop_last()) + ne_bytes(ws.last())
    }
}

/// Every word of `ws` has four bytes.
pub open spec fn words_sized(ws: Seq<u32>) -> bool {
    forall|i: int| 0 <= i < ws.len() ==> (#[trigger] ne_bytes(ws[i])).len() == 4
}

pub proof fn lemma_words_bytes_push(ws: Seq<u32>, w: u32)
    ensures
        words_bytes(ws.push(w)) == words_bytes(ws) + ne_bytes(w),
{
    assert(ws.push(w).drop_last() =~= ws);
}

pub proof fn lemma_words_bytes_append(a: Seq<u32>, b: Seq<u32>)
    ensures
        words_bytes(a + b) == words_bytes(a) + words_bytes(b),
    decreases b.len(),
{
    if b.len() == 0 {
        assert(a + b =~= a);
        assert(words_bytes(b) =~= Seq::<u8>::empty());
        assert(words_bytes(a) + words_bytes(b) =~= words_bytes(a));
    } else {
        let bl = b.drop_last();
        lemma_words_bytes_append(a, bl);
        assert((a + b).drop_last() =~= a + bl);
        assert((a + b).last() == b.last());
        assert(words_bytes(a) + words_bytes(bl) + ne_bytes(b.last()) =~= words_bytes(a) + (words_bytes(bl) + ne_bytes(b.last())));
    }
}

/// A non-null object id, typed by the interface it refers to.
pub struct Id<T> {
    raw: u32,
    marker: PhantomData<T>,
}

impl<T> Id<T> {
    /// The id as a wire word.
    pub closed spec fn value(&self) -> u32 {
        self.raw
    }

    pub closed spec fn wf(&self) -> bool {
        self.raw != 0
    }

    /// The id with value `id`, or `None` for the null id zero.
    pub fn new(id: u32) -> (r: Option<Self>)
        ensures
            r is None <==> id == 0,
            r matches Some(i) ==> i.value() == id && i.wf(),
    {
        if id == 0 {
            None
        } else {
            Some(Id { raw: id, marker: PhantomData })
        }
    }

    /// The same id, typed for another interface.
    pub fn cast<U>(self) -> (r: Id<U>)
        ensures
            r.value() == self.value(),
            r.wf() == self.wf(),
    {
        Id { raw: self.raw, marker: PhantomData }
    }

    /// The id as an index into an object table.
    pub fn into_usize(self) -> (r: usize)
        ensures
            r == self.value(),
    {
        self.raw as usize
    }

    /// The id as a wire word.
    pub fn get(&self) -> (r: u32)
        ensures
            r == self.value(),
    {
        self.raw
    }

    pub proof fn lemma_value_wf(&self)
        ensures
            self.wf() <==> self.value() != 0,
    {
    }
}

impl<T> Clone for Id<T> {
    fn clone(&self) -> (r: Self)
        ensures
            r.value() == self.value(),
            r.wf() == self.wf(),
    {
        Id { raw: self.raw, marker: PhantomData }
    }
}

impl<T> Copy for Id<T> {}

/// A signed Q23.8 fixed-point number, carried as one word.
#[derive(Clone, Copy, Debug, PartialEq, Eq, Structural, Hash)]
pub struct Fixed(pub i32);

} // verus!
