//! Encoding event arguments into message words, and the round-trip laws that tie
//! the encoders to the decoders of `args`.

use crate::args::{spec_array, spec_object, spec_string, spec_take, words_for};
use crate::wire::{word_from_bytes, words_bytes, Fixed, Id};
use vstd::prelude::*;
use vstd::utf8::{decode_utf8, encode_utf8, valid_utf8};

verus! {

/// `b` followed by a NUL byte and zero padding up to a word boundary.
pub open spec fn nul_padded(b: Seq<u8>) -> Seq<u8> {
    Seq::new(4 * words_for(b.len() + 1), |j: int| if j < b.len() { b[j] } else { 0u8 })
}

/// `ws` is the wire form of the non-null string `s`: a length word counting the
/// bytes with the NUL, then the NUL-terminated, zero-padded UTF-8 bytes.
pub open spec fn string_encoding(s: Seq<char>, ws: Seq<u32>) -> bool {
    let b = encode_utf8(s);
    &&& ws.len() == 1 + words_for(b.len() + 1)
    &&& ws[0] == b.len() + 1
    &&& words_bytes(ws.skip(1)) == nul_padded(b)
}

/// Number of words that a non-null string of `byte_len` UTF-8 bytes takes on the wire.
pub open spec fn string_words(byte_len: nat) -> nat {
    1 + words_for(byte_len + 1)
}

/// Append a `uint` argument.
pub fn encode_uint(out: &mut Vec<u32>, v: u32)
    ensures
        final(out)@ == old(out)@.push(v),
{
    out.push(v);
}

/// Append an `int` argument: its bits as one word.
pub fn encode_int(out: &mut Vec<u32>, v: i32)
    ensures
        final(out)@ == old(out)@.push(v as u32),
{
    out.push(v as u32);
}

/// Append a `fixed` argument.
pub fn encode_fixed(out: &mut Vec<u32>, v: Fixed)
    ensures
        final(out)@ == old(out)@.push(v.0 as u32),
{
    out.push(v.0 as u32);
}

/// Append an `object` or `new_id` argument.
pub fn encode_object<T>(out: &mut Vec<u32>, id: Id<T>)
    ensures
        final(out)@ == old(out)@.push(id.value()),
{
    out.push(id.get());
}

/// Append a nullable `object` argument; null is the word zero.
pub fn encode_nullable_object<T>(out: &mut Vec<u32>, id: Option<Id<T>>)
    ensures
        final(out)@ == old(out)@.push(
            match id {
                Some(i) => i.value(),
                None => 0u32,
            },
        ),
{
    match id {
        Some(i) => out.push(i.get()),
        None => out.push(0),
    }
}

/// Append an `array` argument: its length in words, then the words.
pub fn encode_array(out: &mut Vec<u32>, a: &[u32])
    requires
        a@.len() <= u32::MAX,
    ensures
        final(out)@ == old(out)@.push(a@.len() as u32) + a@,
{
    out.push(a.len() as u32);
    let ghost base = out@;
    let mut i: usize = 0;
    while i < a.len()
        invariant
            i <= a@.len(),
            out@ == base + a@.take(i as int),
        decreases a@.len() - i,
    {
        out.push(a[i]);
        i = i + 1;
        assert(out@ =~= base + a@.take(i as int));
    }
    assert(a@.take(a@.len() as int) =~= a@);
}

/// Number of words of a non-null `string` argument.
pub fn string_encoded_len(s: &str) -> (r: usize)
    requires
        s@.len() < u32::MAX,
        encode_utf8(s@).len() < u32::MAX,
    ensures
        r == string_words(encode_utf8(s@).len()),
{
    let n = s.as_bytes().len();
    (1 + (n as u64 + 1 + 3) / 4) as usize
}

/// Append a non-null `string` argument.
pub fn encode_string(out: &mut Vec<u32>, s: &str)
    requires
        encode_utf8(s@).len() < u32::MAX,
    ensures
        final(out)@.len() == old(out)@.len() + string_words(encode_utf8(s@).len()),
        final(out)@.take(old(out)@.len() as int) == old(out)@,
        string_encoding(s@, final(out)@.skip(old(out)@.len() as int)),
{
    let b = s.as_bytes();
    let ghost bs = encode_utf8(s@);
    assert(b@ == bs);
    let n = b.len();
    let ghost base = out@;
    out.push((n + 1) as u32);
    let wl: usize = ((n as u64 + 1 + 3) / 4) as usize;
    let mut i: usize = 0;
    proof {
        assert(out@.skip(base.len() as int + 1) =~= Seq::<u32>::empty());
        assert(nul_padded(bs).take(0) =~= Seq::<u8>::empty());
    }
    while i < wl
        invariant
            b@ == bs,
            n == bs.len(),
            n < u32::MAX,
            wl == words_for(n as nat + 1),
            i <= wl,
            out@.len() == base.len() + 1 + i,
            out@.take(base.len() as int) == base,
            out@[base.len() as int] == (n + 1) as u32,
            words_bytes(out@.skip(base.len() as int + 1)) == nul_padded(bs).take(4 * i),
        decreases wl - i,
    {
        let j = 4 * i;
        let b0 = if j < n { b[j] } else { 0u8 };
        let b1 = if j + 1 < n { b[j + 1] } else { 0u8 };
        let b2 = if j + 2 < n { b[j + 2] } else { 0u8 };
        let b3 = if j + 3 < n { b[j + 3] } else { 0u8 };
        let w = word_from_bytes([b0, b1, b2, b3]);
        let ghost prev = out@.skip(base.len() as int + 1);
        out.push(w);
        proof {
            let cur = out@.skip(base.len() as int + 1);
            assert(cur =~= prev.push(w));
            crate::wire::lemma_words_bytes_push(prev, w);
            assert([b0, b1, b2, b3]@ =~= seq![b0, b1, b2, b3]);
            assert(nul_padded(bs).take(4 * (i + 1)) =~= nul_padded(bs).take(4 * i) + seq![b0, b1, b2, b3]);
            assert(out@.take(base.len() as int) =~= base);
        }
        i = i + 1;
    }
    proof {
        assert(nul_padded(bs).take(4 * wl) =~= nul_padded(bs));
        let ws = out@.skip(base.len() as int);
        assert(ws.skip(1) =~= out@.skip(base.len() as int + 1));
    }
}

/// Append a nullable `string` argument; null is the word zero.
pub fn encode_nullable_string(out: &mut Vec<u32>, s: Option<&str>)
    requires
        s matches Some(t) ==> encode_utf8(t@).len() < u32::MAX,
    ensures
        s is None ==> final(out)@ == old(out)@.push(0u32),
        s matches Some(t) ==> final(out)@.take(old(out)@.len() as int) == old(out)@
            && string_encoding(t@, final(out)@.skip(old(out)@.len() as int)),
{
    match s {
        Some(t) => encode_string(out, t),
        None => out.push(0),
    }
}

/// Decoding the word of a `uint` gives it back.
pub proof fn lemma_uint_round_trip(v: u32, rest: Seq<u32>)
    ensures
        spec_take(seq![v] + rest) == Ok::<(u32, nat), crate::wire::WireError>((v, 1)),
{
    assert((seq![v] + rest)[0] == v);
}

/// Decoding the word of an `int` gives it back.
pub proof fn lemma_int_round_trip(v: i32, rest: Seq<u32>)
    ensures
        spec_take(seq![v as u32] + rest) matches Ok((w, k)) && w as i32 == v && k == 1,
{
    assert((seq![v as u32] + rest)[0] == v as u32);
    assert(((v as u32) as i32) == v) by (bit_vector);
}

/// Decoding the word of a `fixed` gives it back.
pub proof fn lemma_fixed_round_trip(v: Fixed, rest: Seq<u32>)
    ensures
        spec_take(seq![v.0 as u32] + rest) matches Ok((w, k)) && Fixed(w as i32) == v && k == 1,
{
    let x = v.0;
    assert((seq![x as u32] + rest)[0] == x as u32);
    assert(((x as u32) as i32) == x) by (bit_vector);
}

/// Decoding the word of an id (object or new id) gives the id back, nullable or not.
pub proof fn lemma_id_round_trip<T>(id: Id<T>, nullable: bool, rest: Seq<u32>)
    requires
        id.wf(),
    ensures
        spec_object(seq![id.value()] + rest, nullable) == Ok::<(u32, nat), crate::wire::WireError>((id.value(), 1)),
{
    id.lemma_value_wf();
    assert((seq![id.value()] + rest)[0] == id.value());
}

/// Decoding the word of a null id, where null is allowed, gives null back.
pub proof fn lemma_null_id_round_trip(rest: Seq<u32>)
    ensures
        spec_object(seq![0u32] + rest, true) == Ok::<(u32, nat), crate::wire::WireError>((0u32, 1)),
{
    assert((seq![0u32] + rest)[0] == 0u32);
}

/// Decoding the words of an array gives the array back.
pub proof fn lemma_array_round_trip(a: Seq<u32>, rest: Seq<u32>)
    requires
        a.len() <= u32::MAX,
    ensures
        spec_array(seq![a.len() as u32].add(a) + rest) == Ok::<(Seq<u32>, nat), crate::wire::WireError>((a, 1 + a.len())),
{
    let e = seq![a.len() as u32].add(a) + rest;
    assert(e[0] == a.len() as u32);
    assert(e.subrange(1, 1 + a.len() as int) =~= a);
}

/// Decoding the words of a null string, where null is allowed, gives null back.
pub proof fn lemma_null_string_round_trip(rest: Seq<u32>)
    ensures
        spec_string(seq![0u32] + rest, true) == Ok::<(Option<Seq<char>>, nat), crate::wire::WireError>((None, 1)),
{
    assert((seq![0u32] + rest)[0] == 0u32);
}

/// Decoding the wire form of a string gives the string back, nullable or not,
/// for every string whose UTF-8 bytes hold no NUL.
pub proof fn lemma_string_round_trip(s: Seq<char>, ws: Seq<u32>, nullable: bool, rest: Seq<u32>)
    requires
        string_encoding(s, ws),
        !encode_utf8(s).contains(0u8),
    ensures
        spec_string(ws + rest, nullable) == Ok::<(Option<Seq<char>>, nat), crate::wire::WireError>(
            (Some(s), ws.len()),
        ),
{
    let b = encode_utf8(s);
    let e = ws + rest;
    let n = b.len() + 1;
    assert(e[0] == ws[0]);
    assert(e.subrange(1, 1 + words_for(n) as int) =~= ws.skip(1));
    let bytes = nul_padded(b);
    assert(bytes.take(n - 1) =~= b);
    vstd::utf8::encode_utf8_valid_utf8(s);
    vstd::utf8::encode_utf8_decode_utf8(s);
}

} // verus!
