//! Decoding request arguments from the words of a message body.

use crate::wire::{
    lemma_words_bytes_push, ne_bytes, word_to_bytes, words_bytes,
    words_sized, Fixed, Id, WireError,
};
use vstd::prelude::*;
use vstd::utf8::{decode_utf8, valid_utf8};

verus! {

/// Relies on `core::str::from_utf8`: the text of `b` when `b` is UTF-8.
#[verifier::external_body]
fn utf8_text(b: &[u8]) -> (r: Option<String>)
    ensures
        r is Some <==> valid_utf8(b@),
        r matches Some(s) ==> s@ == decode_utf8(b@),
{
    match core::str::from_utf8(b) {
        Ok(s) => Some(s.to_string()),
        Err(_) => None,
    }
}

/// Number of words that hold `n` bytes.
pub open spec fn words_for(n: nat) -> nat {
    (n + 3) / 4
}

/// Decoding of one word: the word and one consumed word.
pub open spec fn spec_take(rest: Seq<u32>) -> Result<(u32, nat), WireError> {
    if rest.len() == 0 {
        Err(WireError::TooFewArgs)
    } else {
        Ok((rest[0], 1))
    }
}

/// Decoding of an array argument: a length word counting words, then the words.
pub open spec fn spec_array(rest: Seq<u32>) -> Result<(Seq<u32>, nat), WireError> {
    if rest.len() == 0 {
        Err(WireError::TooFewArgs)
    } else if rest.len() - 1 < rest[0] {
        Err(WireError::TooFewArgs)
    } else {
        Ok((rest.subrange(1, 1 + rest[0] as int), 1 + rest[0] as nat))
    }
}

/// Decoding of an object id; zero is null and accepted only when `nullable`.
pub open spec fn spec_object(rest: Seq<u32>, nullable: bool) -> Result<(u32, nat), WireError> {
    if rest.len() == 0 {
        Err(WireError::TooFewArgs)
    } else if rest[0] == 0 && !nullable {
        Err(WireError::NullArgument)
    } else {
        Ok((rest[0], 1))
    }
}

/// The body bytes of a string argument of `n` bytes (NUL included) held in `ws`.
pub open spec fn string_bytes(n: nat, ws: Seq<u32>) -> Seq<u8> {
    words_bytes(ws.subrange(1, 1 + words_for(n) as int))
}

/// Decoding of a string argument: `Ok((None, 1))` for a null string, else the
/// characters and the number of words consumed.
pub open spec fn spec_string(rest: Seq<u32>, nullable: bool) -> Result<
    (Option<Seq<char>>, nat),
    WireError,
> {
    if rest.len() == 0 {
        Err(WireError::TooFewArgs)
    } else if rest[0] == 0 {
        if nullable {
            Ok((None, 1))
        } else {
            Err(WireError::NullArgument)
        }
    } else if rest.len() - 1 < words_for(rest[0] as nat) {
        Err(WireError::TooFewArgs)
    } else {
        let n = rest[0] as nat;
        let bytes = string_bytes(n, rest);
        let body = bytes.take(n - 1);
        if bytes[n - 1] != 0 {
            Err(WireError::NotNulTerminated)
        } else if body.contains(0u8) {
            Err(WireError::InteriorNul)
        } else if !valid_utf8(body) {
            Err(WireError::InvalidUtf8)
        } else {
            Ok((Some(decode_utf8(body)), 1 + words_for(n)))
        }
    }
}

/// The result of a decode, with the consumed count dropped.
pub open spec fn value_of<V>(r: Result<(V, nat), WireError>) -> Result<V, WireError> {
    match r {
        Ok((v, _)) => Ok(v),
        Err(e) => Err(e),
    }
}

/// What is left of `rest` after a decode: the tail on success, `rest` itself on error.
pub open spec fn rest_after<V>(rest: Seq<u32>, r: Result<(V, nat), WireError>) -> Seq<u32> {
    match r {
        Ok((_, k)) => rest.skip(k as int),
        Err(_) => rest,
    }
}

/// Cursor over the argument words of one message body.
pub struct Args<'a> {
    words: &'a [u32],
    pos: usize,
}

impl<'a> Args<'a> {
    /// The words not yet decoded.
    pub closed spec fn rest(&self) -> Seq<u32> {
        self.words@.skip(self.pos as int)
    }

    pub closed spec fn wf(&self) -> bool {
        self.pos <= self.words@.len()
    }

    /// A cursor at the start of `words`.
    pub fn new(words: &'a [u32]) -> (r: Self)
        ensures
            r.wf(),
            r.rest() == words@,
    {
        let r = Args { words, pos: 0 };
        assert(r.rest() =~= words@);
        r
    }

    /// Take one word.
    pub fn take(&mut self) -> (r: Result<u32, WireError>)
        requires
            old(self).wf(),
        ensures
            final(self).wf(),
            r == value_of(spec_take(old(self).rest())),
            final(self).rest() == rest_after(old(self).rest(), spec_take(old(self).rest())),
    {
        if self.pos < self.words.len() {
            let w = self.words[self.pos];
            self.pos = self.pos + 1;
            proof {
                assert(self.rest() =~= old(self).rest().skip(1));
            }
            Ok(w)
        } else {
            Err(WireError::TooFewArgs)
        }
    }

    /// Take `n` words.
    pub fn take_n(&mut self, n: usize) -> (r: Result<Vec<u32>, WireError>)
        requires
            old(self).wf(),
        ensures
            final(self).wf(),
            n <= old(self).rest().len() ==> (r matches Ok(v) && v@ == old(self).rest().take(n as int)
                && final(self).rest() == old(self).rest().skip(n as int)),
            n > old(self).rest().len() ==> r == Err::<Vec<u32>, WireError>(WireError::TooFewArgs)
                && final(self).rest() == old(self).rest(),
    {
        if n <= self.words.len() - self.pos {
            let mut v: Vec<u32> = Vec::new();
            let mut i: usize = 0;
            while i < n
                invariant
                    self.pos + n <= self.words.len(),
                    i <= n,
                    v@ == self.words@.subrange(self.pos as int, self.pos + i),
                decreases n - i,
            {
                v.push(self.words[self.pos + i]);
                i = i + 1;
                proof {
                    assert(v@ =~= self.words@.subrange(self.pos as int, self.pos + i));
                }
            }
            self.pos = self.pos + n;
            proof {
                assert(v@ =~= old(self).rest().take(n as int));
                assert(self.rest() =~= old(self).rest().skip(n as int));
            }
            Ok(v)
        } else {
            Err(WireError::TooFewArgs)
        }
    }

    /// Succeed only when every word has been decoded.
    pub fn finish(self) -> (r: Result<(), WireError>)
        requires
            self.wf(),
        ensures
            r is Ok <==> self.rest().len() == 0,
            r is Err ==> r == Err::<(), WireError>(WireError::TooManyArgs),
    {
        if self.pos == self.words.len() {
            Ok(())
        } else {
            Err(WireError::TooManyArgs)
        }
    }

    /// Decode a `uint` argument.
    pub fn take_uint(&mut self) -> (r: Result<u32, WireError>)
        requires
            old(self).wf(),
        ensures
            final(self).wf(),
            r == value_of(spec_take(old(self).rest())),
            final(self).rest() == rest_after(old(self).rest(), spec_take(old(self).rest())),
    {
        self.take()
    }

    /// Decode an `int` argument: the word reinterpreted as signed.
    pub fn take_int(&mut self) -> (r: Result<i32, WireError>)
        requires
            old(self).wf(),
        ensures
            final(self).wf(),
            r matches Ok(v) ==> (spec_take(old(self).rest()) matches Ok((w, _)) && v == w as i32),
            r is Err ==> r == Err::<i32, WireError>(WireError::TooFewArgs)
                && spec_take(old(self).rest()) is Err,
            final(self).rest() == rest_after(old(self).rest(), spec_take(old(self).rest())),
    {
        match self.take() {
            Ok(w) => Ok(w as i32),
            Err(e) => Err(e),
        }
    }

    /// Decode a `fixed` argument.
    pub fn take_fixed(&mut self) -> (r: Result<Fixed, WireError>)
        requires
            old(self).wf(),
        ensures
            final(self).wf(),
            r matches Ok(v) ==> (spec_take(old(self).rest()) matches Ok((w, _)) && v.0 == w as i32),
            r is Err ==> r == Err::<Fixed, WireError>(WireError::TooFewArgs)
                && spec_take(old(self).rest()) is Err,
            final(self).rest() == rest_after(old(self).rest(), spec_take(old(self).rest())),
    {
        match self.take() {
            Ok(w) => Ok(Fixed(w as i32)),
            Err(e) => Err(e),
        }
    }

    /// Decode an `object` argument that may be null.
    pub fn take_nullable_object<T>(&mut self) -> (r: Result<Option<Id<T>>, WireError>)
        requires
            old(self).wf(),
        ensures
            final(self).wf(),
            final(self).rest() == rest_after(old(self).rest(), spec_object(old(self).rest(), true)),
            r is Err <==> spec_object(old(self).rest(), true) is Err,
            r is Err ==> r == Err::<Option<Id<T>>, WireError>(WireError::TooFewArgs),
            r matches Ok(o) ==> (spec_object(old(self).rest(), true) matches Ok((w, _)) && (match o {
                None => w == 0,
                Some(id) => id.value() == w && w != 0 && id.wf(),
            })),
    {
        match self.take() {
            Ok(w) => Ok(Id::new(w)),
            Err(e) => Err(e),
        }
    }

    /// Decode a non-null `object` or `new_id` argument.
    pub fn take_object<T>(&mut self) -> (r: Result<Id<T>, WireError>)
        requires
            old(self).wf(),
        ensures
            final(self).wf(),
            final(self).rest() == rest_after(old(self).rest(), spec_object(old(self).rest(), false)),
            r matches Err(e) ==> spec_object(old(self).rest(), false) == Err::<(u32, nat), WireError>(e),
            r matches Ok(id) ==> (spec_object(old(self).rest(), false) matches Ok((w, _))
                && id.value() == w && id.wf()),
            r is Ok <==> spec_object(old(self).rest(), false) is Ok,
    {
        if self.pos < self.words.len() {
            let w = self.words[self.pos];
            match Id::new(w) {
                Some(id) => {
                    self.pos = self.pos + 1;
                    proof {
                        assert(self.rest() =~= old(self).rest().skip(1));
                    }
                    Ok(id)
                },
                None => Err(WireError::NullArgument),
            }
        } else {
            Err(WireError::TooFewArgs)
        }
    }

    /// Decode an `array` argument.
    pub fn take_array(&mut self) -> (r: Result<Vec<u32>, WireError>)
        requires
            old(self).wf(),
        ensures
            final(self).wf(),
            r matches Ok(v) ==> (spec_array(old(self).rest()) matches Ok((a, _)) && v@ == a),
            r matches Err(e) ==> spec_array(old(self).rest()) == Err::<(Seq<u32>, nat), WireError>(e),
            r is Ok <==> spec_array(old(self).rest()) is Ok,
            final(self).rest() == rest_after(old(self).rest(), spec_array(old(self).rest())),
    {
        if self.pos < self.words.len() {
            let n = self.words[self.pos];
            if n as usize <= self.words.len() - self.pos - 1 {
                self.pos = self.pos + 1;
                assert(self.rest() =~= old(self).rest().skip(1));
                let r = self.take_n(n as usize);
                proof {
                    assert(old(self).rest().skip(1).take(n as int) =~= old(self).rest().subrange(1, 1 + n as int));
                    assert(old(self).rest().skip(1).skip(n as int) =~= old(self).rest().skip(1 + n as int));
                }
                r
            } else {
                Err(WireError::TooFewArgs)
            }
        } else {
            Err(WireError::TooFewArgs)
        }
    }
}

/// The bytes of the words `ws[lo..hi]`, in order.
fn bytes_of_words(ws: &[u32], lo: usize, hi: usize) -> (r: Vec<u8>)
    requires
        lo <= hi <= ws@.len(),
    ensures
        r@ == words_bytes(ws@.subrange(lo as int, hi as int)),
        r@.len() == 4 * (hi - lo),
        words_sized(ws@.subrange(lo as int, hi as int)),
{
    let mut r: Vec<u8> = Vec::new();
    let mut i: usize = lo;
    proof {
        assert(ws@.subrange(lo as int, lo as int) =~= Seq::<u32>::empty());
    }
    while i < hi
        invariant
            lo <= i <= hi <= ws@.len(),
            r@ == words_bytes(ws@.subrange(lo as int, i as int)),
            words_sized(ws@.subrange(lo as int, i as int)),
            r@.len() == 4 * (i - lo),
        decreases hi - i,
    {
        let b = word_to_bytes(ws[i]);
        r.push(b[0]);
        r.push(b[1]);
        r.push(b[2]);
        r.push(b[3]);
        proof {
            let prev = ws@.subrange(lo as int, i as int);
            let next = ws@.subrange(lo as int, i + 1);
            assert(next =~= prev.push(ws@[i as int]));
            lemma_words_bytes_push(prev, ws@[i as int]);
            assert(r@ =~= words_bytes(prev) + ne_bytes(ws@[i as int]));
            assert forall|j: int| 0 <= j < next.len() implies (#[trigger] ne_bytes(next[j])).len() == 4 by {
                if j < prev.len() {
                    assert(next[j] == prev[j]);
                }
            }
        }
        i = i + 1;
    }
    r
}

impl<'a> Args<'a> {
    /// Decode a `string` argument; a null string is `None`, accepted only when `nullable`.
    pub fn take_string(&mut self, nullable: bool) -> (r: Result<Option<String>, WireError>)
        requires
            old(self).wf(),
        ensures
            final(self).wf(),
            final(self).rest() == rest_after(old(self).rest(), spec_string(old(self).rest(), nullable)),
            r is Ok <==> spec_string(old(self).rest(), nullable) is Ok,
            r matches Err(e) ==> spec_string(old(self).rest(), nullable) == Err::<(Option<Seq<char>>, nat), WireError>(e),
            r matches Ok(o) ==> (spec_string(old(self).rest(), nullable) matches Ok((c, _)) && (match o {
                None => c is None,
                Some(t) => c == Some(t@),
            })),
    {
        let ghost rest = self.rest();
        if self.pos >= self.words.len() {
            return Err(WireError::TooFewArgs);
        }
        let n = self.words[self.pos];
        if n == 0 {
            if nullable {
                self.pos = self.pos + 1;
                assert(self.rest() =~= rest.skip(1));
                return Ok(None);
            } else {
                return Err(WireError::NullArgument);
            }
        }
        let wl: usize = ((n as u64 + 3) / 4) as usize;
        if wl > self.words.len() - self.pos - 1 {
            return Err(WireError::TooFewArgs);
        }
        let start = self.pos + 1;
        let bytes = bytes_of_words(self.words, start, start + wl);
        proof {
            assert(rest.subrange(1, 1 + words_for(n as nat) as int) =~= self.words@.subrange(start as int, start + wl));
            assert(bytes@ == string_bytes(n as nat, rest));
        }
        let last = (n - 1) as usize;
        if bytes[last] != 0 {
            return Err(WireError::NotNulTerminated);
        }
        let ghost body = bytes@.take(last as int);
        let mut k: usize = 0;
        while k < last
            invariant
                k <= last < bytes@.len(),
                body == bytes@.take(last as int),
                self.wf(),
                self.rest() == rest,
                old(self).rest() == rest,
                rest.len() > 0 && rest[0] == n && n > 0,
                last == n - 1,
                rest.len() - 1 >= words_for(n as nat),
                bytes@ == string_bytes(n as nat, rest),
                bytes@[last as int] == 0,
                forall|j: int| 0 <= j < k ==> body[j] != 0u8,
            decreases last - k,
        {
            if bytes[k] == 0 {
                assert(body[k as int] == 0u8);
                return Err(WireError::InteriorNul);
            }
            k = k + 1;
        }
        let body_slice = vstd::slice::slice_subrange(bytes.as_slice(), 0, last);
        assert(body_slice@ =~= body);
        match utf8_text(body_slice) {
            None => Err(WireError::InvalidUtf8),
            Some(text) => {
                self.pos = start + wl;
                assert(self.rest() =~= rest.skip(1 + wl));
                Ok(Some(text))
            },
        }
    }
}

} // verus!
