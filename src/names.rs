//! Names that generated code gives to protocol items: a `snake_case` Wayland
//! name becomes a `CamelCase` type name, a leading digit gets an underscore in
//! front, and `iface.name` refers to an item of another interface.

use vstd::prelude::*;

verus! {

/// What `char::to_uppercase` yields for `c`.
pub uninterp spec fn upper_of(c: char) -> Seq<char>;

/// What `char::is_numeric` says of `c`.
pub uninterp spec fn numeric_of(c: char) -> bool;

/// Relies on `char::to_uppercase`: the upper-case form of `c`, one or more characters.
#[verifier::external_body]
fn upper(c: char) -> (r: String)
    ensures
        r@ == upper_of(c),
{
    c.to_uppercase().collect()
}

/// Relies on `char::is_numeric`: whether `c` is a numeric character.
#[verifier::external_body]
fn numeric(c: char) -> (r: bool)
    ensures
        r == numeric_of(c),
{
    c.is_numeric()
}

/// `s` in `CamelCase`: underscores dropped, the first character of each word upper-cased.
pub open spec fn camel(s: Seq<char>, at_start: bool) -> Seq<char>
    decreases s.len(),
{
    if s.len() == 0 {
        Seq::empty()
    } else if s[0] == '_' {
        camel(s.skip(1), true)
    } else if at_start {
        upper_of(s[0]) + camel(s.skip(1), false)
    } else {
        seq![s[0]] + camel(s.skip(1), false)
    }
}

/// Whether splitting `s` at underscores gives an empty word.
pub open spec fn has_empty_word(s: Seq<char>) -> bool {
    s.len() == 0 || s[0] == '_' || s.last() == '_' || exists|i: int| 0 <= i < s.len() - 1 && #[trigger] s[i] == '_' && s[i + 1] == '_'
}

/// The type name for the Wayland name `s` (no dot in it).
pub open spec fn ident_spec(s: Seq<char>) -> Option<Seq<char>> {
    if has_empty_word(s) {
        None
    } else if numeric_of(s[0]) {
        Some(seq!['_'] + camel(s, true))
    } else {
        Some(camel(s, true))
    }
}

/// The name for `s`, which may name an item of another interface as `iface.name`.
pub open spec fn rust_name_spec(s: Seq<char>) -> Option<Seq<char>> {
    if exists|i: int| 0 <= i < s.len() && s[i] == '.' {
        let i = choose|i: int| 0 <= i < s.len() && s[i] == '.' && forall|j: int| 0 <= j < i ==> s[j] != '.';
        match ident_spec(s.skip(i + 1)) {
            Some(t) => Some("super::"@ + s.take(i) + "::"@ + t),
            None => None,
        }
    } else {
        ident_spec(s)
    }
}

/// `CamelCase` of `s[from..]`, one word boundary pending at `from` when `at_start`.
fn push_camel(out: &mut String, s: &str, from: usize, at_start: bool)
    requires
        from <= s@.len(),
    ensures
        final(out)@ == old(out)@ + camel(s@.skip(from as int), at_start),
    decreases s@.len() - from,
{
    let n = s.unicode_len();
    if from == n {
        assert(s@.skip(from as int) =~= Seq::<char>::empty());
        assert(old(out)@ + Seq::<char>::empty() =~= old(out)@);
        return;
    }
    let c = s.get_char(from);
    assert(s@.skip(from as int).skip(1) =~= s@.skip(from + 1));
    if c == '_' {
        push_camel(out, s, from + 1, true);
    } else if at_start {
        let u = upper(c);
        out.append(u.as_str());
        push_camel(out, s, from + 1, false);
        assert(final(out)@ =~= old(out)@ + camel(s@.skip(from as int), at_start));
    } else {
        let single = s.substring_char(from, from + 1);
        assert(single@ =~= seq![c]);
        out.append(single);
        push_camel(out, s, from + 1, false);
        assert(final(out)@ =~= old(out)@ + camel(s@.skip(from as int), at_start));
    }
}

/// Whether splitting `s` at underscores gives an empty word.
fn empty_word(s: &str) -> (r: bool)
    ensures
        r == has_empty_word(s@),
{
    let n = s.unicode_len();
    if n == 0 {
        return true;
    }
    if s.get_char(0) == '_' || s.get_char(n - 1) == '_' {
        return true;
    }
    let mut i: usize = 0;
    while i + 1 < n
        invariant
            n == s@.len(),
            n > 0,
            i + 1 <= n,
            forall|j: int| 0 <= j < i ==> !(#[trigger] s@[j] == '_' && s@[j + 1] == '_'),
        decreases n - i,
    {
        if s.get_char(i) == '_' && s.get_char(i + 1) == '_' {
            return true;
        }
        i = i + 1;
    }
    false
}

/// The type name for a Wayland name without a dot, or `None` when a word is empty.
pub fn ident_of(s: &str) -> (r: Option<String>)
    ensures
        r matches Some(t) ==> ident_spec(s@) == Some(t@),
        r is None ==> ident_spec(s@) is None,
{
    if empty_word(s) {
        return None;
    }
    let mut out = String::new();
    if numeric(s.get_char(0)) {
        proof {
            reveal_strlit("_");
        }
        out.append("_");
    }
    push_camel(&mut out, s, 0, true);
    assert(s@.skip(0) =~= s@);
    Some(out)
}

/// The name that generated code uses for the Wayland name `s`: `CamelCase`,
/// an underscore before a leading digit, and `super::iface::Name` for
/// `iface.name`. `None` when a word of the name is empty.
pub fn rust_name(s: &str) -> (r: Option<String>)
    ensures
        r matches Some(t) ==> rust_name_spec(s@) == Some(t@),
        r is None ==> rust_name_spec(s@) is None,
{
    let n = s.unicode_len();
    let mut i: usize = 0;
    while i < n && s.get_char(i) != '.'
        invariant
            n == s@.len(),
            i <= n,
            forall|j: int| 0 <= j < i ==> s@[j] != '.',
        decreases n - i,
    {
        i = i + 1;
    }
    if i == n {
        return ident_of(s);
    }
    let ghost k = choose|k: int| 0 <= k < s@.len() && s@[k] == '.' && forall|j: int| 0 <= j < k ==> s@[j] != '.';
    assert(k == i) by {
        if k < i {
            assert(s@[k] != '.');
        } else if k > i {
            assert(s@[i as int] != '.');
        }
    }
    let rest = s.substring_char(i + 1, n);
    assert(rest@ =~= s@.skip(i + 1));
    match ident_of(rest) {
        None => None,
        Some(t) => {
            proof {
                reveal_strlit("super::");
                reveal_strlit("::");
            }
            let mut out = String::new();
            out.append("super::");
            out.append(s.substring_char(0, i));
            out.append("::");
            out.append(t.as_str());
            assert(out@ =~= "super::"@ + s@.take(i as int) + "::"@ + t@);
            Some(out)
        },
    }
}

} // verus!
