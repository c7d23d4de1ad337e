//! The protocol-schema model, and the reader that builds it from an XML
//! element tree: required, unknown and duplicate attributes, stray text, the
//! arg-type table and the interface/version arguments of untyped new ids.

use crate::dispatch::str_eq;
use vstd::prelude::*;

verus! {

/// A protocol: a name, optional copyright and description, and its interfaces.
pub struct Protocol {
    pub name: String,
    pub copyright: Option<String>,
    pub desc: Option<Description>,
    pub interfaces: Vec<Interface>,
}

/// An interface: name, non-zero version, and its requests, events and enums in order.
pub struct Interface {
    pub name: String,
    pub version: u32,
    pub desc: Option<Description>,
    pub requests: Vec<Message>,
    pub events: Vec<Message>,
    pub enums: Vec<Enum>,
}

/// A request or an event.
pub struct Message {
    pub name: String,
    pub kind: Option<String>,
    pub since: Option<u32>,
    pub desc: Option<Description>,
    pub args: Vec<Arg>,
}

/// One argument of a message.
pub struct Arg {
    pub name: String,
    pub ty: ArgType,
    pub summary: Option<String>,
}

/// The wire type of an argument.
pub enum ArgType {
    Int,
    Uint { enum_ref: Option<String> },
    Fixed,
    Str { nullable: bool },
    Object { interface: Option<String>, nullable: bool },
    NewId { interface: Option<String> },
    Array,
    Fd,
}

/// An enum of an interface.
pub struct Enum {
    pub name: String,
    pub since: Option<u32>,
    pub bitfield: bool,
    pub desc: Option<Description>,
    pub entries: Vec<Entry>,
}

/// One entry of an enum; `value_is_hex` keeps how the value was written.
pub struct Entry {
    pub name: String,
    pub value: u32,
    pub value_is_hex: bool,
    pub summary: Option<String>,
    pub since: Option<u32>,
}

/// A description: its summary attribute and its text.
pub struct Description {
    pub summary: String,
    pub description: String,
}

/// The kinds of node in an XML tree.
#[derive(Clone, Copy, Debug, PartialEq, Eq, Structural)]
pub enum XmlKind {
    Element,
    Text,
    Comment,
    Other,
}

/// An attribute of an XML element.
pub struct XmlAttr {
    pub name: String,
    pub value: String,
}

/// A node of an XML tree, with the byte range it spans in the source.
pub struct XmlNode {
    pub kind: XmlKind,
    pub tag: String,
    pub attrs: Vec<XmlAttr>,
    pub text: Option<String>,
    pub start: usize,
    pub end: usize,
    pub children: Vec<XmlNode>,
}

/// What is wrong with a schema, and the byte range of the offending node.
#[derive(Clone, Copy, Debug, PartialEq, Eq, Structural)]
pub enum SchemaErrorKind {
    /// The root does not hold exactly one `<protocol>`.
    BadRoot,
    /// An element other than the one expected at this place.
    UnexpectedElement,
    /// Non-whitespace text outside a description or copyright.
    StrayText,
    /// A node that is neither element, text nor comment.
    UnexpectedNode,
    /// An attribute that the element does not take.
    UnknownAttribute,
    /// An attribute given twice.
    DuplicateAttribute,
    /// A required attribute that is missing.
    MissingAttribute,
    /// An attribute value that cannot be parsed.
    BadValue,
    /// A combination of arg attributes outside the arg-type table.
    BadArgType,
    /// An element that must hold text holds none.
    MissingText,
}

/// A schema error with the byte range of the node at fault.
#[derive(Clone, Copy, Debug, PartialEq, Eq, Structural)]
pub struct SchemaError {
    pub kind: SchemaErrorKind,
    pub start: usize,
    pub end: usize,
}

/// The error `kind` at `node`.
fn error_at(node: &XmlNode, kind: SchemaErrorKind) -> (r: SchemaError)
    ensures
        r.kind == kind,
        r.start == node.start,
        r.end == node.end,
{
    SchemaError { kind, start: node.start, end: node.end }
}

/// Whether `c` has the Unicode `White_Space` property.
pub open spec fn is_white(c: char) -> bool {
    ('\t' <= c <= '\r') || c == ' ' || c == '\u{85}' || c == '\u{a0}' || c == '\u{1680}' || ('\u{2000}' <= c
        <= '\u{200a}') || c == '\u{2028}' || c == '\u{2029}' || c == '\u{202f}' || c == '\u{205f}' || c == '\u{3000}'
}

/// Whether every character of `s` is whitespace.
pub open spec fn all_white(s: Seq<char>) -> bool {
    forall|i: int| 0 <= i < s.len() ==> is_white(#[trigger] s[i])
}

/// `true` when `s` is whitespace only.
pub fn is_blank(s: &str) -> (r: bool)
    ensures
        r == all_white(s@),
{
    let n = s.unicode_len();
    let mut i: usize = 0;
    while i < n
        invariant
            n == s@.len(),
            i <= n,
            forall|j: int| 0 <= j < i ==> is_white(#[trigger] s@[j]),
        decreases n - i,
    {
        let c = s.get_char(i);
        let white = ('\t' <= c && c <= '\r') || c == ' ' || c == '\u{85}' || c == '\u{a0}' || c == '\u{1680}'
            || ('\u{2000}' <= c && c <= '\u{200a}') || c == '\u{2028}' || c == '\u{2029}' || c == '\u{202f}'
            || c == '\u{205f}' || c == '\u{3000}';
        if !white {
            return false;
        }
        i = i + 1;
    }
    true
}

/// The element children of `node`, in order: comments are skipped and
/// whitespace-only text is ignored; other text and other nodes are errors.
pub open spec fn spec_elements(children: Seq<XmlNode>) -> Option<Seq<int>>
    decreases children.len(),
{
    if children.len() == 0 {
        Some(Seq::empty())
    } else {
        match spec_elements(children.drop_last()) {
            None => None,
            Some(idx) => {
                let c = children.last();
                match c.kind {
                    XmlKind::Element => Some(idx.push(children.len() - 1)),
                    XmlKind::Comment => Some(idx),
                    XmlKind::Text => if c.text is None || all_white(c.text->0@) {
                        Some(idx)
                    } else {
                        None
                    },
                    XmlKind::Other => None,
                }
            },
        }
    }
}

/// The error for a child that is neither an element, a comment nor blank text:
/// its kind and its byte range.
pub open spec fn stray_error(c: XmlNode) -> Option<SchemaError> {
    match c.kind {
        XmlKind::Other => Some(SchemaError { kind: SchemaErrorKind::UnexpectedNode, start: c.start, end: c.end }),
        XmlKind::Text => if c.text is Some && !all_white(c.text->0@) {
            Some(SchemaError { kind: SchemaErrorKind::StrayText, start: c.start, end: c.end })
        } else {
            None
        },
        _ => None,
    }
}

/// Indices of the element children of `node`, in order.
pub fn element_children(node: &XmlNode) -> (r: Result<Vec<usize>, SchemaError>)
    ensures
        r is Ok <==> spec_elements(node.children@) is Some,
        r matches Err(e) ==> exists|i: int|
            0 <= i < node.children@.len() && spec_elements(#[trigger] node.children@.take(i)) is Some
                && stray_error(node.children@[i]) == Some(e),
        r matches Ok(v) ==> spec_elements(node.children@) == Some(v@.map_values(|i: usize| i as int)),
{
    let mut out: Vec<usize> = Vec::new();
    let mut i: usize = 0;
    proof {
        assert(node.children@.take(0) =~= Seq::<XmlNode>::empty());
        assert(out@.map_values(|i: usize| i as int) =~= Seq::<int>::empty());
    }
    while i < node.children.len()
        invariant
            i <= node.children@.len(),
            spec_elements(node.children@.take(i as int)) == Some(out@.map_values(|k: usize| k as int)),
        decreases node.children@.len() - i,
    {
        let c = &node.children[i];
        proof {
            assert(node.children@.take(i + 1).drop_last() =~= node.children@.take(i as int));
            assert(node.children@.take(i + 1).last() == node.children@[i as int]);
        }
        match c.kind {
            XmlKind::Element => {
                let ghost before = out@;
                out.push(i);
                assert(out@.map_values(|k: usize| k as int) =~= before.map_values(|k: usize| k as int).push(i as int));
            },
            XmlKind::Comment => {},
            XmlKind::Text => {
                match &c.text {
                    Some(t) => {
                        if !is_blank(t.as_str()) {
                            proof { lemma_elements_stop(node.children@, i as int); }
                            return Err(error_at(c, SchemaErrorKind::StrayText));
                        }
                    },
                    None => {},
                }
            },
            XmlKind::Other => {
                proof { lemma_elements_stop(node.children@, i as int); }
                return Err(error_at(c, SchemaErrorKind::UnexpectedNode));
            },
        }
        i = i + 1;
    }
    assert(node.children@.take(node.children@.len() as int) =~= node.children@);
    Ok(out)
}

/// Once the element scan fails on a prefix, it fails on the whole sequence.
proof fn lemma_elements_stop(children: Seq<XmlNode>, i: int)
    requires
        0 <= i < children.len(),
        spec_elements(children.take(i + 1)) is None,
    ensures
        spec_elements(children) is None,
    decreases children.len() - i,
{
    if i + 1 < children.len() {
        assert(children.take(i + 2).drop_last() =~= children.take(i + 1));
        lemma_elements_stop(children, i + 1);
    } else {
        assert(children.take(i + 1) =~= children);
    }
}

/// `n` is one of `names`.
pub open spec fn name_listed(names: Seq<&str>, n: Seq<char>) -> bool {
    exists|j: int| 0 <= j < names.len() && names[j]@ == n
}

/// The attributes of an element are all among `names`, each at most once.
pub open spec fn attrs_ok(attrs: Seq<XmlAttr>, names: Seq<&str>) -> bool {
    &&& forall|a: int| 0 <= a < attrs.len() ==> name_listed(names, (#[trigger] attrs[a]).name@)
    &&& forall|a: int, b: int| 0 <= a < b < attrs.len() ==> attrs[a].name@ != attrs[b].name@
}

/// Check the attributes of `node`: each must be among `names` and appear once.
#[verifier::rlimit(40)]
pub fn check_attributes(node: &XmlNode, names: &[&str]) -> (r: Result<(), SchemaError>)
    ensures
        r is Ok <==> attrs_ok(node.attrs@, names@),
        r matches Err(e) ==> e.kind == SchemaErrorKind::UnknownAttribute || e.kind == SchemaErrorKind::DuplicateAttribute,
{
    let mut i: usize = 0;
    while i < node.attrs.len()
        invariant
            i <= node.attrs@.len(),
            forall|a: int| 0 <= a < i ==> name_listed(names@, (#[trigger] node.attrs@[a]).name@),
            forall|a: int, b: int| 0 <= a < b < i ==> node.attrs@[a].name@ != node.attrs@[b].name@,
        decreases node.attrs@.len() - i,
    {
        let attr = &node.attrs[i];
        let mut j: usize = 0;
        let mut found = false;
        while j < names.len() && !found
            invariant
                j <= names@.len(),
                found ==> j < names@.len() && names@[j as int]@ == attr.name@,
                !found ==> forall|k: int| 0 <= k < j ==> names@[k]@ != attr.name@,
            decreases names@.len() - j + (if found { 0int } else { 1int }),
        {
            if str_eq(attr.name.as_str(), names[j]) {
                found = true;
            } else {
                j = j + 1;
            }
        }
        if !found {
            assert(!attrs_ok(node.attrs@, names@)) by {
                assert(node.attrs@[i as int] == *attr);
                if attrs_ok(node.attrs@, names@) {
                    assert(name_listed(names@, node.attrs@[i as int].name@));
                    let k = choose|k: int| 0 <= k < names@.len() && names@[k]@ == node.attrs@[i as int].name@;
                    assert(names@[k]@ != attr.name@);
                }
            }
            return Err(error_at(node, SchemaErrorKind::UnknownAttribute));
        }
        let mut a: usize = 0;
        while a < i
            invariant
                a <= i < node.attrs@.len(),
                *attr == node.attrs@[i as int],
                forall|c: int| 0 <= c < a ==> node.attrs@[c].name@ != attr.name@,
            decreases i - a,
        {
            if str_eq(node.attrs[a].name.as_str(), attr.name.as_str()) {
                return Err(error_at(node, SchemaErrorKind::DuplicateAttribute));
            }
            a = a + 1;
        }
        proof {
            assert(node.attrs@[i as int] == *attr);
            assert(names@[j as int]@ == node.attrs@[i as int].name@);
            assert(name_listed(names@, node.attrs@[i as int].name@));
        }
        i = i + 1;
    }
    Ok(())
}

/// The value of the attribute of `node` named `name`, if there is one.
pub fn attribute(node: &XmlNode, name: &str) -> (r: Option<String>)
    ensures
        r is None <==> forall|a: int| 0 <= a < node.attrs@.len() ==> node.attrs@[a].name@ != name@,
        r matches Some(x) ==> exists|a: int| 0 <= a < node.attrs@.len() && node.attrs@[a].name@ == name@ && node.attrs@[a].value@ == x@,
        match r {
            Some(x) => attr(*node, name@) == Some(x@),
            None => attr(*node, name@) is None,
        },
{
    let mut i: usize = 0;
    assert(node.attrs@.skip(0) =~= node.attrs@);
    while i < node.attrs.len()
        invariant
            i <= node.attrs@.len(),
            forall|a: int| 0 <= a < i ==> node.attrs@[a].name@ != name@,
            first_attr(node.attrs@, name@) == first_attr(node.attrs@.skip(i as int), name@),
        decreases node.attrs@.len() - i,
    {
        assert(node.attrs@.skip(i as int)[0] == node.attrs@[i as int]);
        if str_eq(node.attrs[i].name.as_str(), name) {
            let v = node.attrs[i].value.clone();
            assert(v@ == node.attrs@[i as int].value@);
            return Some(v);
        }
        assert(node.attrs@.skip(i as int).skip(1) =~= node.attrs@.skip(i + 1));
        i = i + 1;
    }
    assert(node.attrs@.skip(i as int) =~= Seq::<XmlAttr>::empty());
    None
}

/// The value of the first attribute named `n` in `attrs`.
pub open spec fn first_attr(attrs: Seq<XmlAttr>, n: Seq<char>) -> Option<Seq<char>>
    decreases attrs.len(),
{
    if attrs.len() == 0 {
        None
    } else if attrs[0].name@ == n {
        Some(attrs[0].value@)
    } else {
        first_attr(attrs.skip(1), n)
    }
}

/// The value of the attribute of `node` named `n`.
pub open spec fn attr(node: XmlNode, n: Seq<char>) -> Option<Seq<char>> {
    first_attr(node.attrs@, n)
}

/// An optional attribute that, when present, is a non-zero decimal number.
pub open spec fn nonzero_ok(v: Option<Seq<char>>) -> bool {
    match v {
        None => true,
        Some(t) => spec_parse_u32(t, 10) matches Some(n) && n != 0,
    }
}

/// An optional attribute that, when present, is `true` or `false`.
pub open spec fn bool_ok(v: Option<Seq<char>>) -> bool {
    match v {
        None => true,
        Some(t) => t == "true"@ || t == "false"@,
    }
}

/// An entry value: hexadecimal after `0x`, decimal otherwise.
pub open spec fn entry_value(v: Seq<char>) -> Option<u32> {
    if v.len() >= 2 && v[0] == '0' && v[1] == 'x' {
        spec_parse_u32(v.skip(2), 16)
    } else {
        spec_parse_u32(v, 10)
    }
}

/// An `<entry>` that the reader accepts.
pub open spec fn entry_valid(node: XmlNode) -> bool {
    &&& attrs_ok(node.attrs@, seq!["name", "value", "summary", "since"])
    &&& attr(node, "name"@) is Some
    &&& attr(node, "value"@) matches Some(v) && entry_value(v) is Some
    &&& nonzero_ok(attr(node, "since"@))
}

/// An `<arg>` that the reader accepts.
pub open spec fn arg_valid(node: XmlNode) -> bool {
    &&& attrs_ok(node.attrs@, seq!["name", "type", "summary", "interface", "allow-null", "enum"])
    &&& attr(node, "name"@) is Some
    &&& attr(node, "type"@) matches Some(t) && arg_type_accepted(
        t,
        attr(node, "interface"@) is Some,
        attr(node, "allow-null"@) == Some("true"@),
        attr(node, "enum"@) is Some,
    )
    &&& bool_ok(attr(node, "allow-null"@))
}

/// `a` is what the reader makes of the `<arg>` element `node`.
pub open spec fn arg_matches(node: XmlNode, a: Arg) -> bool {
    &&& attr(node, "name"@) == Some(a.name@)
    &&& attr(node, "summary"@) == (match a.summary { Some(x) => Some(x@), None => None::<Seq<char>> })
    &&& attr(node, "type"@) matches Some(t) && arg_type_ok(
        t,
        attr(node, "interface"@),
        attr(node, "allow-null"@) == Some("true"@),
        attr(node, "enum"@),
        a.ty,
    )
}

/// A `<description>` that the reader accepts.
pub open spec fn description_valid(node: XmlNode) -> bool {
    &&& attrs_ok(node.attrs@, seq!["summary"])
    &&& attr(node, "summary"@) is Some
}

/// The value of digit `c` in base `radix` (10 or 16).
pub open spec fn digit_value(c: char, radix: u32) -> Option<nat> {
    if '0' <= c <= '9' {
        Some((c as nat - '0' as nat) as nat)
    } else if radix == 16 && 'a' <= c <= 'f' {
        Some((c as nat - 'a' as nat + 10) as nat)
    } else if radix == 16 && 'A' <= c <= 'F' {
        Some((c as nat - 'A' as nat + 10) as nat)
    } else {
        None
    }
}

/// The number that the digits `s` write in base `radix`.
pub open spec fn digits_value(s: Seq<char>, radix: u32) -> Option<nat>
    decreases s.len(),
{
    if s.len() == 0 {
        Some(0)
    } else {
        match (digits_value(s.drop_last(), radix), digit_value(s.last(), radix)) {
            (Some(v), Some(d)) => Some((v * radix + d) as nat),
            _ => None,
        }
    }
}

/// `s` without a leading `+`.
pub open spec fn unsigned_body(s: Seq<char>) -> Seq<char> {
    if s.len() > 0 && s[0] == '+' {
        s.skip(1)
    } else {
        s
    }
}

/// An unsigned 32-bit number in base `radix`: an optional `+`, then at least one digit.
pub open spec fn spec_parse_u32(s: Seq<char>, radix: u32) -> Option<u32> {
    let body = unsigned_body(s);
    if body.len() == 0 {
        None
    } else {
        match digits_value(body, radix) {
            Some(v) => if v <= u32::MAX {
                Some(v as u32)
            } else {
                None
            },
            None => None,
        }
    }
}

proof fn lemma_digits_grow(s: Seq<char>, radix: u32, k: int)
    requires
        radix == 10 || radix == 16,
        0 <= k <= s.len(),
        digits_value(s, radix) is Some,
    ensures
        digits_value(s.take(k), radix) is Some,
        digits_value(s.take(k), radix)->0 <= digits_value(s, radix)->0,
    decreases s.len() - k,
{
    if k == s.len() {
        assert(s.take(k) =~= s);
    } else {
        assert(s.drop_last().take(k) =~= s.take(k));
        lemma_digits_grow(s.drop_last(), radix, k);
        let v = digits_value(s.drop_last(), radix)->0;
        let d = digit_value(s.last(), radix)->0;
        assert(v <= v * radix + d) by (nonlinear_arith)
            requires
                radix >= 1,
        ;
    }
}

/// Parse an unsigned 32-bit number in base 10 or 16.
#[verifier::rlimit(40)]
pub fn parse_u32(s: &str, radix: u32) -> (r: Option<u32>)
    requires
        radix == 10 || radix == 16,
    ensures
        r == spec_parse_u32(s@, radix),
{
    let n = s.unicode_len();
    let mut i: usize = 0;
    if n > 0 && s.get_char(0) == '+' {
        i = 1;
    }
    let start = i;
    let ghost body = unsigned_body(s@);
    if start == n {
        return None;
    }
    let mut acc: u64 = 0;
    while i < n
        invariant
            n == s@.len(),
            start <= i <= n,
            start < n,
            body == s@.skip(start as int),
            body == unsigned_body(s@),
            radix == 10 || radix == 16,
            digits_value(body.take(i - start), radix) == Some(acc as nat),
            acc <= u32::MAX,
        decreases n - i,
    {
        let c = s.get_char(i);
        let d: u64 = if '0' <= c && c <= '9' {
            (c as u64) - ('0' as u64)
        } else if radix == 16 && 'a' <= c && c <= 'f' {
            (c as u64) - ('a' as u64) + 10
        } else if radix == 16 && 'A' <= c && c <= 'F' {
            (c as u64) - ('A' as u64) + 10
        } else {
            proof {
                let t = body.take(i - start + 1);
                assert(t.drop_last() =~= body.take(i - start));
                assert(t.last() == c);
                assert(digit_value(c, radix) is None);
                assert(digits_value(t, radix) is None);
                if digits_value(body, radix) is Some {
                    lemma_digits_grow(body, radix, i - start + 1);
                }
                assert(digits_value(body, radix) is None);
                assert(body.len() > 0);
                assert(spec_parse_u32(s@, radix) is None);
            }
            return None;
        };
        proof {
            let t = body.take(i - start + 1);
            assert(t.drop_last() =~= body.take(i - start));
            assert(t.last() == c);
            assert(digit_value(c, radix) == Some(d as nat));
            assert(d < 16);
            assert(acc * (radix as u64) <= 0xffff_ffffu64 * 16) by (nonlinear_arith)
                requires
                    acc <= 0xffff_ffffu64,
                    radix <= 16,
            ;
        }
        let next = acc * (radix as u64) + d;
        if next > 0xffff_ffffu64 {
            proof {
                let t = body.take(i - start + 1);
                assert(digits_value(t, radix) == Some(next as nat));
                if digits_value(body, radix) is Some {
                    lemma_digits_grow(body, radix, i - start + 1);
                }
                assert(spec_parse_u32(s@, radix) is None);
            }
            return None;
        }
        acc = next;
        i = i + 1;
    }
    assert(body.take(n - start) =~= body);
    Some(acc as u32)
}

/// `true` or `false`, as std parses a `bool`.
pub fn parse_bool(s: &str) -> (r: Option<bool>)
    ensures
        r == (if s@ == "true"@ { Some(true) } else if s@ == "false"@ { Some(false) } else { None::<bool> }),
{
    proof {
        reveal_strlit("true");
        reveal_strlit("false");
    }
    if str_eq(s, "true") {
        Some(true)
    } else if str_eq(s, "false") {
        Some(false)
    } else {
        None
    }
}

/// `s` without its leading whitespace.
pub open spec fn ltrim(s: Seq<char>) -> Seq<char>
    decreases s.len(),
{
    if s.len() > 0 && is_white(s[0]) {
        ltrim(s.skip(1))
    } else {
        s
    }
}

/// `s` without its trailing whitespace.
pub open spec fn rtrim(s: Seq<char>) -> Seq<char>
    decreases s.len(),
{
    if s.len() > 0 && is_white(s.last()) {
        rtrim(s.drop_last())
    } else {
        s
    }
}

/// `s` without its leading and trailing whitespace.
pub open spec fn trimmed(s: Seq<char>) -> Seq<char> {
    rtrim(ltrim(s))
}

proof fn lemma_ltrim(s: Seq<char>, i: int)
    requires
        0 <= i <= s.len(),
        forall|k: int| 0 <= k < i ==> is_white(#[trigger] s[k]),
        i < s.len() ==> !is_white(s[i]),
    ensures
        ltrim(s) == s.skip(i),
    decreases i,
{
    if i == 0 {
        assert(s.skip(0) =~= s);
    } else {
        let t = s.skip(1);
        assert forall|k: int| 0 <= k < i - 1 implies is_white(#[trigger] t[k]) by {
            assert(t[k] == s[k + 1]);
        }
        if i - 1 < t.len() {
            assert(t[i - 1] == s[i]);
        }
        lemma_ltrim(t, i - 1);
        assert(t.skip(i - 1) =~= s.skip(i));
    }
}

proof fn lemma_rtrim(t: Seq<char>, m: int)
    requires
        0 <= m <= t.len(),
        forall|k: int| m <= k < t.len() ==> is_white(#[trigger] t[k]),
        m > 0 ==> !is_white(t[m - 1]),
    ensures
        rtrim(t) == t.take(m),
    decreases t.len() - m,
{
    if m == t.len() {
        assert(t.take(m) =~= t);
        if t.len() > 0 {
            assert(t.last() == t[m - 1]);
        }
    } else {
        let d = t.drop_last();
        assert(is_white(t[t.len() - 1]));
        assert forall|k: int| m <= k < d.len() implies is_white(#[trigger] d[k]) by {
            assert(d[k] == t[k]);
        }
        if m > 0 {
            assert(d[m - 1] == t[m - 1]);
        }
        lemma_rtrim(d, m);
        assert(d.take(m) =~= t.take(m));
    }
}

/// Whether `c` is whitespace.
fn white(c: char) -> (r: bool)
    ensures
        r == is_white(c),
{
    ('\t' <= c && c <= '\r') || c == ' ' || c == '\u{85}' || c == '\u{a0}' || c == '\u{1680}' || ('\u{2000}' <= c
        && c <= '\u{200a}') || c == '\u{2028}' || c == '\u{2029}' || c == '\u{202f}' || c == '\u{205f}' || c == '\u{3000}'
}

/// `s` with leading and trailing whitespace removed.
pub fn trim(s: &str) -> (r: String)
    ensures
        r@ == trimmed(s@),
{
    let n = s.unicode_len();
    let mut i: usize = 0;
    while i < n && white(s.get_char(i))
        invariant
            n == s@.len(),
            i <= n,
            forall|k: int| 0 <= k < i ==> is_white(#[trigger] s@[k]),
        decreases n - i,
    {
        i = i + 1;
    }
    let mut j: usize = n;
    while j > i && white(s.get_char(j - 1))
        invariant
            n == s@.len(),
            i <= j <= n,
            forall|k: int| j <= k < n ==> is_white(#[trigger] s@[k]),
            i < n ==> !is_white(s@[i as int]),
        decreases j,
    {
        j = j - 1;
    }
    let t = s.substring_char(i, j);
    let r = String::from_str(t);
    proof {
        lemma_ltrim(s@, i as int);
        let u = s@.skip(i as int);
        assert forall|k: int| j - i <= k < u.len() implies is_white(#[trigger] u[k]) by {
            assert(u[k] == s@[k + i]);
        }
        if j > i {
            assert(u[j - i - 1] == s@[j - 1]);
        }
        lemma_rtrim(u, j - i);
        assert(u.take(j - i) =~= s@.subrange(i as int, j as int));
    }
    r
}

/// `node` has an attribute `n` with value `v`.
pub open spec fn has_attr(node: XmlNode, n: Seq<char>, v: Seq<char>) -> bool {
    exists|a: int| 0 <= a < node.attrs@.len() && node.attrs@[a].name@ == n && node.attrs@[a].value@ == v
}

/// `node` has no attribute `n`.
pub open spec fn lacks_attr(node: XmlNode, n: Seq<char>) -> bool {
    forall|a: int| 0 <= a < node.attrs@.len() ==> node.attrs@[a].name@ != n
}

/// A required attribute.
fn required(node: &XmlNode, name: &str) -> (r: Result<String, SchemaError>)
    ensures
        r matches Ok(v) ==> has_attr(*node, name@, v@) && attr(*node, name@) == Some(v@),
        r is Err <==> lacks_attr(*node, name@),
        r is Err <==> attr(*node, name@) is None,
        r matches Err(e) ==> e.kind == SchemaErrorKind::MissingAttribute && e.start == node.start && e.end == node.end,
{
    match attribute(node, name) {
        Some(v) => Ok(v),
        None => Err(error_at(node, SchemaErrorKind::MissingAttribute)),
    }
}

/// An optional attribute holding a non-zero decimal number.
fn optional_nonzero(node: &XmlNode, name: &str) -> (r: Result<Option<u32>, SchemaError>)
    ensures
        r matches Ok(None) ==> lacks_attr(*node, name@),
        r matches Ok(Some(n)) ==> n != 0 && exists|v: Seq<char>| has_attr(*node, name@, v) && spec_parse_u32(v, 10) == Some(n),
        r is Ok <==> nonzero_ok(attr(*node, name@)),
        r matches Ok(Some(n)) ==> attr(*node, name@) matches Some(v) && spec_parse_u32(v, 10) == Some(n),
        r is Ok ==> (r matches Ok(None) <==> attr(*node, name@) is None),
{
    match attribute(node, name) {
        None => Ok(None),
        Some(v) => match parse_u32(v.as_str(), 10) {
            Some(n) => if n != 0 {
                Ok(Some(n))
            } else {
                Err(error_at(node, SchemaErrorKind::BadValue))
            },
            None => Err(error_at(node, SchemaErrorKind::BadValue)),
        },
    }
}

/// An optional attribute holding `true` or `false`; absent is `false`.
fn optional_bool(node: &XmlNode, name: &str) -> (r: Result<bool, SchemaError>)
    ensures
        r matches Ok(b) ==> (lacks_attr(*node, name@) && !b) || has_attr(*node, name@, if b { "true"@ } else { "false"@ }),
        r is Ok <==> bool_ok(attr(*node, name@)),
        r matches Ok(b) ==> (b <==> attr(*node, name@) == Some("true"@)),
{
    proof {
        reveal_strlit("true");
        reveal_strlit("false");
        assert("true"@ != "false"@) by {
            assert("true"@.len() != "false"@.len());
        }
    }
    match attribute(node, name) {
        None => Ok(false),
        Some(v) => match parse_bool(v.as_str()) {
            Some(b) => Ok(b),
            None => Err(error_at(node, SchemaErrorKind::BadValue)),
        },
    }
}

/// Build an enum entry: `name` and `value` required, `summary` and `since`
/// optional. The value is decimal, or hexadecimal after `0x`, and the entry
/// keeps which.
pub fn build_entry(node: &XmlNode) -> (r: Result<Entry, SchemaError>)
    ensures
        r is Ok ==> attrs_ok(node.attrs@, seq!["name", "value", "summary", "since"]),
        entry_valid(*node) ==> r is Ok,
        r matches Ok(e) ==> attr(*node, "name"@) == Some(e.name@) && (attr(*node, "value"@) matches Some(v)
            && entry_value(v) == Some(e.value) && e.value_is_hex == (v.len() >= 2 && v[0] == '0' && v[1] == 'x')),
        r matches Ok(e) ==> has_attr(*node, "name"@, e.name@) && exists|v: Seq<char>| has_attr(*node, "value"@, v) && (
            if v.len() >= 2 && v[0] == '0' && v[1] == 'x' {
                e.value_is_hex && spec_parse_u32(v.skip(2), 16) == Some(e.value)
            } else {
                !e.value_is_hex && spec_parse_u32(v, 10) == Some(e.value)
            }),
{
    let names = ["name", "value", "summary", "since"];
    assert(names@ =~= seq!["name", "value", "summary", "since"]);
    check_attributes(node, &names)?;
    let name = required(node, "name")?;
    let value = required(node, "value")?;
    let summary = attribute(node, "summary");
    let since = optional_nonzero(node, "since")?;
    let n = value.as_str().unicode_len();
    let hex = n >= 2 && value.as_str().get_char(0) == '0' && value.as_str().get_char(1) == 'x';
    let parsed = if hex {
        let digits = value.as_str().substring_char(2, n);
        assert(digits@ =~= value@.skip(2));
        parse_u32(digits, 16)
    } else {
        parse_u32(value.as_str(), 10)
    };
    match parsed {
        Some(v) => Ok(Entry { name, value: v, value_is_hex: hex, summary, since }),
        None => Err(error_at(node, SchemaErrorKind::BadValue)),
    }
}

/// The arg-type table: which combinations of `type`, `interface`, `allow-null`
/// and `enum` an `<arg>` may have, and the type each gives.
pub open spec fn arg_type_ok(ty: Seq<char>, iface: Option<Seq<char>>, nullable: bool, en: Option<Seq<char>>, t: ArgType) -> bool {
    match t {
        ArgType::Int => ty == "int"@ && iface is None && !nullable && en is None,
        ArgType::Uint { enum_ref } => (ty == "uint"@ || (ty == "int"@ && en is Some)) && iface is None && !nullable
            && (match enum_ref { Some(x) => en == Some(x@), None => en is None }),
        ArgType::Fixed => ty == "fixed"@ && iface is None && !nullable && en is None,
        ArgType::Str { nullable: n } => ty == "string"@ && iface is None && n == nullable && en is None,
        ArgType::Object { interface, nullable: n } => ty == "object"@ && n == nullable && en is None
            && (match interface { Some(x) => iface == Some(x@), None => iface is None }),
        ArgType::NewId { interface } => ty == "new_id"@ && !nullable && en is None
            && (match interface { Some(x) => iface == Some(x@), None => iface is None }),
        ArgType::Array => ty == "array"@ && iface is None && !nullable && en is None,
        ArgType::Fd => ty == "fd"@ && iface is None && !nullable && en is None,
    }
}

/// The combinations that the arg-type table accepts.
pub open spec fn arg_type_accepted(ty: Seq<char>, iface: bool, nullable: bool, en: bool) -> bool {
    ||| (ty == "int"@ && !iface && !nullable)
    ||| (ty == "uint"@ && !iface && !nullable)
    ||| (ty == "fixed"@ && !iface && !nullable && !en)
    ||| (ty == "string"@ && !iface && !en)
    ||| (ty == "object"@ && !en)
    ||| (ty == "new_id"@ && !nullable && !en)
    ||| (ty == "array"@ && !iface && !nullable && !en)
    ||| (ty == "fd"@ && !iface && !nullable && !en)
}

/// Look an argument type up in the arg-type table.
pub fn arg_type_of(ty: &str, iface: Option<String>, nullable: bool, en: Option<String>) -> (r: Option<ArgType>)
    ensures
        r is Some <==> arg_type_accepted(ty@, iface is Some, nullable, en is Some),
        r matches Some(t) ==> arg_type_ok(ty@, match iface { Some(x) => Some(x@), None => None }, nullable,
            match en { Some(x) => Some(x@), None => None }, t),
{
    proof {
        reveal_strlit("int");
        reveal_strlit("uint");
        reveal_strlit("fixed");
        reveal_strlit("string");
        reveal_strlit("object");
        reveal_strlit("new_id");
        reveal_strlit("array");
        reveal_strlit("fd");
        assert("int"@.len() == 3 && "uint"@.len() == 4 && "fd"@.len() == 2);
        assert("fixed"@.len() == 5 && "array"@.len() == 5 && "fixed"@[0] != "array"@[0]);
        assert("string"@.len() == 6 && "object"@.len() == 6 && "new_id"@.len() == 6);
        assert("string"@[0] != "object"@[0] && "string"@[0] != "new_id"@[0] && "object"@[0] != "new_id"@[0]);
    }
    let plain = iface.is_none() && !nullable;
    if str_eq(ty, "int") {
        if !plain {
            None
        } else if en.is_some() {
            Some(ArgType::Uint { enum_ref: en })
        } else {
            Some(ArgType::Int)
        }
    } else if str_eq(ty, "uint") {
        if plain {
            Some(ArgType::Uint { enum_ref: en })
        } else {
            None
        }
    } else if str_eq(ty, "fixed") {
        if plain && en.is_none() {
            Some(ArgType::Fixed)
        } else {
            None
        }
    } else if str_eq(ty, "string") {
        if iface.is_none() && en.is_none() {
            Some(ArgType::Str { nullable })
        } else {
            None
        }
    } else if str_eq(ty, "object") {
        if en.is_none() {
            Some(ArgType::Object { interface: iface, nullable })
        } else {
            None
        }
    } else if str_eq(ty, "new_id") {
        if !nullable && en.is_none() {
            Some(ArgType::NewId { interface: iface })
        } else {
            None
        }
    } else if str_eq(ty, "array") {
        if plain && en.is_none() {
            Some(ArgType::Array)
        } else {
            None
        }
    } else if str_eq(ty, "fd") {
        if plain && en.is_none() {
            Some(ArgType::Fd)
        } else {
            None
        }
    } else {
        None
    }
}

/// The positions among `idx` of the children named `tag`, in document order.
pub open spec fn tagged(children: Seq<XmlNode>, idx: Seq<int>, tag: Seq<char>) -> Seq<int>
    decreases idx.len(),
{
    if idx.len() == 0 {
        Seq::empty()
    } else {
        let t = tagged(children, idx.drop_last(), tag);
        if 0 <= idx.last() < children.len() && children[idx.last()].tag@ == tag {
            t.push(idx.last())
        } else {
            t
        }
    }
}

/// Whether `node` is an element named `tag`.
fn is_tag(node: &XmlNode, tag: &str) -> (r: bool)
    ensures
        r <==> node.tag@ == tag@,
{
    str_eq(node.tag.as_str(), tag)
}

/// Build a `<description>`: its `summary` attribute and its trimmed text.
pub fn build_description(node: &XmlNode) -> (r: Result<Description, SchemaError>)
    ensures
        r matches Ok(d) ==> has_attr(*node, "summary"@, d.summary@),
        r matches Ok(d) ==> d.description@ == match node.text {
            Some(t) => trimmed(t@),
            None => Seq::<char>::empty(),
        },
        r is Ok ==> attrs_ok(node.attrs@, seq!["summary"]),
        description_valid(*node) ==> r is Ok,
{
    let names = ["summary"];
    assert(names@ =~= seq!["summary"]);
    check_attributes(node, &names)?;
    let summary = required(node, "summary")?;
    let description = match &node.text {
        Some(t) => trim(t.as_str()),
        None => String::new(),
    };
    Ok(Description { summary, description })
}

/// The trimmed text of a `<copyright>`.
fn build_copyright(node: &XmlNode) -> (r: Result<String, SchemaError>)
    ensures
        r is Err <==> node.text is None,
        r matches Ok(c) ==> c@ == trimmed(node.text->0@),
{
    match &node.text {
        Some(t) => Ok(trim(t.as_str())),
        None => Err(error_at(node, SchemaErrorKind::MissingText)),
    }
}

/// Build an `<arg>`: `name` and `type` required; `summary`, `interface`,
/// `allow-null` and `enum` optional; the type from the arg-type table.
pub fn build_arg(node: &XmlNode) -> (r: Result<Arg, SchemaError>)
    ensures
        r is Ok ==> attrs_ok(node.attrs@, seq!["name", "type", "summary", "interface", "allow-null", "enum"]),
        arg_valid(*node) ==> r is Ok,
        r matches Ok(a) ==> arg_matches(*node, a),
        r matches Ok(a) ==> has_attr(*node, "name"@, a.name@) && exists|ty: Seq<char>, iface: Option<Seq<char>>, nullable: bool, en: Option<Seq<char>>|
            has_attr(*node, "type"@, ty) && arg_type_ok(ty, iface, nullable, en, a.ty),
{
    let names = ["name", "type", "summary", "interface", "allow-null", "enum"];
    assert(names@ =~= seq!["name", "type", "summary", "interface", "allow-null", "enum"]);
    check_attributes(node, &names)?;
    let name = required(node, "name")?;
    let ty = required(node, "type")?;
    let summary = attribute(node, "summary");
    let iface = attribute(node, "interface");
    let nullable = optional_bool(node, "allow-null")?;
    let en = attribute(node, "enum");
    let ghost iv = match &iface { Some(x) => Some(x@), None => None::<Seq<char>> };
    let ghost ev = match &en { Some(x) => Some(x@), None => None::<Seq<char>> };
    match arg_type_of(ty.as_str(), iface, nullable, en) {
        Some(t) => {
            assert(arg_type_ok(ty@, iv, nullable, ev, t));
            Ok(Arg { name, ty: t, summary })
        },
        None => Err(error_at(node, SchemaErrorKind::BadArgType)),
    }
}

/// `a` is an untyped new id.
pub open spec fn is_untyped_new_id(a: Arg) -> bool {
    a.ty matches ArgType::NewId { interface: None }
}

/// Every untyped new id of `args` comes right after a non-null `interface`
/// string and a `version` uint, as the Wayland convention has it.
pub open spec fn new_ids_prefixed(args: Seq<Arg>) -> bool {
    forall|i: int| 0 <= i < args.len() && #[trigger] is_untyped_new_id(args[i]) ==> i >= 2
        && args[i - 2].name@ == "interface"@ && args[i - 2].ty == (ArgType::Str { nullable: false })
        && args[i - 1].name@ == "version"@ && args[i - 1].ty == (ArgType::Uint { enum_ref: None })
}

/// The interface argument put before an untyped new id.
pub open spec fn is_interface_arg(a: Arg) -> bool {
    a.name@ == "interface"@ && a.ty == (ArgType::Str { nullable: false })
}

/// The version argument put before an untyped new id.
pub open spec fn is_version_arg(a: Arg) -> bool {
    a.name@ == "version"@ && a.ty == (ArgType::Uint { enum_ref: None })
}

/// `args` are what the reader makes of the `<arg>` elements at `body`, in
/// order, each untyped new id preceded by an interface and a version argument.
pub open spec fn args_from(children: Seq<XmlNode>, body: Seq<int>, args: Seq<Arg>) -> bool
    decreases body.len(),
{
    if body.len() == 0 {
        args.len() == 0
    } else {
        &&& args.len() >= 1
        &&& arg_matches(children[body.last()], args.last())
        &&& if is_untyped_new_id(args.last()) {
            &&& args.len() >= 3
            &&& is_interface_arg(args[args.len() - 3])
            &&& is_version_arg(args[args.len() - 2])
            &&& args_from(children, body.drop_last(), args.take(args.len() - 3))
        } else {
            args_from(children, body.drop_last(), args.drop_last())
        }
    }
}

/// The element children of `node`, by index.
pub open spec fn elements_of(node: XmlNode) -> Seq<int> {
    spec_elements(node.children@)->0
}

/// Whether the first element child of `node` is a `<description>`.
pub open spec fn leads_with_description(node: XmlNode) -> bool {
    let e = elements_of(node);
    e.len() > 0 && node.children@[e[0]].tag@ == "description"@
}

/// The element children of `node` after a leading `<description>`.
pub open spec fn body_of(node: XmlNode) -> Seq<int> {
    if leads_with_description(node) {
        elements_of(node).skip(1)
    } else {
        elements_of(node)
    }
}

/// A leading `<description>`, if there is one, is accepted.
pub open spec fn description_ok(node: XmlNode) -> bool {
    leads_with_description(node) ==> description_valid(node.children@[elements_of(node)[0]])
}

/// A `<request>` or `<event>` that the reader accepts.
pub open spec fn message_valid(node: XmlNode) -> bool {
    &&& attrs_ok(node.attrs@, seq!["name", "type", "since"])
    &&& attr(node, "name"@) is Some
    &&& nonzero_ok(attr(node, "since"@))
    &&& spec_elements(node.children@) is Some
    &&& description_ok(node)
    &&& forall|k: int| 0 <= k < body_of(node).len() ==> {
        let c = #[trigger] node.children@[body_of(node)[k]];
        c.tag@ == "arg"@ && arg_valid(c)
    }
}

/// `m` is what the reader makes of the `<request>` or `<event>` element `node`.
pub open spec fn message_matches(node: XmlNode, m: Message) -> bool {
    &&& attr(node, "name"@) == Some(m.name@)
    &&& attr(node, "type"@) == (match m.kind { Some(x) => Some(x@), None => None::<Seq<char>> })
    &&& args_from(node.children@, body_of(node), m.args@)
}

/// `e` is what the reader makes of the `<entry>` element `node`.
pub open spec fn entry_matches(node: XmlNode, e: Entry) -> bool {
    &&& attr(node, "name"@) == Some(e.name@)
    &&& attr(node, "value"@) matches Some(v) && entry_value(v) == Some(e.value) && e.value_is_hex == (v.len() >= 2
        && v[0] == '0' && v[1] == 'x')
}

/// An `<enum>` that the reader accepts.
pub open spec fn enum_valid(node: XmlNode) -> bool {
    &&& attrs_ok(node.attrs@, seq!["name", "since", "bitfield"])
    &&& attr(node, "name"@) is Some
    &&& nonzero_ok(attr(node, "since"@))
    &&& bool_ok(attr(node, "bitfield"@))
    &&& spec_elements(node.children@) is Some
    &&& description_ok(node)
    &&& forall|k: int| 0 <= k < body_of(node).len() ==> {
        let c = #[trigger] node.children@[body_of(node)[k]];
        c.tag@ == "entry"@ && entry_valid(c)
    }
}

/// `e` is what the reader makes of the `<enum>` element `node`: its entries are
/// the `<entry>` children, in order.
pub open spec fn enum_matches(node: XmlNode, e: Enum) -> bool {
    &&& attr(node, "name"@) == Some(e.name@)
    &&& e.bitfield == (attr(node, "bitfield"@) == Some("true"@))
    &&& e.entries@.len() == body_of(node).len()
    &&& forall|k: int| 0 <= k < e.entries@.len() ==> entry_matches(node.children@[body_of(node)[k]], #[trigger] e.entries@[k])
}

/// An `<interface>` that the reader accepts.
pub open spec fn interface_valid(node: XmlNode) -> bool {
    &&& attrs_ok(node.attrs@, seq!["name", "version"])
    &&& attr(node, "name"@) is Some
    &&& attr(node, "version"@) matches Some(v) && spec_parse_u32(v, 10) matches Some(n) && n != 0
    &&& spec_elements(node.children@) is Some
    &&& description_ok(node)
    &&& forall|k: int| 0 <= k < body_of(node).len() ==> {
        let c = #[trigger] node.children@[body_of(node)[k]];
        &&& c.tag@ == "request"@ || c.tag@ == "event"@ || c.tag@ == "enum"@
        &&& (c.tag@ == "request"@ || c.tag@ == "event"@) ==> message_valid(c)
        &&& c.tag@ == "enum"@ ==> enum_valid(c)
    }
}

/// `ms` are what the reader makes of the children of `node` named `tag`, in document order.
pub open spec fn messages_from(node: XmlNode, tag: Seq<char>, ms: Seq<Message>) -> bool {
    let t = tagged(node.children@, elements_of(node), tag);
    &&& ms.len() == t.len()
    &&& forall|k: int| 0 <= k < ms.len() ==> message_matches(node.children@[t[k]], #[trigger] ms[k])
}

/// `i` is what the reader makes of the `<interface>` element `node`: its
/// requests, events and enums are its children of those names, each list in
/// document order, so that request opcode `k` is the `k`-th `<request>`.
pub open spec fn interface_matches(node: XmlNode, i: Interface) -> bool {
    let t = tagged(node.children@, elements_of(node), "enum"@);
    &&& attr(node, "name"@) == Some(i.name@)
    &&& attr(node, "version"@) matches Some(v) && spec_parse_u32(v, 10) == Some(i.version)
    &&& messages_from(node, "request"@, i.requests@)
    &&& messages_from(node, "event"@, i.events@)
    &&& i.enums@.len() == t.len()
    &&& forall|k: int| 0 <= k < i.enums@.len() ==> enum_matches(node.children@[t[k]], #[trigger] i.enums@[k])
}

/// The single element child of the document root.
pub open spec fn protocol_node(root: XmlNode) -> XmlNode {
    root.children@[spec_elements(root.children@)->0[0]]
}

/// Whether the protocol's first element is a `<copyright>`.
pub open spec fn has_copyright(p: XmlNode) -> bool {
    let e = elements_of(p);
    e.len() > 0 && p.children@[e[0]].tag@ == "copyright"@
}

/// The position of a possible `<description>` among the protocol's elements.
pub open spec fn description_at(p: XmlNode) -> int {
    if has_copyright(p) { 1 } else { 0 }
}

/// Whether a `<description>` follows the optional copyright.
pub open spec fn has_protocol_description(p: XmlNode) -> bool {
    let e = elements_of(p);
    e.len() > description_at(p) && p.children@[e[description_at(p)]].tag@ == "description"@
}

/// The protocol's element children after the copyright and description.
pub open spec fn interfaces_of(p: XmlNode) -> Seq<int> {
    elements_of(p).skip(description_at(p) + if has_protocol_description(p) { 1int } else { 0int })
}

/// A document that the reader accepts: one `<protocol>` with a name, an
/// optional copyright with text, an optional description, then interfaces.
pub open spec fn protocol_valid(root: XmlNode) -> bool {
    let p = protocol_node(root);
    &&& spec_elements(root.children@) matches Some(e) && e.len() == 1
    &&& p.tag@ == "protocol"@
    &&& attrs_ok(p.attrs@, seq!["name"])
    &&& attr(p, "name"@) is Some
    &&& spec_elements(p.children@) is Some
    &&& has_copyright(p) ==> p.children@[elements_of(p)[0]].text is Some
    &&& has_protocol_description(p) ==> description_valid(p.children@[elements_of(p)[description_at(p)]])
    &&& forall|k: int| 0 <= k < interfaces_of(p).len() ==> {
        let c = #[trigger] p.children@[interfaces_of(p)[k]];
        c.tag@ == "interface"@ && interface_valid(c)
    }
}

/// `pr` is what the reader makes of the document `root`: its interfaces are the
/// `<interface>` elements, in document order.
pub open spec fn protocol_matches(root: XmlNode, pr: Protocol) -> bool {
    let p = protocol_node(root);
    &&& attr(p, "name"@) == Some(pr.name@)
    &&& pr.interfaces@.len() == interfaces_of(p).len()
    &&& forall|k: int| 0 <= k < pr.interfaces@.len() ==> interface_matches(p.children@[interfaces_of(p)[k]], #[trigger] pr.interfaces@[k])
}

/// Element indices lie within the children.
pub proof fn lemma_elements_in_range(children: Seq<XmlNode>)
    requires
        spec_elements(children) is Some,
    ensures
        forall|k: int| 0 <= k < spec_elements(children)->0.len() ==> 0 <= #[trigger] spec_elements(children)->0[k] < children.len(),
    decreases children.len(),
{
    if children.len() > 0 {
        lemma_elements_in_range(children.drop_last());
    }
}

/// Append `arg`, after the interface and version args that an untyped new id takes.
fn push_arg(args: &mut Vec<Arg>, arg: Arg)
    requires
        new_ids_prefixed(old(args)@),
    ensures
        new_ids_prefixed(final(args)@),
        final(args)@.len() == old(args)@.len() + (if is_untyped_new_id(arg) { 3int } else { 1int }),
        final(args)@.last() == arg,
        final(args)@.take(old(args)@.len() as int) == old(args)@,
        is_untyped_new_id(arg) ==> is_interface_arg(final(args)@[old(args)@.len() as int])
            && is_version_arg(final(args)@[old(args)@.len() as int + 1]),
{
    let untyped = match &arg.ty {
        ArgType::NewId { interface: None } => true,
        _ => false,
    };
    proof {
        reveal_strlit("interface");
        reveal_strlit("version");
    }
    if untyped {
        args.push(Arg {
            name: String::from_str("interface"),
            ty: ArgType::Str { nullable: false },
            summary: Some(String::from_str("requested interface to bind the object as")),
        });
        args.push(Arg {
            name: String::from_str("version"),
            ty: ArgType::Uint { enum_ref: None },
            summary: Some(String::from_str("version of the requested interface to bind as")),
        });
    }
    let ghost before = args@;
    args.push(arg);
    proof {
        assert(args@.take(old(args)@.len() as int) =~= old(args)@);
        assert forall|i: int| 0 <= i < args@.len() && #[trigger] is_untyped_new_id(args@[i]) implies i >= 2
            && args@[i - 2].name@ == "interface"@ && args@[i - 2].ty == (ArgType::Str { nullable: false })
            && args@[i - 1].name@ == "version"@ && args@[i - 1].ty == (ArgType::Uint { enum_ref: None }) by {
            if i < old(args)@.len() {
                assert(args@[i] == old(args)@[i]);
                assert(is_untyped_new_id(old(args)@[i]));
                assert(args@[i - 1] == old(args)@[i - 1]);
                assert(args@[i - 2] == old(args)@[i - 2]);
            } else if untyped {
                assert(i == old(args)@.len() + 2);
            } else {
                assert(i == old(args)@.len());
                assert(!is_untyped_new_id(args@[i]));
            }
        }
    }
}

/// Build a `<request>` or `<event>`: `name` required, `type` and `since`
/// optional, an optional description, then `<arg>` elements; an untyped new id
/// gets its interface and version args in front of it.
pub fn build_message(node: &XmlNode) -> (r: Result<Message, SchemaError>)
    ensures
        r is Ok ==> attrs_ok(node.attrs@, seq!["name", "type", "since"]),
        r matches Ok(m) ==> has_attr(*node, "name"@, m.name@) && new_ids_prefixed(m.args@),
        message_valid(*node) ==> r is Ok,
        r matches Ok(m) ==> message_matches(*node, m),
{
    let names = ["name", "type", "since"];
    assert(names@ =~= seq!["name", "type", "since"]);
    check_attributes(node, &names)?;
    let name = required(node, "name")?;
    let kind = attribute(node, "type");
    let since = optional_nonzero(node, "since")?;
    let elems = element_children(node)?;
    let ghost idx = elems@.map_values(|e: usize| e as int);
    proof {
        lemma_elements_in_range(node.children@);
        assert(idx == elements_of(*node));
    }
    let mut k: usize = 0;
    let mut desc: Option<Description> = None;
    if k < elems.len() {
        let first = elems[k];
        assert(idx[0] == first as int);
        if first < node.children.len() && is_tag(&node.children[first], "description") {
            desc = Some(build_description(&node.children[first])?);
            k = k + 1;
        }
    }
    let start = k;
    proof {
        assert(leads_with_description(*node) <==> start == 1);
        assert(body_of(*node) =~= idx.skip(start as int));
        assert(idx.subrange(start as int, start as int) =~= Seq::<int>::empty());
    }
    let mut args: Vec<Arg> = Vec::new();
    while k < elems.len()
        invariant
            start <= k <= elems@.len(),
            idx == elems@.map_values(|e: usize| e as int),
            idx == elements_of(*node),
            body_of(*node) == idx.skip(start as int),
            forall|j: int| 0 <= j < idx.len() ==> 0 <= #[trigger] idx[j] < node.children@.len(),
            new_ids_prefixed(args@),
            args_from(node.children@, idx.subrange(start as int, k as int), args@),
            message_valid(*node) ==> forall|j: int| 0 <= j < body_of(*node).len() ==> {
                let c = #[trigger] node.children@[body_of(*node)[j]];
                c.tag@ == "arg"@ && arg_valid(c)
            },
        decreases elems@.len() - k,
    {
        let c = elems[k];
        assert(idx[k as int] == c as int);
        if c >= node.children.len() {
            return Err(error_at(node, SchemaErrorKind::UnexpectedElement));
        }
        let child = &node.children[c];
        proof {
            if message_valid(*node) {
                assert(body_of(*node)[k - start] == idx[k as int]);
                assert(node.children@[body_of(*node)[k - start]] == *child);
            }
        }
        if !is_tag(child, "arg") {
            return Err(error_at(child, SchemaErrorKind::UnexpectedElement));
        }
        let arg = build_arg(child)?;
        let ghost before = args@;
        let ghost a = arg;
        push_arg(&mut args, arg);
        proof {
            let b = idx.subrange(start as int, k + 1);
            assert(b.drop_last() =~= idx.subrange(start as int, k as int));
            assert(b.last() == c as int);
            if is_untyped_new_id(a) {
                assert(args@.take(args@.len() - 3) =~= before);
                assert(args@[args@.len() - 3] == args@[before.len() as int]);
            } else {
                assert(args@.drop_last() =~= before);
            }
        }
        k = k + 1;
    }
    assert(idx.subrange(start as int, elems@.len() as int) =~= idx.skip(start as int));
    Ok(Message { name, kind, since, desc, args })
}

/// Build an `<enum>`: `name` required, `since` and `bitfield` optional, an
/// optional description, then `<entry>` elements.
pub fn build_enum(node: &XmlNode) -> (r: Result<Enum, SchemaError>)
    ensures
        r is Ok ==> attrs_ok(node.attrs@, seq!["name", "since", "bitfield"]),
        r matches Ok(e) ==> has_attr(*node, "name"@, e.name@),
        enum_valid(*node) ==> r is Ok,
        r matches Ok(e) ==> enum_matches(*node, e),
{
    let names = ["name", "since", "bitfield"];
    assert(names@ =~= seq!["name", "since", "bitfield"]);
    check_attributes(node, &names)?;
    let name = required(node, "name")?;
    let since = optional_nonzero(node, "since")?;
    let bitfield = optional_bool(node, "bitfield")?;
    let elems = element_children(node)?;
    let ghost idx = elems@.map_values(|e: usize| e as int);
    proof {
        lemma_elements_in_range(node.children@);
        assert(idx == elements_of(*node));
    }
    let mut k: usize = 0;
    let mut desc: Option<Description> = None;
    if k < elems.len() {
        let first = elems[k];
        assert(idx[0] == first as int);
        if first < node.children.len() && is_tag(&node.children[first], "description") {
            desc = Some(build_description(&node.children[first])?);
            k = k + 1;
        }
    }
    let start = k;
    proof {
        assert(leads_with_description(*node) <==> start == 1);
        assert(body_of(*node) =~= idx.skip(start as int));
    }
    let mut entries: Vec<Entry> = Vec::new();
    while k < elems.len()
        invariant
            start <= k <= elems@.len(),
            idx == elems@.map_values(|e: usize| e as int),
            idx == elements_of(*node),
            body_of(*node) == idx.skip(start as int),
            forall|j: int| 0 <= j < idx.len() ==> 0 <= #[trigger] idx[j] < node.children@.len(),
            entries@.len() == k - start,
            forall|j: int| 0 <= j < entries@.len() ==> entry_matches(node.children@[idx[start + j]], #[trigger] entries@[j]),
            enum_valid(*node) ==> forall|j: int| 0 <= j < body_of(*node).len() ==> {
                let c = #[trigger] node.children@[body_of(*node)[j]];
                c.tag@ == "entry"@ && entry_valid(c)
            },
        decreases elems@.len() - k,
    {
        let c = elems[k];
        assert(idx[k as int] == c as int);
        if c >= node.children.len() {
            return Err(error_at(node, SchemaErrorKind::UnexpectedElement));
        }
        let child = &node.children[c];
        proof {
            if enum_valid(*node) {
                assert(body_of(*node)[k - start] == idx[k as int]);
                assert(node.children@[body_of(*node)[k - start]] == *child);
            }
        }
        if !is_tag(child, "entry") {
            return Err(error_at(child, SchemaErrorKind::UnexpectedElement));
        }
        let e = build_entry(child)?;
        entries.push(e);
        k = k + 1;
    }
    proof {
        assert forall|j: int| 0 <= j < entries@.len() implies entry_matches(node.children@[body_of(*node)[j]], #[trigger] entries@[j]) by {
            assert(body_of(*node)[j] == idx[start + j]);
        }
    }
    Ok(Enum { name, since, bitfield, desc, entries })
}

/// Build an `<interface>`: `name` and a non-zero `version` required, an
/// optional description, then `<request>`, `<event>` and `<enum>` elements,
/// each list kept in document order.
pub fn build_interface(node: &XmlNode) -> (r: Result<Interface, SchemaError>)
    ensures
        r is Ok ==> attrs_ok(node.attrs@, seq!["name", "version"]),
        r matches Ok(i) ==> has_attr(*node, "name"@, i.name@) && i.version != 0
            && forall|k: int| 0 <= k < i.requests@.len() ==> new_ids_prefixed(#[trigger] i.requests@[k].args@),
        interface_valid(*node) ==> r is Ok,
        r matches Ok(i) ==> interface_matches(*node, i),
{
    let names = ["name", "version"];
    assert(names@ =~= seq!["name", "version"]);
    check_attributes(node, &names)?;
    let name = required(node, "name")?;
    let version_text = required(node, "version")?;
    let version = match parse_u32(version_text.as_str(), 10) {
        Some(v) => if v != 0 {
            v
        } else {
            return Err(error_at(node, SchemaErrorKind::BadValue));
        },
        None => {
            return Err(error_at(node, SchemaErrorKind::BadValue));
        },
    };
    let elems = element_children(node)?;
    let ghost idx = elems@.map_values(|e: usize| e as int);
    proof {
        lemma_elements_in_range(node.children@);
        assert(idx == elements_of(*node));
        assert(idx.take(0) =~= Seq::<int>::empty());
    }
    let mut k: usize = 0;
    let mut desc: Option<Description> = None;
    if k < elems.len() {
        let first = elems[k];
        assert(idx[0] == first as int);
        if first < node.children.len() && is_tag(&node.children[first], "description") {
            desc = Some(build_description(&node.children[first])?);
            k = k + 1;
        }
    }
    let start = k;
    proof {
        reveal_strlit("request");
        reveal_strlit("event");
        reveal_strlit("enum");
        reveal_strlit("description");
        assert(leads_with_description(*node) <==> start == 1);
        assert(body_of(*node) =~= idx.skip(start as int));
        assert("request"@.len() == 7 && "event"@.len() == 5 && "enum"@.len() == 4);
        if k == 1 {
            let t = idx.take(1);
            assert(t.drop_last() =~= Seq::<int>::empty());
            assert(t.last() == idx[0]);
            assert("description"@.len() == 11 && "request"@.len() == 7 && "event"@.len() == 5 && "enum"@.len() == 4);
            assert(tagged(node.children@, t.drop_last(), "request"@) =~= Seq::<int>::empty());
            assert(tagged(node.children@, t.drop_last(), "event"@) =~= Seq::<int>::empty());
            assert(tagged(node.children@, t.drop_last(), "enum"@) =~= Seq::<int>::empty());
            assert(tagged(node.children@, t, "request"@) =~= Seq::<int>::empty());
            assert(tagged(node.children@, t, "event"@) =~= Seq::<int>::empty());
            assert(tagged(node.children@, t, "enum"@) =~= Seq::<int>::empty());
        }
    }
    let mut requests: Vec<Message> = Vec::new();
    let mut events: Vec<Message> = Vec::new();
    let mut enums: Vec<Enum> = Vec::new();
    while k < elems.len()
        invariant
            start <= k <= elems@.len(),
            idx == elems@.map_values(|e: usize| e as int),
            idx == elements_of(*node),
            body_of(*node) == idx.skip(start as int),
            forall|j: int| 0 <= j < idx.len() ==> 0 <= #[trigger] idx[j] < node.children@.len(),
            "request"@ != "event"@ && "request"@ != "enum"@ && "event"@ != "enum"@,
            forall|j: int| 0 <= j < requests@.len() ==> new_ids_prefixed(#[trigger] requests@[j].args@),
            requests@.len() == tagged(node.children@, idx.take(k as int), "request"@).len(),
            forall|j: int| 0 <= j < requests@.len() ==> message_matches(
                node.children@[tagged(node.children@, idx.take(k as int), "request"@)[j]],
                #[trigger] requests@[j],
            ),
            events@.len() == tagged(node.children@, idx.take(k as int), "event"@).len(),
            forall|j: int| 0 <= j < events@.len() ==> message_matches(
                node.children@[tagged(node.children@, idx.take(k as int), "event"@)[j]],
                #[trigger] events@[j],
            ),
            enums@.len() == tagged(node.children@, idx.take(k as int), "enum"@).len(),
            forall|j: int| 0 <= j < enums@.len() ==> enum_matches(
                node.children@[tagged(node.children@, idx.take(k as int), "enum"@)[j]],
                #[trigger] enums@[j],
            ),
            interface_valid(*node) ==> forall|j: int| 0 <= j < body_of(*node).len() ==> {
                let c = #[trigger] node.children@[body_of(*node)[j]];
                &&& c.tag@ == "request"@ || c.tag@ == "event"@ || c.tag@ == "enum"@
                &&& (c.tag@ == "request"@ || c.tag@ == "event"@) ==> message_valid(c)
                &&& c.tag@ == "enum"@ ==> enum_valid(c)
            },
        decreases elems@.len() - k,
    {
        let c = elems[k];
        assert(idx[k as int] == c as int);
        if c >= node.children.len() {
            return Err(error_at(node, SchemaErrorKind::UnexpectedElement));
        }
        let child = &node.children[c];
        let ghost tr = tagged(node.children@, idx.take(k as int), "request"@);
        let ghost tv = tagged(node.children@, idx.take(k as int), "event"@);
        let ghost tn = tagged(node.children@, idx.take(k as int), "enum"@);
        proof {
            assert(idx.take(k + 1).drop_last() =~= idx.take(k as int));
            assert(idx.take(k + 1).last() == c as int);
            if interface_valid(*node) {
                assert(body_of(*node)[k - start] == idx[k as int]);
                assert(node.children@[body_of(*node)[k - start]] == *child);
            }
        }
        if is_tag(child, "request") {
            let m = build_message(child)?;
            requests.push(m);
            proof {
                let after = tagged(node.children@, idx.take(k + 1), "request"@);
                assert(after == tr.push(c as int));
                assert(tagged(node.children@, idx.take(k + 1), "event"@) == tv);
                assert(tagged(node.children@, idx.take(k + 1), "enum"@) == tn);
                assert forall|j: int| 0 <= j < requests@.len() implies message_matches(
                    node.children@[after[j]],
                    #[trigger] requests@[j],
                ) by {
                    if j < requests@.len() - 1 {
                        assert(after[j] == tr[j]);
                    }
                }
            }
        } else if is_tag(child, "event") {
            let m = build_message(child)?;
            events.push(m);
            proof {
                let after = tagged(node.children@, idx.take(k + 1), "event"@);
                assert(after == tv.push(c as int));
                assert(tagged(node.children@, idx.take(k + 1), "request"@) == tr);
                assert(tagged(node.children@, idx.take(k + 1), "enum"@) == tn);
                assert forall|j: int| 0 <= j < events@.len() implies message_matches(
                    node.children@[after[j]],
                    #[trigger] events@[j],
                ) by {
                    if j < events@.len() - 1 {
                        assert(after[j] == tv[j]);
                    }
                }
            }
        } else if is_tag(child, "enum") {
            let e = build_enum(child)?;
            enums.push(e);
            proof {
                let after = tagged(node.children@, idx.take(k + 1), "enum"@);
                assert(after == tn.push(c as int));
                assert(tagged(node.children@, idx.take(k + 1), "request"@) == tr);
                assert(tagged(node.children@, idx.take(k + 1), "event"@) == tv);
                assert forall|j: int| 0 <= j < enums@.len() implies enum_matches(
                    node.children@[after[j]],
                    #[trigger] enums@[j],
                ) by {
                    if j < enums@.len() - 1 {
                        assert(after[j] == tn[j]);
                    }
                }
            }
        } else {
            return Err(error_at(child, SchemaErrorKind::UnexpectedElement));
        }
        k = k + 1;
    }
    assert(idx.take(elems@.len() as int) =~= idx);
    Ok(Interface { name, version, desc, requests, events, enums })
}

/// Build a protocol from the document root: the root holds exactly one
/// `<protocol>` element, with a `name`, an optional copyright, an optional
/// description, then `<interface>` elements.
pub fn build_protocol(root: &XmlNode) -> (r: Result<Protocol, SchemaError>)
    ensures
        r is Ok ==> (spec_elements(root.children@) matches Some(idx) && idx.len() == 1),
        r matches Ok(p) ==> forall|k: int| 0 <= k < p.interfaces@.len() ==> (#[trigger] p.interfaces@[k]).version != 0,
        protocol_valid(*root) ==> r is Ok,
        r matches Ok(p) ==> protocol_matches(*root, p),
        (spec_elements(root.children@) matches Some(idx) && idx.len() != 1) ==> r == Err::<Protocol, SchemaError>(
            SchemaError { kind: SchemaErrorKind::BadRoot, start: root.start, end: root.end },
        ),
{
    let top = element_children(root)?;
    proof {
        lemma_elements_in_range(root.children@);
    }
    if top.len() != 1 {
        return Err(error_at(root, SchemaErrorKind::BadRoot));
    }
    let pi = top[0];
    if pi >= root.children.len() {
        return Err(error_at(root, SchemaErrorKind::BadRoot));
    }
    let proto = &root.children[pi];
    assert(*proto == protocol_node(*root));
    if !is_tag(proto, "protocol") {
        return Err(error_at(proto, SchemaErrorKind::UnexpectedElement));
    }
    let names = ["name"];
    assert(names@ =~= seq!["name"]);
    check_attributes(proto, &names)?;
    let name = required(proto, "name")?;
    let elems = element_children(proto)?;
    let ghost idx = elems@.map_values(|e: usize| e as int);
    proof {
        lemma_elements_in_range(proto.children@);
        assert(idx == elements_of(*proto));
    }
    let mut k: usize = 0;
    let mut copyright: Option<String> = None;
    let mut desc: Option<Description> = None;
    if k < elems.len() && elems[k] < proto.children.len() && is_tag(&proto.children[elems[k]], "copyright") {
        copyright = Some(build_copyright(&proto.children[elems[k]])?);
        k = k + 1;
    }
    assert(has_copyright(*proto) <==> k == 1);
    assert(description_at(*proto) == k);
    if k < elems.len() && elems[k] < proto.children.len() && is_tag(&proto.children[elems[k]], "description") {
        desc = Some(build_description(&proto.children[elems[k]])?);
        k = k + 1;
    }
    let start = k;
    assert(interfaces_of(*proto) =~= idx.skip(start as int));
    let mut interfaces: Vec<Interface> = Vec::new();
    while k < elems.len()
        invariant
            start <= k <= elems@.len(),
            idx == elems@.map_values(|e: usize| e as int),
            idx == elements_of(*proto),
            *proto == protocol_node(*root),
            spec_elements(root.children@) matches Some(e) && e.len() == 1,
            interfaces_of(*proto) == idx.skip(start as int),
            forall|j: int| 0 <= j < idx.len() ==> 0 <= #[trigger] idx[j] < proto.children@.len(),
            forall|j: int| 0 <= j < interfaces@.len() ==> (#[trigger] interfaces@[j]).version != 0,
            interfaces@.len() == k - start,
            forall|j: int| 0 <= j < interfaces@.len() ==> interface_matches(proto.children@[idx[start + j]], #[trigger] interfaces@[j]),
            protocol_valid(*root) ==> forall|j: int| 0 <= j < interfaces_of(*proto).len() ==> {
                let c = #[trigger] proto.children@[interfaces_of(*proto)[j]];
                c.tag@ == "interface"@ && interface_valid(c)
            },
        decreases elems@.len() - k,
    {
        let c = elems[k];
        assert(idx[k as int] == c as int);
        if c >= proto.children.len() {
            return Err(error_at(proto, SchemaErrorKind::UnexpectedElement));
        }
        let child = &proto.children[c];
        proof {
            if protocol_valid(*root) {
                assert(interfaces_of(*proto)[k - start] == idx[k as int]);
                assert(proto.children@[interfaces_of(*proto)[k - start]] == *child);
            }
        }
        if !is_tag(child, "interface") {
            return Err(error_at(child, SchemaErrorKind::UnexpectedElement));
        }
        interfaces.push(build_interface(child)?);
        k = k + 1;
    }
    proof {
        assert forall|j: int| 0 <= j < interfaces@.len() implies interface_matches(
            proto.children@[interfaces_of(*proto)[j]],
            #[trigger] interfaces@[j],
        ) by {
            assert(interfaces_of(*proto)[j] == idx[start + j]);
        }
    }
    Ok(Protocol { name, copyright, desc, interfaces })
}

/// The dispatch table of an interface: one entry per request, indexed by opcode,
/// in document order.
pub fn request_table(iface: &Interface) -> (r: Vec<String>)
    ensures
        r@.len() == iface.requests@.len(),
        forall|k: int| 0 <= k < r@.len() ==> (#[trigger] r@[k])@ == iface.requests@[k].name@,
{
    let mut r: Vec<String> = Vec::new();
    let mut k: usize = 0;
    while k < iface.requests.len()
        invariant
            k <= iface.requests@.len(),
            r@.len() == k,
            forall|j: int| 0 <= j < k ==> (#[trigger] r@[j])@ == iface.requests@[j].name@,
        decreases iface.requests@.len() - k,
    {
        r.push(iface.requests[k].name.clone());
        k = k + 1;
    }
    r
}

/// The dispatch table of an interface read from a schema has one entry per
/// `<request>` element, at the opcode given by the element's place in the
/// document, naming that element's request.
pub proof fn lemma_table_follows_schema(node: XmlNode, iface: Interface, table: Seq<String>)
    requires
        spec_elements(node.children@) is Some,
        iface.requests@.len() == tagged(node.children@, spec_elements(node.children@)->0, "request"@).len(),
        forall|k: int| 0 <= k < iface.requests@.len() ==> has_attr(
            node.children@[tagged(node.children@, spec_elements(node.children@)->0, "request"@)[k]],
            "name"@,
            (#[trigger] iface.requests@[k]).name@,
        ),
        table.len() == iface.requests@.len(),
        forall|k: int| 0 <= k < table.len() ==> (#[trigger] table[k])@ == iface.requests@[k].name@,
    ensures
        ({
            let reqs = tagged(node.children@, spec_elements(node.children@)->0, "request"@);
            &&& table.len() == reqs.len()
            &&& forall|k: int| 0 <= k < table.len() ==> has_attr(node.children@[reqs[k]], "name"@, (#[trigger] table[k])@)
        }),
{
    let reqs = tagged(node.children@, spec_elements(node.children@)->0, "request"@);
    assert forall|k: int| 0 <= k < table.len() implies has_attr(node.children@[reqs[k]], "name"@, (#[trigger] table[k])@) by {
        assert(table[k]@ == iface.requests@[k].name@);
    }
}

} // verus!
