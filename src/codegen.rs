//! Emission of the dispatch scaffolding for a protocol: per-interface handler
//! traits, request decoders, event senders, enums, and the closed sum of
//! implemented interfaces with its per-variant handler selector.

use crate::logging::{decimal, push_decimal};
use crate::names::{rust_name, rust_name_spec};
use crate::schema::{trim, trimmed, Arg, ArgType, Entry, Enum, Interface, Message, Protocol};
use vstd::prelude::*;

verus! {

/// Where an argument type is written.
#[derive(Clone, Copy, Debug, PartialEq, Eq, Structural)]
pub enum TypePosition {
    /// A request-handler parameter: typed entries for ids.
    Handler,
    /// An event-sender parameter: typed ids.
    Event,
    /// The type decoded from the wire.
    RawProtocol,
}

/// The implementation type of each interface that has one.
pub open spec fn impl_of_spec(iface: Seq<char>) -> Option<Seq<char>> {
    if iface == "wl_display"@ {
        Some("crate::object_impls::Display"@)
    } else if iface == "wl_callback"@ {
        Some("crate::object_impls::Callback"@)
    } else if iface == "wl_registry"@ {
        Some("crate::object_impls::Registry"@)
    } else if iface == "wl_shm"@ {
        Some("crate::object_impls::ShmGlobal"@)
    } else if iface == "wl_shm_pool"@ {
        Some("crate::object_impls::ShmPool"@)
    } else if iface == "wl_buffer"@ {
        Some("crate::object_impls::ShmBuffer"@)
    } else if iface == "wl_compositor"@ {
        Some("crate::object_impls::Compositor"@)
    } else if iface == "wl_surface"@ {
        Some("crate::object_impls::Surface"@)
    } else if iface == "wl_region"@ {
        Some("crate::object_impls::Region"@)
    } else {
        None
    }
}

/// The implementation type of interface `iface`, if it has one.
pub fn impl_of(iface: &str) -> (r: Option<&'static str>)
    ensures
        match r {
            Some(t) => impl_of_spec(iface@) == Some(t@),
            None => impl_of_spec(iface@) is None,
        },
{
    if crate::dispatch::str_eq(iface, "wl_display") {
        Some("crate::object_impls::Display")
    } else if crate::dispatch::str_eq(iface, "wl_callback") {
        Some("crate::object_impls::Callback")
    } else if crate::dispatch::str_eq(iface, "wl_registry") {
        Some("crate::object_impls::Registry")
    } else if crate::dispatch::str_eq(iface, "wl_shm") {
        Some("crate::object_impls::ShmGlobal")
    } else if crate::dispatch::str_eq(iface, "wl_shm_pool") {
        Some("crate::object_impls::ShmPool")
    } else if crate::dispatch::str_eq(iface, "wl_buffer") {
        Some("crate::object_impls::ShmBuffer")
    } else if crate::dispatch::str_eq(iface, "wl_compositor") {
        Some("crate::object_impls::Compositor")
    } else if crate::dispatch::str_eq(iface, "wl_surface") {
        Some("crate::object_impls::Surface")
    } else if crate::dispatch::str_eq(iface, "wl_region") {
        Some("crate::object_impls::Region")
    } else {
        None
    }
}

/// The view of an optional string.
pub open spec fn opt_view(s: Option<String>) -> Option<Seq<char>> {
    match s {
        Some(x) => Some(x@),
        None => None,
    }
}

/// The type named for an object or new-id argument of interface `iface`.
pub open spec fn object_type_text(new_id: bool, iface: Option<Seq<char>>, nullable: bool, pos: TypePosition) -> Seq<char> {
    let target = match iface {
        Some(i) => match impl_of_spec(i) {
            Some(t) => t,
            None => "AnyObject"@,
        },
        None => "AnyObject"@,
    };
    let inner = match pos {
        TypePosition::Handler => (if new_id { "VacantEntry<'_, "@ } else { "OccupiedEntry<'_, "@ }) + target + ">"@,
        TypePosition::Event => "Id<"@ + target + ">"@,
        TypePosition::RawProtocol => "Id<AnyObject>"@,
    };
    if nullable {
        "Option<"@ + inner + ">"@
    } else {
        inner
    }
}

/// The Rust type of an argument at `pos`; `None` when an enum name has an empty word.
pub open spec fn arg_type_text(t: ArgType, pos: TypePosition) -> Option<Seq<char>> {
    match t {
        ArgType::Int => Some("i32"@),
        ArgType::Uint { enum_ref } => match enum_ref {
            None => Some("u32"@),
            Some(e) => rust_name_spec(e@),
        },
        ArgType::Fixed => Some("Fixed"@),
        ArgType::Str { nullable } => Some(if nullable { "Option<&str>"@ } else { "&str"@ }),
        ArgType::Object { interface, nullable } => Some(object_type_text(false, opt_view(interface), nullable, pos)),
        ArgType::NewId { interface } => Some(object_type_text(true, opt_view(interface), false, pos)),
        ArgType::Array => Some("&[Word]"@),
        ArgType::Fd => Some("Fd"@),
    }
}

/// Write the object type of an object or new-id argument.
fn object_type(new_id: bool, iface: &Option<String>, nullable: bool, pos: TypePosition) -> (r: String)
    ensures
        r@ == object_type_text(new_id, opt_view(*iface), nullable, pos),
{
    let target: &str = match iface {
        Some(i) => match impl_of(i.as_str()) {
            Some(t) => t,
            None => "AnyObject",
        },
        None => "AnyObject",
    };
    let mut inner = String::new();
    match pos {
        TypePosition::Handler => {
            if new_id {
                inner.append("VacantEntry<'_, ");
            } else {
                inner.append("OccupiedEntry<'_, ");
            }
            inner.append(target);
            inner.append(">");
        },
        TypePosition::Event => {
            inner.append("Id<");
            inner.append(target);
            inner.append(">");
        },
        TypePosition::RawProtocol => {
            inner.append("Id<AnyObject>");
        },
    }
    if nullable {
        let mut r = String::new();
        r.append("Option<");
        r.append(inner.as_str());
        r.append(">");
        r
    } else {
        inner
    }
}

/// Write the Rust type of an argument at `pos`.
pub fn arg_type(t: &ArgType, pos: TypePosition) -> (r: Option<String>)
    ensures
        match r {
            Some(s) => arg_type_text(*t, pos) == Some(s@),
            None => arg_type_text(*t, pos) is None,
        },
{
    match t {
        ArgType::Int => Some(String::from_str("i32")),
        ArgType::Uint { enum_ref } => match enum_ref {
            None => Some(String::from_str("u32")),
            Some(e) => rust_name(e.as_str()),
        },
        ArgType::Fixed => Some(String::from_str("Fixed")),
        ArgType::Str { nullable } => Some(String::from_str(if *nullable { "Option<&str>" } else { "&str" })),
        ArgType::Object { interface, nullable } => Some(object_type(false, interface, *nullable, pos)),
        ArgType::NewId { interface } => Some(object_type(true, interface, false, pos)),
        ArgType::Array => Some(String::from_str("&[Word]")),
        ArgType::Fd => Some(String::from_str("Fd")),
    }
}

/// The lowercase hexadecimal digit `d`.
pub open spec fn hex_char(d: nat) -> char {
    if d < 10 {
        crate::logging::digit_char(d)
    } else if d == 10 { 'a' } else if d == 11 { 'b' } else if d == 12 { 'c' } else if d == 13 { 'd' } else if d == 14 { 'e' } else { 'f' }
}

/// The lowercase hexadecimal numeral of `n`.
pub open spec fn hex(n: nat) -> Seq<char>
    decreases n,
{
    if n < 16 {
        seq![hex_char(n)]
    } else {
        hex(n / 16).push(hex_char(n % 16))
    }
}

/// Append the lowercase hexadecimal numeral of `n`.
fn push_hex(buf: &mut String, n: u32)
    ensures
        final(buf)@ == old(buf)@ + hex(n as nat),
    decreases n,
{
    if n >= 16 {
        push_hex(buf, n / 16);
    }
    let d = n % 16;
    if d < 10 {
        let mut digit = String::new();
        push_decimal(&mut digit, d as u64);
        assert(digit@ =~= seq![crate::logging::digit_char(d as nat)]);
        buf.append(digit.as_str());
    } else {
        let s: &str = if d == 10 { "a" } else if d == 11 { "b" } else if d == 12 { "c" } else if d == 13 { "d" } else if d == 14 { "e" } else { "f" };
        proof {
            reveal_strlit("a");
            reveal_strlit("b");
            reveal_strlit("c");
            reveal_strlit("d");
            reveal_strlit("e");
            reveal_strlit("f");
        }
        buf.append(s);
    }
    proof {
        if n >= 16 {
            assert(final(buf)@ =~= old(buf)@ + hex(n as nat));
        } else {
            assert(final(buf)@ =~= old(buf)@ + hex(n as nat));
        }
    }
}

/// How an entry's value is written: hexadecimal with `0x` when the schema wrote it so.
pub open spec fn value_text(e: Entry) -> Seq<char> {
    if e.value_is_hex {
        "0x"@ + hex(e.value as nat)
    } else {
        decimal(e.value as nat)
    }
}

/// One line for enum entry `e`: its variant when `decode` is false, its decoder arm otherwise.
pub open spec fn entry_text(e: Entry, decode: bool) -> Option<Seq<char>> {
    match rust_name_spec(e.name@) {
        None => None,
        Some(n) => Some(
            if decode {
                "\t\t\t\t"@ + decimal(e.value as nat) + " => Ok(Self::"@ + n + "),\n"@
            } else {
                (match e.summary {
                    Some(doc) => "\t\t/// "@ + doc@ + "\n"@,
                    None => Seq::empty(),
                }) + "\t\t"@ + n + " = "@ + value_text(e) + ",\n"@
            },
        ),
    }
}

/// The lines of `es`, in order; `None` when one entry's name has an empty word.
pub open spec fn entries_text(es: Seq<Entry>, decode: bool) -> Option<Seq<char>>
    decreases es.len(),
{
    if es.len() == 0 {
        Some(Seq::empty())
    } else {
        match (entries_text(es.drop_last(), decode), entry_text(es.last(), decode)) {
            (Some(a), Some(b)) => Some(a + b),
            _ => None,
        }
    }
}

#[verifier::rlimit(40)]
fn entry_line(e: &Entry, decode: bool) -> (r: Option<String>)
    ensures
        match r {
            Some(s) => entry_text(*e, decode) == Some(s@),
            None => entry_text(*e, decode) is None,
        },
{
    let name = rust_name(e.name.as_str())?;
    let mut out = String::new();
    if decode {
        out.append("\t\t\t\t");
        push_decimal(&mut out, e.value as u64);
        out.append(" => Ok(Self::");
        out.append(name.as_str());
        out.append("),\n");
    } else {
        match &e.summary {
            Some(doc) => {
                out.append("\t\t/// ");
                out.append(doc.as_str());
                out.append("\n");
            },
            None => {},
        }
        out.append("\t\t");
        out.append(name.as_str());
        out.append(" = ");
        if e.value_is_hex {
            out.append("0x");
            push_hex(&mut out, e.value);
        } else {
            push_decimal(&mut out, e.value as u64);
        }
        out.append(",\n");
    }
    Some(out)
}

fn entries_lines(es: &Vec<Entry>, decode: bool) -> (r: Option<String>)
    ensures
        match r {
            Some(s) => entries_text(es@, decode) == Some(s@),
            None => entries_text(es@, decode) is None,
        },
{
    let mut out = String::new();
    let mut i: usize = 0;
    assert(es@.take(0) =~= Seq::<Entry>::empty());
    while i < es.len()
        invariant
            i <= es@.len(),
            entries_text(es@.take(i as int), decode) == Some(out@),
        decreases es@.len() - i,
    {
        assert(es@.take(i + 1).drop_last() =~= es@.take(i as int));
        assert(es@.take(i + 1).last() == es@[i as int]);
        match entry_line(&es[i], decode) {
            Some(line) => out.append(line.as_str()),
            None => {
                proof {
                    lemma_entries_none(es@, decode, i as int);
                }
                return None;
            },
        }
        i = i + 1;
    }
    assert(es@.take(es@.len() as int) =~= es@);
    Some(out)
}

proof fn lemma_entries_none(es: Seq<Entry>, decode: bool, i: int)
    requires
        0 <= i < es.len(),
        entries_text(es.take(i + 1), decode) is None,
    ensures
        entries_text(es, decode) is None,
    decreases es.len() - i,
{
    if i + 1 < es.len() {
        assert(es.take(i + 2).drop_last() =~= es.take(i + 1));
        lemma_entries_none(es, decode, i + 1);
    } else {
        assert(es.take(i + 1) =~= es);
    }
}

/// The code for enum `en`: the enum with its values, a decoder that refuses
/// unknown values, and an encoder that writes the value.
pub open spec fn enum_text(en: Enum) -> Option<Seq<char>> {
    match (rust_name_spec(en.name@), entries_text(en.entries@, false), entries_text(en.entries@, true)) {
        (Some(n), Some(variants), Some(arms)) => Some(
            doc_comment("\t/// "@, "\t///"@, en.desc) + "\t#[repr(u32)]\n\t#[derive(Copy, Clone, Debug, Hash, Eq, PartialEq, Ord, PartialOrd)]\n\tpub enum "@ + n
                + " {\n"@ + variants + "\t}\n\timpl<'a> DecodeArg<'a> for "@ + n
                + " {\n\t\tfn decode_arg(message: &mut RecvMessage<'a>) -> Result<Self> {\n\t\t\tmatch u32::decode_arg(message)? {\n"@
                + arms + "\t\t\t\t_ => Err(io::Error::new(ErrorKind::InvalidInput, \"invalid "@ + n
                + "\")),\n\t\t\t}\n\t\t}\n\t}\n\timpl EncodeArg for "@ + n
                + " {\n\t\tfn encoded_len(&self) -> u16 {\n\t\t\t1\n\t\t}\n\t\tfn encode(&self, event: &mut SendMessage<'_>) {\n\t\t\t(*self as u32).encode(event);\n\t\t}\n\t}\n"@,
        ),
        _ => None,
    }
}

/// Emit the code for enum `en`.
#[verifier::rlimit(40)]
pub fn emit_enum(en: &Enum) -> (r: Option<String>)
    ensures
        match r {
            Some(s) => enum_text(*en) == Some(s@),
            None => enum_text(*en) is None,
        },
{
    let name = rust_name(en.name.as_str())?;
    let variants = entries_lines(&en.entries, false)?;
    let arms = entries_lines(&en.entries, true)?;
    let mut out = doc_comment_code("\t/// ", "\t///", &en.desc);
    out.append("\t#[repr(u32)]\n\t#[derive(Copy, Clone, Debug, Hash, Eq, PartialEq, Ord, PartialOrd)]\n\tpub enum ");
    out.append(name.as_str());
    out.append(" {\n");
    out.append(variants.as_str());
    out.append("\t}\n\timpl<'a> DecodeArg<'a> for ");
    out.append(name.as_str());
    out.append(" {\n\t\tfn decode_arg(message: &mut RecvMessage<'a>) -> Result<Self> {\n\t\t\tmatch u32::decode_arg(message)? {\n");
    out.append(arms.as_str());
    out.append("\t\t\t\t_ => Err(io::Error::new(ErrorKind::InvalidInput, \"invalid ");
    out.append(name.as_str());
    out.append("\")),\n\t\t\t}\n\t\t}\n\t}\n\timpl EncodeArg for ");
    out.append(name.as_str());
    out.append(" {\n\t\tfn encoded_len(&self) -> u16 {\n\t\t\t1\n\t\t}\n\t\tfn encode(&self, event: &mut SendMessage<'_>) {\n\t\t\t(*self as u32).encode(event);\n\t\t}\n\t}\n");
    Some(out)
}

/// The parts of generated code that are written once per argument.
#[derive(Clone, Copy, Debug, PartialEq, Eq, Structural)]
pub enum ArgPiece {
    /// Decoding the argument from the request.
    Decode,
    /// The argument in the list of ids borrowed together with the receiver.
    IdList,
    /// Turning a borrowed slot into the entry the handler takes.
    Convert,
    /// The argument passed to the handler.
    CallArg,
    /// The handler parameter.
    HandlerParam,
    /// The event-sender parameter.
    EventParam,
    /// Adding the argument's size to the event's size.
    Count,
    /// Encoding the argument into the event.
    Encode,
    /// Writing the argument into the trace line.
    Log,
}

/// Whether `t` names an object, new or existing.
pub open spec fn is_id_arg(t: ArgType) -> bool {
    t is Object || t is NewId
}

/// How an optional interface name is debug-printed.
pub open spec fn debug_iface(iface: Option<Seq<char>>) -> Seq<char> {
    match iface {
        Some(i) => "Some(\""@ + i + "\")"@,
        None => "None"@,
    }
}

/// The trace-line code for argument `n` of type `t`: scalars and strings by
/// debug print, enums as their value, objects as `interface@id`, new ids as
/// `new id interface@id`, arrays by length, descriptors by number, and `nil`
/// for null.
pub open spec fn log_arg_text(n: Seq<char>, t: ArgType) -> Seq<char> {
    match t {
        ArgType::Uint { enum_ref: Some(_) } => "\t\t\t\tlog.arg_debug("@ + n + " as u32);\n"@,
        ArgType::Str { nullable: true } => "\t\t\t\tmatch "@ + n
            + " {\n\t\t\t\t\tSome(arg) => log.arg_debug(arg),\n\t\t\t\t\tNone => log.arg_nil(),\n\t\t\t\t}\n"@,
        ArgType::Object { interface, nullable } => if nullable {
            "\t\t\t\tmatch "@ + n + " {\n\t\t\t\t\tSome(id) => log.arg_object("@ + debug_iface(opt_view(interface))
                + ", id.into()),\n\t\t\t\t\tNone => log.arg_nil(),\n\t\t\t\t}\n"@
        } else {
            "\t\t\t\tlog.arg_object("@ + debug_iface(opt_view(interface)) + ", "@ + n + ".into());\n"@
        },
        ArgType::NewId { interface } => "\t\t\t\tlog.arg_new_id("@ + debug_iface(opt_view(interface)) + ", "@ + n
            + ".into());\n"@,
        ArgType::Array => "\t\t\t\tlog.arg_array("@ + n + ");\n"@,
        ArgType::Fd => "\t\t\t\tlog.arg_fd(&"@ + n + ");\n"@,
        _ => "\t\t\t\tlog.arg_debug("@ + n + ");\n"@,
    }
}

fn debug_iface_code(out: &mut String, iface: &Option<String>)
    ensures
        final(out)@ == old(out)@ + debug_iface(opt_view(*iface)),
{
    match iface {
        Some(i) => {
            out.append("Some(\"");
            out.append(i.as_str());
            out.append("\")");
        },
        None => out.append("None"),
    }
}

#[verifier::rlimit(40)]
fn log_arg(out: &mut String, n: &str, t: &ArgType)
    ensures
        final(out)@ == old(out)@ + log_arg_text(n@, *t),
{
    match t {
        ArgType::Uint { enum_ref: Some(_) } => {
            out.append("\t\t\t\tlog.arg_debug(");
            out.append(n);
            out.append(" as u32);\n");
        },
        ArgType::Str { nullable: true } => {
            out.append("\t\t\t\tmatch ");
            out.append(n);
            out.append(" {\n\t\t\t\t\tSome(arg) => log.arg_debug(arg),\n\t\t\t\t\tNone => log.arg_nil(),\n\t\t\t\t}\n");
        },
        ArgType::Object { interface, nullable } => {
            if *nullable {
                out.append("\t\t\t\tmatch ");
                out.append(n);
                out.append(" {\n\t\t\t\t\tSome(id) => log.arg_object(");
                debug_iface_code(out, interface);
                out.append(", id.into()),\n\t\t\t\t\tNone => log.arg_nil(),\n\t\t\t\t}\n");
            } else {
                out.append("\t\t\t\tlog.arg_object(");
                debug_iface_code(out, interface);
                out.append(", ");
                out.append(n);
                out.append(".into());\n");
            }
        },
        ArgType::NewId { interface } => {
            out.append("\t\t\t\tlog.arg_new_id(");
            debug_iface_code(out, interface);
            out.append(", ");
            out.append(n);
            out.append(".into());\n");
        },
        ArgType::Array => {
            out.append("\t\t\t\tlog.arg_array(");
            out.append(n);
            out.append(");\n");
        },
        ArgType::Fd => {
            out.append("\t\t\t\tlog.arg_fd(&");
            out.append(n);
            out.append(");\n");
        },
        _ => {
            out.append("\t\t\t\tlog.arg_debug(");
            out.append(n);
            out.append(");\n");
        },
    }
    assert(final(out)@ =~= old(out)@ + log_arg_text(n@, *t));
}

/// The trace code of a message: start a line for a `kind` ("request" or
/// "event") on the receiver, add each argument, finish the line.
pub open spec fn log_text(kind: Seq<char>, m: Message) -> Option<Seq<char>> {
    match args_text(m.args@, ArgPiece::Log) {
        Some(body) => Some(
            "\t\t\tif let Some(mut log) = crate::logging::log_"@ + kind + "(Self::INTERFACE, \""@ + m.name@
                + "\", self_id.into()) {\n"@ + body + "\t\t\t\tlog.finish();\n\t\t\t}\n"@,
        ),
        None => None,
    }
}

/// Emit the trace code of a message.
pub fn emit_log(kind: &str, m: &Message) -> (r: Option<String>)
    ensures
        match r {
            Some(s) => log_text(kind@, *m) == Some(s@),
            None => log_text(kind@, *m) is None,
        },
{
    let body = emit_args(&m.args, ArgPiece::Log)?;
    let mut out = String::new();
    out.append("\t\t\tif let Some(mut log) = crate::logging::log_");
    out.append(kind);
    out.append("(Self::INTERFACE, \"");
    out.append(m.name.as_str());
    out.append("\", self_id.into()) {\n");
    out.append(body.as_str());
    out.append("\t\t\t\tlog.finish();\n\t\t\t}\n");
    Some(out)
}

/// The text of `piece` for argument `a`.
pub open spec fn arg_piece_text(a: Arg, piece: ArgPiece) -> Option<Seq<char>> {
    let n = a.name@;
    match piece {
        ArgPiece::Decode => match arg_type_text(a.ty, TypePosition::RawProtocol) {
            Some(t) => Some("\t\t\t\t\tlet "@ + n + " = <"@ + t + ">::decode_arg(&mut message)?;\n"@),
            None => None,
        },
        ArgPiece::IdList => Some(if is_id_arg(a.ty) { ", "@ + n } else { Seq::empty() }),
        ArgPiece::Convert => Some(match a.ty {
            ArgType::Object { .. } => "\t\t\t\t\tlet "@ + n + " = "@ + n + ".into_occupied()?.downcast()?;\n"@,
            ArgType::NewId { .. } => "\t\t\t\t\tlet "@ + n + " = "@ + n + ".into_vacant()?.downcast();\n"@,
            _ => Seq::empty(),
        }),
        ArgPiece::CallArg => Some(n + ", "@),
        ArgPiece::HandlerParam => match arg_type_text(a.ty, TypePosition::Handler) {
            Some(t) => Some(n + ": "@ + t + ", "@),
            None => None,
        },
        ArgPiece::EventParam => match arg_type_text(a.ty, TypePosition::Event) {
            Some(t) => Some(", "@ + n + ": "@ + t),
            None => None,
        },
        ArgPiece::Count => Some("\t\t\tlen += "@ + n + ".encoded_len();\n\t\t\tfds += "@ + n + ".is_fd() as usize;\n"@),
        ArgPiece::Encode => Some("\t\t\t"@ + n + ".encode(&mut event);\n"@),
        ArgPiece::Log => Some(log_arg_text(n, a.ty)),
    }
}

/// The text of `piece` for each argument of `args`, in order.
pub open spec fn args_text(args: Seq<Arg>, piece: ArgPiece) -> Option<Seq<char>>
    decreases args.len(),
{
    if args.len() == 0 {
        Some(Seq::empty())
    } else {
        match (args_text(args.drop_last(), piece), arg_piece_text(args.last(), piece)) {
            (Some(a), Some(b)) => Some(a + b),
            _ => None,
        }
    }
}

#[verifier::rlimit(40)]
fn arg_piece(a: &Arg, piece: ArgPiece) -> (r: Option<String>)
    ensures
        match r {
            Some(s) => arg_piece_text(*a, piece) == Some(s@),
            None => arg_piece_text(*a, piece) is None,
        },
{
    let n = a.name.as_str();
    let mut out = String::new();
    match piece {
        ArgPiece::Decode => {
            let t = arg_type(&a.ty, TypePosition::RawProtocol)?;
            out.append("\t\t\t\t\tlet ");
            out.append(n);
            out.append(" = <");
            out.append(t.as_str());
            out.append(">::decode_arg(&mut message)?;\n");
        },
        ArgPiece::IdList => {
            match &a.ty {
                ArgType::Object { .. } | ArgType::NewId { .. } => {
                    out.append(", ");
                    out.append(n);
                },
                _ => {},
            }
        },
        ArgPiece::Convert => {
            match &a.ty {
                ArgType::Object { .. } => {
                    out.append("\t\t\t\t\tlet ");
                    out.append(n);
                    out.append(" = ");
                    out.append(n);
                    out.append(".into_occupied()?.downcast()?;\n");
                },
                ArgType::NewId { .. } => {
                    out.append("\t\t\t\t\tlet ");
                    out.append(n);
                    out.append(" = ");
                    out.append(n);
                    out.append(".into_vacant()?.downcast();\n");
                },
                _ => {},
            }
        },
        ArgPiece::CallArg => {
            out.append(n);
            out.append(", ");
        },
        ArgPiece::HandlerParam => {
            let t = arg_type(&a.ty, TypePosition::Handler)?;
            out.append(n);
            out.append(": ");
            out.append(t.as_str());
            out.append(", ");
        },
        ArgPiece::EventParam => {
            let t = arg_type(&a.ty, TypePosition::Event)?;
            out.append(", ");
            out.append(n);
            out.append(": ");
            out.append(t.as_str());
        },
        ArgPiece::Count => {
            out.append("\t\t\tlen += ");
            out.append(n);
            out.append(".encoded_len();\n\t\t\tfds += ");
            out.append(n);
            out.append(".is_fd() as usize;\n");
        },
        ArgPiece::Encode => {
            out.append("\t\t\t");
            out.append(n);
            out.append(".encode(&mut event);\n");
        },
        ArgPiece::Log => {
            log_arg(&mut out, n, &a.ty);
        },
    }
    assert(Seq::<char>::empty() + out@ =~= out@);
    Some(out)
}

proof fn lemma_args_none(args: Seq<Arg>, piece: ArgPiece, i: int)
    requires
        0 <= i < args.len(),
        args_text(args.take(i + 1), piece) is None,
    ensures
        args_text(args, piece) is None,
    decreases args.len() - i,
{
    if i + 1 < args.len() {
        assert(args.take(i + 2).drop_last() =~= args.take(i + 1));
        lemma_args_none(args, piece, i + 1);
    } else {
        assert(args.take(i + 1) =~= args);
    }
}

/// Write `piece` for every argument of `args`.
pub fn emit_args(args: &Vec<Arg>, piece: ArgPiece) -> (r: Option<String>)
    ensures
        match r {
            Some(s) => args_text(args@, piece) == Some(s@),
            None => args_text(args@, piece) is None,
        },
{
    let mut out = String::new();
    let mut i: usize = 0;
    assert(args@.take(0) =~= Seq::<Arg>::empty());
    while i < args.len()
        invariant
            i <= args@.len(),
            args_text(args@.take(i as int), piece) == Some(out@),
        decreases args@.len() - i,
    {
        assert(args@.take(i + 1).drop_last() =~= args@.take(i as int));
        assert(args@.take(i + 1).last() == args@[i as int]);
        match arg_piece(&args[i], piece) {
            Some(p) => out.append(p.as_str()),
            None => {
                proof {
                    lemma_args_none(args@, piece, i as int);
                }
                return None;
            },
        }
        i = i + 1;
    }
    assert(args@.take(args@.len() as int) =~= args@);
    Some(out)
}

/// Whether a message is a destructor.
pub open spec fn is_destructor(m: Message) -> bool {
    m.kind matches Some(k) && k@ == "destructor"@
}

fn destructor(m: &Message) -> (r: bool)
    ensures
        r == is_destructor(*m),
{
    match &m.kind {
        Some(k) => crate::dispatch::str_eq(k.as_str(), "destructor"),
        None => false,
    }
}

/// The dispatch arm for request `m` at opcode `op`: decode every argument,
/// check that nothing is left, borrow the receiver and every id argument at
/// once, type the entries, and call the handler, taking the receiver for a
/// destructor.
pub open spec fn request_arm_text(op: nat, m: Message) -> Option<Seq<char>> {
    match (args_text(m.args@, ArgPiece::Decode), args_text(m.args@, ArgPiece::IdList), args_text(m.args@, ArgPiece::Convert), args_text(m.args@, ArgPiece::CallArg), log_text("request"@, m)) {
        (Some(dec), Some(ids), Some(conv), Some(call), Some(log)) => Some(
            "\t\t\t\t"@ + decimal(op) + " => {\n"@ + dec + "\t\t\t\t\tmessage.finish()?;\n"@ + log + "\t\t\t\t\tlet [this"@ + ids
                + "] = objects.get_many_mut([self_id"@ + ids
                + "])?;\n\t\t\t\t\tlet mut this = this.into_occupied()?.downcast::<Self>()?;\n"@ + conv
                + (if is_destructor(m) { "\t\t\t\t\tthis.take().handle_"@ } else { "\t\t\t\t\tthis.handle_"@ }) + m.name@
                + "(client, "@ + call + ")\n\t\t\t\t},\n"@,
        ),
        _ => None,
    }
}

#[verifier::rlimit(40)]
fn request_arm(op: usize, m: &Message) -> (r: Option<String>)
    ensures
        match r {
            Some(s) => request_arm_text(op as nat, *m) == Some(s@),
            None => request_arm_text(op as nat, *m) is None,
        },
{
    let dec = emit_args(&m.args, ArgPiece::Decode)?;
    let ids = emit_args(&m.args, ArgPiece::IdList)?;
    let conv = emit_args(&m.args, ArgPiece::Convert)?;
    let call = emit_args(&m.args, ArgPiece::CallArg)?;
    let log = emit_log("request", m)?;
    let mut out = String::new();
    out.append("\t\t\t\t");
    push_decimal(&mut out, op as u64);
    out.append(" => {\n");
    out.append(dec.as_str());
    out.append("\t\t\t\t\tmessage.finish()?;\n");
    out.append(log.as_str());
    out.append("\t\t\t\t\tlet [this");
    out.append(ids.as_str());
    out.append("] = objects.get_many_mut([self_id");
    out.append(ids.as_str());
    out.append("])?;\n\t\t\t\t\tlet mut this = this.into_occupied()?.downcast::<Self>()?;\n");
    out.append(conv.as_str());
    if destructor(m) {
        out.append("\t\t\t\t\tthis.take().handle_");
    } else {
        out.append("\t\t\t\t\tthis.handle_");
    }
    out.append(m.name.as_str());
    out.append("(client, ");
    out.append(call.as_str());
    out.append(")\n\t\t\t\t},\n");
    Some(out)
}

/// The dispatch arms of `ms`, the first at opcode `first`.
pub open spec fn request_arms_text(ms: Seq<Message>) -> Option<Seq<char>>
    decreases ms.len(),
{
    if ms.len() == 0 {
        Some(Seq::empty())
    } else {
        match (request_arms_text(ms.drop_last()), request_arm_text((ms.len() - 1) as nat, ms.last())) {
            (Some(a), Some(b)) => Some(a + b),
            _ => None,
        }
    }
}

proof fn lemma_arms_none(ms: Seq<Message>, i: int)
    requires
        0 <= i < ms.len(),
        request_arms_text(ms.take(i + 1)) is None,
    ensures
        request_arms_text(ms) is None,
    decreases ms.len() - i,
{
    if i + 1 < ms.len() {
        assert(ms.take(i + 2).drop_last() =~= ms.take(i + 1));
        lemma_arms_none(ms, i + 1);
    } else {
        assert(ms.take(i + 1) =~= ms);
    }
}

/// The request dispatcher of an interface: one arm per request, at its opcode
/// in document order, and an error for any other opcode.
pub open spec fn request_handler_text(iface: Interface) -> Option<Seq<char>> {
    match request_arms_text(iface.requests@) {
        Some(arms) => Some(
            "\t\tpub fn handle_request(objects: &mut Objects, client: &mut SendHalf<'_>, mut message: RecvMessage<'_>) -> Result<()> {\n\t\t\tlet self_id = message.object_id();\n\t\t\tmatch message.opcode() {\n"@
                + arms
                + "\t\t\t\t_ => Err(io::Error::new(ErrorKind::InvalidInput, \"unknown request opcode\")),\n\t\t\t}\n\t\t}\n"@,
        ),
        None => None,
    }
}

/// Emit the request dispatcher of `iface`.
pub fn emit_request_handler(iface: &Interface) -> (r: Option<String>)
    ensures
        match r {
            Some(s) => request_handler_text(*iface) == Some(s@),
            None => request_handler_text(*iface) is None,
        },
{
    let ms = &iface.requests;
    let mut arms = String::new();
    let mut i: usize = 0;
    assert(ms@.take(0) =~= Seq::<Message>::empty());
    while i < ms.len()
        invariant
            i <= ms@.len(),
            ms@ == iface.requests@,
            request_arms_text(ms@.take(i as int)) == Some(arms@),
        decreases ms@.len() - i,
    {
        assert(ms@.take(i + 1).drop_last() =~= ms@.take(i as int));
        assert(ms@.take(i + 1).last() == ms@[i as int]);
        match request_arm(i, &ms[i]) {
            Some(a) => arms.append(a.as_str()),
            None => {
                proof {
                    let t = ms@.take(i + 1);
                    assert(t.len() == i + 1);
                    assert(request_arm_text((t.len() - 1) as nat, t.last()) is None);
                    assert(request_arms_text(t) is None);
                    lemma_arms_none(ms@, i as int);
                    assert(request_handler_text(*iface) is None);
                }
                return None;
            },
        }
        i = i + 1;
    }
    assert(ms@.take(ms@.len() as int) =~= ms@);
    let mut out = String::new();
    out.append("\t\tpub fn handle_request(objects: &mut Objects, client: &mut SendHalf<'_>, mut message: RecvMessage<'_>) -> Result<()> {\n\t\t\tlet self_id = message.object_id();\n\t\t\tmatch message.opcode() {\n");
    out.append(arms.as_str());
    out.append("\t\t\t\t_ => Err(io::Error::new(ErrorKind::InvalidInput, \"unknown request opcode\")),\n\t\t\t}\n\t\t}\n");
    Some(out)
}

/// A doc comment of a description: its summary and its text as a comment block.
pub open spec fn doc_comment(prefix: Seq<char>, bare: Seq<char>, desc: Option<crate::schema::Description>) -> Seq<char> {
    match desc {
        Some(d) => multiline_text(prefix, bare, seq![d.summary@, d.description@]),
        None => Seq::empty(),
    }
}

fn doc_comment_code(prefix: &str, bare: &str, desc: &Option<crate::schema::Description>) -> (r: String)
    ensures
        r@ == doc_comment(prefix@, bare@, *desc),
{
    match desc {
        Some(d) => {
            let parts = [d.summary.as_str(), d.description.as_str()];
            assert(parts@.map_values(|x: &str| x@) =~= seq![d.summary@, d.description@]);
            write_multiline(prefix, bare, &parts)
        },
        None => String::new(),
    }
}

/// The doc line of one request argument: its name and its summary.
pub open spec fn arg_doc_text(a: Arg) -> Seq<char> {
    "\t\t/// - `"@ + a.name@ + "`: "@ + (match a.summary {
        Some(x) => x@,
        None => "(no summary available)"@,
    }) + "\n"@
}

/// The doc lines of arguments `args`.
pub open spec fn args_doc_text(args: Seq<Arg>) -> Seq<char>
    decreases args.len(),
{
    if args.len() == 0 {
        Seq::empty()
    } else {
        args_doc_text(args.drop_last()) + arg_doc_text(args.last())
    }
}

/// The doc comment of a request's handler: the request's description, then
/// the list of its arguments.
pub open spec fn request_doc(m: Message) -> Seq<char> {
    (match m.desc {
        Some(d) => doc_comment("\t\t/// "@, "\t\t///"@, Some(d)) + "\t\t///\n"@,
        None => Seq::empty(),
    }) + "\t\t/// # Request Arguments\n\t\t///\n"@ + args_doc_text(m.args@)
}

fn request_doc_code(m: &Message) -> (r: String)
    ensures
        r@ == request_doc(*m),
{
    let mut out = String::new();
    match &m.desc {
        Some(_) => {
            let d = doc_comment_code("\t\t/// ", "\t\t///", &m.desc);
            out.append(d.as_str());
            out.append("\t\t///\n");
        },
        None => {},
    }
    out.append("\t\t/// # Request Arguments\n\t\t///\n");
    let mut i: usize = 0;
    let ghost base = out@;
    assert(m.args@.take(0) =~= Seq::<Arg>::empty());
    while i < m.args.len()
        invariant
            i <= m.args@.len(),
            out@ == base + args_doc_text(m.args@.take(i as int)),
        decreases m.args@.len() - i,
    {
        assert(m.args@.take(i + 1).drop_last() =~= m.args@.take(i as int));
        assert(m.args@.take(i + 1).last() == m.args@[i as int]);
        let a = &m.args[i];
        out.append("\t\t/// - `");
        out.append(a.name.as_str());
        out.append("`: ");
        match &a.summary {
            Some(x) => out.append(x.as_str()),
            None => out.append("(no summary available)"),
        }
        out.append("\n");
        i = i + 1;
    }
    assert(m.args@.take(m.args@.len() as int) =~= m.args@);
    out
}

/// The parts of generated code that are written once per message.
#[derive(Clone, Copy, Debug, PartialEq, Eq, Structural)]
pub enum MessagePiece {
    /// The handler-trait method of a request.
    HandlerSig,
    /// The sender of an event.
    EventSender,
}

/// The text of `piece` for message `m` at opcode `op`.
pub open spec fn message_text(op: nat, m: Message, piece: MessagePiece) -> Option<Seq<char>> {
    match piece {
        MessagePiece::HandlerSig => match args_text(m.args@, ArgPiece::HandlerParam) {
            Some(params) => Some(
                request_doc(m) + "\t\tfn handle_"@ + m.name@ + "("@ + (if is_destructor(m) { "self, "@ } else { "&mut self, "@ })
                    + "client: &mut SendHalf<'_>, "@ + params + ") -> Result<()>;\n"@,
            ),
            None => None,
        },
        MessagePiece::EventSender => match (args_text(m.args@, ArgPiece::EventParam), args_text(m.args@, ArgPiece::Count), args_text(m.args@, ArgPiece::Encode), log_text("event"@, m)) {
            (Some(params), Some(count), Some(enc), Some(log)) => Some(
                "\t\tpub fn send_"@ + m.name@ + "("@ + (if is_destructor(m) { "self"@ } else { "&self"@ })
                    + ", self_id: Id<Self>, client: &mut SendHalf<'_>"@ + params
                    + ") -> Result<()> {\n"@ + log + "\t\t\tlet (mut len, mut fds) = (0, 0);\n"@ + count
                    + "\t\t\tlet mut event = client.submit(self_id.cast(), "@ + decimal(op)
                    + ", len as usize, fds)?;\n"@ + enc + "\t\t\tevent.finish();\n\t\t\tOk(())\n\t\t}\n"@,
            ),
            _ => None,
        },
    }
}

#[verifier::rlimit(40)]
fn message_code(op: usize, m: &Message, piece: MessagePiece) -> (r: Option<String>)
    ensures
        match r {
            Some(s) => message_text(op as nat, *m, piece) == Some(s@),
            None => message_text(op as nat, *m, piece) is None,
        },
{
    let mut out = String::new();
    match piece {
        MessagePiece::HandlerSig => {
            let params = emit_args(&m.args, ArgPiece::HandlerParam)?;
            let doc = request_doc_code(m);
            out.append(doc.as_str());
            out.append("\t\tfn handle_");
            out.append(m.name.as_str());
            out.append("(");
            if destructor(m) {
                out.append("self, ");
            } else {
                out.append("&mut self, ");
            }
            out.append("client: &mut SendHalf<'_>, ");
            out.append(params.as_str());
            out.append(") -> Result<()>;\n");
        },
        MessagePiece::EventSender => {
            let params = emit_args(&m.args, ArgPiece::EventParam)?;
            let count = emit_args(&m.args, ArgPiece::Count)?;
            let enc = emit_args(&m.args, ArgPiece::Encode)?;
            let log = emit_log("event", m)?;
            out.append("\t\tpub fn send_");
            out.append(m.name.as_str());
            out.append("(");
            if destructor(m) {
                out.append("self");
            } else {
                out.append("&self");
            }
            out.append(", self_id: Id<Self>, client: &mut SendHalf<'_>");
            out.append(params.as_str());
            out.append(") -> Result<()> {\n");
            out.append(log.as_str());
            out.append("\t\t\tlet (mut len, mut fds) = (0, 0);\n");
            out.append(count.as_str());
            out.append("\t\t\tlet mut event = client.submit(self_id.cast(), ");
            push_decimal(&mut out, op as u64);
            out.append(", len as usize, fds)?;\n");
            out.append(enc.as_str());
            out.append("\t\t\tevent.finish();\n\t\t\tOk(())\n\t\t}\n");
        },
    }
    assert(Seq::<char>::empty() + out@ =~= out@);
    Some(out)
}

/// The text of `piece` for each message of `ms`, each at its opcode.
pub open spec fn messages_text(ms: Seq<Message>, piece: MessagePiece) -> Option<Seq<char>>
    decreases ms.len(),
{
    if ms.len() == 0 {
        Some(Seq::empty())
    } else {
        match (messages_text(ms.drop_last(), piece), message_text((ms.len() - 1) as nat, ms.last(), piece)) {
            (Some(a), Some(b)) => Some(a + b),
            _ => None,
        }
    }
}

proof fn lemma_messages_none(ms: Seq<Message>, piece: MessagePiece, i: int)
    requires
        0 <= i < ms.len(),
        messages_text(ms.take(i + 1), piece) is None,
    ensures
        messages_text(ms, piece) is None,
    decreases ms.len() - i,
{
    if i + 1 < ms.len() {
        assert(ms.take(i + 2).drop_last() =~= ms.take(i + 1));
        lemma_messages_none(ms, piece, i + 1);
    } else {
        assert(ms.take(i + 1) =~= ms);
    }
}

fn emit_messages(ms: &Vec<Message>, piece: MessagePiece) -> (r: Option<String>)
    ensures
        match r {
            Some(s) => messages_text(ms@, piece) == Some(s@),
            None => messages_text(ms@, piece) is None,
        },
{
    let mut out = String::new();
    let mut i: usize = 0;
    assert(ms@.take(0) =~= Seq::<Message>::empty());
    while i < ms.len()
        invariant
            i <= ms@.len(),
            messages_text(ms@.take(i as int), piece) == Some(out@),
        decreases ms@.len() - i,
    {
        let ghost t = ms@.take(i + 1);
        assert(t.drop_last() =~= ms@.take(i as int));
        assert(t.last() == ms@[i as int]);
        match message_code(i, &ms[i], piece) {
            Some(p) => out.append(p.as_str()),
            None => {
                proof {
                    assert(message_text((t.len() - 1) as nat, t.last(), piece) is None);
                    lemma_messages_none(ms@, piece, i as int);
                }
                return None;
            },
        }
        i = i + 1;
    }
    assert(ms@.take(ms@.len() as int) =~= ms@);
    Some(out)
}

/// The code of each enum of `es`, in order.
pub open spec fn enums_text(es: Seq<Enum>) -> Option<Seq<char>>
    decreases es.len(),
{
    if es.len() == 0 {
        Some(Seq::empty())
    } else {
        match (enums_text(es.drop_last()), enum_text(es.last())) {
            (Some(a), Some(b)) => Some(a + b),
            _ => None,
        }
    }
}

proof fn lemma_enums_none(es: Seq<Enum>, i: int)
    requires
        0 <= i < es.len(),
        enums_text(es.take(i + 1)) is None,
    ensures
        enums_text(es) is None,
    decreases es.len() - i,
{
    if i + 1 < es.len() {
        assert(es.take(i + 2).drop_last() =~= es.take(i + 1));
        lemma_enums_none(es, i + 1);
    } else {
        assert(es.take(i + 1) =~= es);
    }
}

fn emit_enums(es: &Vec<Enum>) -> (r: Option<String>)
    ensures
        match r {
            Some(s) => enums_text(es@) == Some(s@),
            None => enums_text(es@) is None,
        },
{
    let mut out = String::new();
    let mut i: usize = 0;
    assert(es@.take(0) =~= Seq::<Enum>::empty());
    while i < es.len()
        invariant
            i <= es@.len(),
            enums_text(es@.take(i as int)) == Some(out@),
        decreases es@.len() - i,
    {
        assert(es@.take(i + 1).drop_last() =~= es@.take(i as int));
        assert(es@.take(i + 1).last() == es@[i as int]);
        match emit_enum(&es[i]) {
            Some(p) => out.append(p.as_str()),
            None => {
                proof {
                    lemma_enums_none(es@, i as int);
                }
                return None;
            },
        }
        i = i + 1;
    }
    assert(es@.take(es@.len() as int) =~= es@);
    Some(out)
}

/// The module of an interface: its handler trait with one method per request;
/// for an implemented interface, its name and version, its request dispatcher
/// and one sender per event; then its enums.
pub open spec fn interface_text(iface: Interface) -> Option<Seq<char>> {
    match (rust_name_spec(iface.name@), messages_text(iface.requests@, MessagePiece::HandlerSig),
        request_handler_text(iface), messages_text(iface.events@, MessagePiece::EventSender), enums_text(iface.enums@)) {
        (Some(n), Some(sigs), Some(handler), Some(senders), Some(enums)) => Some(
            doc_comment("/// "@, "///"@, iface.desc) + "pub mod "@ + iface.name@ + " {\n"@
                + "\tuse crate::client::{RecvMessage, SendMessage, SendHalf};\n\tuse crate::object_map::{Objects, OccupiedEntry, VacantEntry};\n\tuse crate::protocol::{Word, Fd, Fixed, DecodeArg, Id, EncodeArg};\n\tuse super::AnyObject;\n\tuse std::io::{self, ErrorKind, Result};\n"@
                + "\tpub trait "@ + n + ": Sized {\n"@ + sigs + "\t}\n"@ + (match impl_of_spec(iface.name@) {
                Some(t) => "\timpl "@ + t + " where Self: "@ + n + " {\n\t\tpub const INTERFACE: &str = \""@ + iface.name@
                    + "\";\n\t\tpub const VERSION: u32 = "@ + decimal(iface.version as nat) + ";\n"@ + handler + senders
                    + "\t}\n"@,
                None => Seq::empty(),
            }) + enums + "}\n"@,
        ),
        _ => None,
    }
}

/// Emit the module of an interface.
#[verifier::rlimit(40)]
pub fn emit_interface(iface: &Interface) -> (r: Option<String>)
    ensures
        match r {
            Some(s) => interface_text(*iface) == Some(s@),
            None => interface_text(*iface) is None,
        },
{
    let n = rust_name(iface.name.as_str())?;
    let sigs = emit_messages(&iface.requests, MessagePiece::HandlerSig)?;
    let handler = emit_request_handler(iface)?;
    let senders = emit_messages(&iface.events, MessagePiece::EventSender)?;
    let enums = emit_enums(&iface.enums)?;
    let mut out = doc_comment_code("/// ", "///", &iface.desc);
    out.append("pub mod ");
    out.append(iface.name.as_str());
    out.append(" {\n");
    out.append("\tuse crate::client::{RecvMessage, SendMessage, SendHalf};\n\tuse crate::object_map::{Objects, OccupiedEntry, VacantEntry};\n\tuse crate::protocol::{Word, Fd, Fixed, DecodeArg, Id, EncodeArg};\n\tuse super::AnyObject;\n\tuse std::io::{self, ErrorKind, Result};\n");
    out.append("\tpub trait ");
    out.append(n.as_str());
    out.append(": Sized {\n");
    out.append(sigs.as_str());
    out.append("\t}\n");
    let mut body = String::new();
    match impl_of(iface.name.as_str()) {
        Some(t) => {
            body.append("\timpl ");
            body.append(t);
            body.append(" where Self: ");
            body.append(n.as_str());
            body.append(" {\n\t\tpub const INTERFACE: &str = \"");
            body.append(iface.name.as_str());
            body.append("\";\n\t\tpub const VERSION: u32 = ");
            push_decimal(&mut body, iface.version as u64);
            body.append(";\n");
            body.append(handler.as_str());
            body.append(senders.as_str());
            body.append("\t}\n");
        },
        None => {},
    }
    out.append(body.as_str());
    out.append(enums.as_str());
    out.append("}\n");
    Some(out)
}

/// Number of interfaces with an implementation type.
pub const IMPL_COUNT: usize = 9;

/// The implementation type at position `i` of the table of implemented interfaces.
pub open spec fn impl_type(i: int) -> Seq<char> {
    if i == 0 {
        "crate::object_impls::Display"@
    } else
    if i == 1 {
        "crate::object_impls::Callback"@
    } else
    if i == 2 {
        "crate::object_impls::Registry"@
    } else
    if i == 3 {
        "crate::object_impls::ShmGlobal"@
    } else
    if i == 4 {
        "crate::object_impls::ShmPool"@
    } else
    if i == 5 {
        "crate::object_impls::ShmBuffer"@
    } else
    if i == 6 {
        "crate::object_impls::Compositor"@
    } else
    if i == 7 {
        "crate::object_impls::Surface"@
    } else {
        "crate::object_impls::Region"@
    }
}

/// The variant name at position `i` of the table of implemented interfaces.
pub open spec fn impl_bare(i: int) -> Seq<char> {
    if i == 0 {
        "Display"@
    } else
    if i == 1 {
        "Callback"@
    } else
    if i == 2 {
        "Registry"@
    } else
    if i == 3 {
        "ShmGlobal"@
    } else
    if i == 4 {
        "ShmPool"@
    } else
    if i == 5 {
        "ShmBuffer"@
    } else
    if i == 6 {
        "Compositor"@
    } else
    if i == 7 {
        "Surface"@
    } else {
        "Region"@
    }
}

fn impl_entry(i: usize) -> (r: (&'static str, &'static str))
    requires
        i < IMPL_COUNT,
    ensures
        r.0@ == impl_type(i as int),
        r.1@ == impl_bare(i as int),
{
    if i == 0 {
        ("crate::object_impls::Display", "Display")
    } else
    if i == 1 {
        ("crate::object_impls::Callback", "Callback")
    } else
    if i == 2 {
        ("crate::object_impls::Registry", "Registry")
    } else
    if i == 3 {
        ("crate::object_impls::ShmGlobal", "ShmGlobal")
    } else
    if i == 4 {
        ("crate::object_impls::ShmPool", "ShmPool")
    } else
    if i == 5 {
        ("crate::object_impls::ShmBuffer", "ShmBuffer")
    } else
    if i == 6 {
        ("crate::object_impls::Compositor", "Compositor")
    } else
    if i == 7 {
        ("crate::object_impls::Surface", "Surface")
    } else {
        ("crate::object_impls::Region", "Region")
    }
}

/// The parts of the closed sum that are written once per implemented interface.
#[derive(Clone, Copy, Debug, PartialEq, Eq, Structural)]
pub enum SumPiece {
    /// The conversions between the type and the sum.
    Conversions,
    /// The variant of the sum.
    Variant,
    /// The arm that selects the type's request dispatcher.
    Selector,
}

/// One downcast function of the conversions.
pub open spec fn cast_text(f: Seq<char>, sigil: Seq<char>, bare: Seq<char>) -> Seq<char> {
    "\tfn "@ + f + "(object: "@ + sigil + "AnyObject) -> Option<"@ + sigil + "Self> {\n\t\tmatch object {\n\t\t\tAnyObject::"@ + bare
        + "(obj) => Some(obj),\n\t\t\t_ => None,\n\t\t}\n\t}\n"@
}

/// The text of `piece` for the implemented interface at position `i`.
pub open spec fn sum_piece_text(i: int, piece: SumPiece) -> Seq<char> {
    let ty = impl_type(i);
    let bare = impl_bare(i);
    match piece {
        SumPiece::Conversions => "impl Object for "@ + ty + " {\n\tfn upcast(self) -> AnyObject {\n\t\tAnyObject::"@ + bare
            + "(self)\n\t}\n"@ + cast_text("downcast"@, ""@, bare) + cast_text("downcast_ref"@, "&"@, bare)
            + cast_text("downcast_mut"@, "&mut "@, bare) + "}\n"@,
        SumPiece::Variant => "\t"@ + bare + "("@ + ty + "),\n"@,
        SumPiece::Selector => "\t\t\tSelf::"@ + bare + "(_) => "@ + ty + "::handle_request,\n"@,
    }
}

/// The text of `piece` for the first `n` implemented interfaces.
pub open spec fn sum_text(n: nat, piece: SumPiece) -> Seq<char>
    decreases n,
{
    if n == 0 {
        Seq::empty()
    } else {
        sum_text((n - 1) as nat, piece) + sum_piece_text(n - 1, piece)
    }
}

fn cast_code(out: &mut String, f: &str, sigil: &str, bare: &str)
    ensures
        final(out)@ == old(out)@ + cast_text(f@, sigil@, bare@),
{
    out.append("\tfn ");
    out.append(f);
    out.append("(object: ");
    out.append(sigil);
    out.append("AnyObject) -> Option<");
    out.append(sigil);
    out.append("Self> {\n\t\tmatch object {\n\t\t\tAnyObject::");
    out.append(bare);
    out.append("(obj) => Some(obj),\n\t\t\t_ => None,\n\t\t}\n\t}\n");
    assert(final(out)@ =~= old(out)@ + cast_text(f@, sigil@, bare@));
}

#[verifier::rlimit(40)]
fn conversions_piece(out: &mut String, ty: &str, bare: &str)
    ensures
        final(out)@ == old(out)@ + "impl Object for "@ + ty@ + " {\n\tfn upcast(self) -> AnyObject {\n\t\tAnyObject::"@ + bare@
            + "(self)\n\t}\n"@ + cast_text("downcast"@, ""@, bare@) + cast_text("downcast_ref"@, "&"@, bare@)
            + cast_text("downcast_mut"@, "&mut "@, bare@) + "}\n"@,
{
    out.append("impl Object for ");
    out.append(ty);
    out.append(" {\n\tfn upcast(self) -> AnyObject {\n\t\tAnyObject::");
    out.append(bare);
    out.append("(self)\n\t}\n");
    cast_code(out, "downcast", "", bare);
    cast_code(out, "downcast_ref", "&", bare);
    cast_code(out, "downcast_mut", "&mut ", bare);
    out.append("}\n");
}

#[verifier::rlimit(40)]
fn sum_piece(out: &mut String, i: usize, piece: SumPiece)
    requires
        i < IMPL_COUNT,
    ensures
        final(out)@ == old(out)@ + sum_piece_text(i as int, piece),
{
    let (ty, bare) = impl_entry(i);
    let ghost before = out@;
    match piece {
        SumPiece::Conversions => {
            conversions_piece(out, ty, bare);
        },
        SumPiece::Variant => {
            out.append("\t");
            out.append(bare);
            out.append("(");
            out.append(ty);
            out.append("),\n");
        },
        SumPiece::Selector => {
            out.append("\t\t\tSelf::");
            out.append(bare);
            out.append("(_) => ");
            out.append(ty);
            out.append("::handle_request,\n");
        },
    }
    assert(out@ =~= before + sum_piece_text(i as int, piece));
}

fn emit_sum(piece: SumPiece) -> (r: String)
    ensures
        r@ == sum_text(IMPL_COUNT as nat, piece),
{
    let mut out = String::new();
    let mut i: usize = 0;
    while i < IMPL_COUNT
        invariant
            i <= IMPL_COUNT,
            out@ == sum_text(i as nat, piece),
        decreases IMPL_COUNT - i,
    {
        sum_piece(&mut out, i, piece);
        i = i + 1;
    }
    out
}

/// The closed sum of implemented interfaces: conversions for each type, the
/// sum itself, and the selector of each variant's request dispatcher.
pub open spec fn any_object_text() -> Seq<char> {
    sum_text(IMPL_COUNT as nat, SumPiece::Conversions) + "#[derive(Debug)]\npub enum AnyObject {\n"@ + sum_text(
        IMPL_COUNT as nat,
        SumPiece::Variant,
    )
        + "}\nimpl AnyObject {\n\tpub fn request_handler(&self) -> fn(&mut Objects, &mut SendHalf<'_>, RecvMessage<'_>) -> std::io::Result<()> {\n\t\tmatch self {\n"@
        + sum_text(IMPL_COUNT as nat, SumPiece::Selector) + "\t\t}\n\t}\n}\n"@
}

/// Emit the closed sum of implemented interfaces.
pub fn emit_any_object() -> (r: String)
    ensures
        r@ == any_object_text(),
{
    let conversions = emit_sum(SumPiece::Conversions);
    let variants = emit_sum(SumPiece::Variant);
    let selectors = emit_sum(SumPiece::Selector);
    let mut out = String::new();
    out.append(conversions.as_str());
    out.append("#[derive(Debug)]\npub enum AnyObject {\n");
    out.append(variants.as_str());
    out.append("}\nimpl AnyObject {\n\tpub fn request_handler(&self) -> fn(&mut Objects, &mut SendHalf<'_>, RecvMessage<'_>) -> std::io::Result<()> {\n\t\tmatch self {\n");
    out.append(selectors.as_str());
    out.append("\t\t}\n\t}\n}\n");
    assert(Seq::<char>::empty() + conversions@ =~= conversions@);
    out
}

/// The modules of each interface of `is`, in order.
pub open spec fn interfaces_text(is: Seq<Interface>) -> Option<Seq<char>>
    decreases is.len(),
{
    if is.len() == 0 {
        Some(Seq::empty())
    } else {
        match (interfaces_text(is.drop_last()), interface_text(is.last())) {
            (Some(a), Some(b)) => Some(a + b),
            _ => None,
        }
    }
}

proof fn lemma_interfaces_none(is: Seq<Interface>, i: int)
    requires
        0 <= i < is.len(),
        interfaces_text(is.take(i + 1)) is None,
    ensures
        interfaces_text(is) is None,
    decreases is.len() - i,
{
    if i + 1 < is.len() {
        assert(is.take(i + 2).drop_last() =~= is.take(i + 1));
        lemma_interfaces_none(is, i + 1);
    } else {
        assert(is.take(i + 1) =~= is);
    }
}

/// The comment that carries a protocol's copyright, if it has one.
pub open spec fn copyright_text(p: Protocol) -> Seq<char> {
    match p.copyright {
        Some(c) => "// Copyright of the protocol specification:\n"@ + multiline_text("// > "@, "// >"@, seq![c@]),
        None => Seq::empty(),
    }
}

/// The comment that carries a protocol's description, if it has one.
pub open spec fn description_text(p: Protocol) -> Seq<char> {
    match p.desc {
        Some(d) => multiline_text("// "@, "//"@, seq![d.summary@, d.description@]),
        None => Seq::empty(),
    }
}

/// The generated code for a protocol: its copyright, the imports, its
/// description, then each interface's module.
pub open spec fn protocol_text(p: Protocol) -> Option<Seq<char>> {
    match interfaces_text(p.interfaces@) {
        Some(body) => Some(
            copyright_text(p) + "use crate::{client::{RecvMessage, SendHalf}, object_map::{Object, Objects}};\nuse super::Id;\n"@
                + description_text(p) + body,
        ),
        None => None,
    }
}

/// Emit the generated code for a protocol.
pub fn emit_protocol(p: &Protocol) -> (r: Option<String>)
    ensures
        match r {
            Some(s) => protocol_text(*p) == Some(s@),
            None => protocol_text(*p) is None,
        },
{
    let is = &p.interfaces;
    let mut body = String::new();
    let mut i: usize = 0;
    assert(is@.take(0) =~= Seq::<Interface>::empty());
    while i < is.len()
        invariant
            i <= is@.len(),
            is@ == p.interfaces@,
            interfaces_text(is@.take(i as int)) == Some(body@),
        decreases is@.len() - i,
    {
        assert(is@.take(i + 1).drop_last() =~= is@.take(i as int));
        assert(is@.take(i + 1).last() == is@[i as int]);
        match emit_interface(&is[i]) {
            Some(t) => body.append(t.as_str()),
            None => {
                proof {
                    lemma_interfaces_none(is@, i as int);
                }
                return None;
            },
        }
        i = i + 1;
    }
    assert(is@.take(is@.len() as int) =~= is@);
    let mut out = String::new();
    match &p.copyright {
        Some(c) => {
            let parts = [c.as_str()];
            assert(parts@.map_values(|x: &str| x@) =~= seq![c@]);
            out.append("// Copyright of the protocol specification:\n");
            let block = write_multiline("// > ", "// >", &parts);
            out.append(block.as_str());
        },
        None => {},
    }
    out.append("use crate::{client::{RecvMessage, SendHalf}, object_map::{Object, Objects}};\nuse super::Id;\n");
    match &p.desc {
        Some(d) => {
            let parts = [d.summary.as_str(), d.description.as_str()];
            assert(parts@.map_values(|x: &str| x@) =~= seq![d.summary@, d.description@]);
            let block = write_multiline("// ", "//", &parts);
            out.append(block.as_str());
        },
        None => {},
    }
    out.append(body.as_str());
    assert(Seq::<char>::empty() + out@ =~= out@);
    Some(out)
}

/// The emitted dispatcher holds one arm per request, in document order: the
/// arms of the requests before opcode `k`, then the arm that opcode `k`
/// dispatches to request `k`, then the arms of the requests after it.
pub proof fn lemma_dispatch_arm_order(ms: Seq<Message>, k: int)
    requires
        request_arms_text(ms) is Some,
        0 <= k < ms.len(),
    ensures
        request_arm_text(k as nat, ms[k]) is Some,
        request_arms_text(ms.take(k)) is Some,
        request_arms_text(ms.take(k + 1)) is Some,
        request_arms_text(ms.take(k + 1))->0 == request_arms_text(ms.take(k))->0 + request_arm_text(k as nat, ms[k])->0,
        request_arms_text(ms.take(k + 1))->0.len() <= request_arms_text(ms)->0.len(),
        request_arms_text(ms)->0.take(request_arms_text(ms.take(k + 1))->0.len() as int) == request_arms_text(ms.take(k + 1))->0,
    decreases ms.len(),
{
    let t = ms.take(k + 1);
    assert(t.drop_last() =~= ms.take(k));
    assert(t.last() == ms[k]);
    if k + 1 == ms.len() {
        assert(t =~= ms);
        let a = request_arms_text(ms)->0;
        assert(a.take(a.len() as int) =~= a);
    } else {
        let d = ms.drop_last();
        assert(d.take(k + 1) =~= t);
        assert(d.take(k) =~= ms.take(k));
        assert(d[k] == ms[k]);
        lemma_dispatch_arm_order(d, k);
        let whole = request_arms_text(ms)->0;
        let head = request_arms_text(d)->0;
        let part = request_arms_text(t)->0;
        assert(whole == head + request_arm_text((ms.len() - 1) as nat, ms.last())->0);
        assert(whole.take(part.len() as int) =~= head.take(part.len() as int));
    }
}

/// The pieces of `s` between newlines, in order; the last may be empty.
pub open spec fn pieces(s: Seq<char>) -> Seq<Seq<char>>
    decreases s.len(),
{
    if s.len() == 0 {
        seq![Seq::empty()]
    } else {
        let p = pieces(s.drop_last());
        if s.last() == '\n' {
            p.push(Seq::empty())
        } else {
            p.update(p.len() - 1, p.last().push(s.last()))
        }
    }
}

proof fn lemma_pieces_nonempty(s: Seq<char>)
    ensures
        pieces(s).len() >= 1,
    decreases s.len(),
{
    if s.len() > 0 {
        lemma_pieces_nonempty(s.drop_last());
    }
}

/// The lines of `s`: the pieces between newlines, without an empty last one.
pub open spec fn text_lines(s: Seq<char>) -> Seq<Seq<char>> {
    let p = pieces(s);
    if p.last().len() == 0 {
        p.drop_last()
    } else {
        p
    }
}

/// One comment line: `prefix` and the trimmed line, or the bare prefix for a blank line.
pub open spec fn doc_line(prefix: Seq<char>, bare: Seq<char>, l: Seq<char>) -> Seq<char> {
    if trimmed(l).len() == 0 {
        bare + "\n"@
    } else {
        prefix + trimmed(l) + "\n"@
    }
}

/// The comment lines of `ls`, in order.
pub open spec fn doc_lines(prefix: Seq<char>, bare: Seq<char>, ls: Seq<Seq<char>>) -> Seq<char>
    decreases ls.len(),
{
    if ls.len() == 0 {
        Seq::empty()
    } else {
        doc_lines(prefix, bare, ls.drop_last()) + doc_line(prefix, bare, ls.last())
    }
}

/// Whether one of `parts` is not empty.
pub open spec fn any_nonempty(parts: Seq<Seq<char>>) -> bool {
    exists|i: int| 0 <= i < parts.len() && (#[trigger] parts[i]).len() > 0
}

/// A comment block of `parts`: each non-empty part's lines under `prefix`, a
/// bare-prefix line between parts.
pub open spec fn multiline_text(prefix: Seq<char>, bare: Seq<char>, parts: Seq<Seq<char>>) -> Seq<char>
    decreases parts.len(),
{
    if parts.len() == 0 {
        Seq::empty()
    } else {
        let m = multiline_text(prefix, bare, parts.drop_last());
        let p = parts.last();
        if p.len() == 0 {
            m
        } else {
            m + (if any_nonempty(parts.drop_last()) { bare + "\n"@ } else { Seq::empty() }) + doc_lines(
                prefix,
                bare,
                text_lines(p),
            )
        }
    }
}

/// The characters of `s` from `from` on, as a string.
fn char_at(s: &str, i: usize) -> (r: String)
    requires
        i < s@.len(),
    ensures
        r@ == seq![s@[i as int]],
{
    let n = s.unicode_len();
    let t = s.substring_char(i, i + 1);
    assert(t@ =~= seq![s@[i as int]]);
    String::from_str(t)
}

/// The lines of `s`.
pub fn lines_of(s: &str) -> (r: Vec<String>)
    ensures
        r@.map_values(|x: String| x@) == text_lines(s@),
{
    let n = s.unicode_len();
    let mut done: Vec<String> = Vec::new();
    let mut cur = String::new();
    let mut i: usize = 0;
    assert(s@.take(0) =~= Seq::<char>::empty());
    assert(done@.map_values(|x: String| x@).push(cur@) =~= pieces(Seq::<char>::empty()));
    while i < n
        invariant
            n == s@.len(),
            i <= n,
            done@.map_values(|x: String| x@).push(cur@) == pieces(s@.take(i as int)),
        decreases n - i,
    {
        let c = s.get_char(i);
        let ghost before = done@.map_values(|x: String| x@).push(cur@);
        let ghost t = s@.take(i + 1);
        assert(t.drop_last() =~= s@.take(i as int));
        assert(t.last() == c);
        if c == '\n' {
            done.push(cur);
            cur = String::new();
            assert(done@.map_values(|x: String| x@).push(cur@) =~= before.push(Seq::<char>::empty()));
        } else {
            let one = char_at(s, i);
            let ghost old_cur = cur@;
            assert(before.last() == old_cur);
            cur.append(one.as_str());
            assert(cur@ =~= old_cur.push(c));
            assert(done@.map_values(|x: String| x@).push(cur@) =~= before.update(before.len() - 1, before.last().push(c)));
        }
        i = i + 1;
    }
    assert(s@.take(n as int) =~= s@);
    if cur.as_str().unicode_len() > 0 {
        done.push(cur);
        assert(done@.map_values(|x: String| x@) =~= pieces(s@));
    } else {
        assert(done@.map_values(|x: String| x@) =~= pieces(s@).drop_last());
    }
    done
}

/// The comment block of one part.
fn doc_block(prefix: &str, bare: &str, part: &str) -> (r: String)
    ensures
        r@ == doc_lines(prefix@, bare@, text_lines(part@)),
{
    let lines = lines_of(part);
    let ghost ls = text_lines(part@);
    let mut out = String::new();
    let mut i: usize = 0;
    assert(ls.take(0) =~= Seq::<Seq<char>>::empty());
    while i < lines.len()
        invariant
            i <= lines@.len(),
            lines@.map_values(|x: String| x@) == ls,
            out@ == doc_lines(prefix@, bare@, ls.take(i as int)),
        decreases lines@.len() - i,
    {
        assert(ls.take(i + 1).drop_last() =~= ls.take(i as int));
        assert(ls.take(i + 1).last() == lines@[i as int]@);
        let t = trim(lines[i].as_str());
        if t.as_str().unicode_len() == 0 {
            out.append(bare);
            out.append("\n");
        } else {
            out.append(prefix);
            out.append(t.as_str());
            out.append("\n");
        }
        i = i + 1;
    }
    assert(ls.take(lines@.len() as int) =~= ls);
    out
}

/// Write `parts` as a comment block: each non-empty part's lines, trimmed,
/// under `prefix`; a blank line becomes `bare`, as does the separator line
/// between parts.
pub fn write_multiline(prefix: &str, bare: &str, parts: &[&str]) -> (r: String)
    ensures
        r@ == multiline_text(prefix@, bare@, parts@.map_values(|p: &str| p@)),
{
    let ghost ps = parts@.map_values(|p: &str| p@);
    let mut out = String::new();
    let mut first = true;
    let mut i: usize = 0;
    assert(ps.take(0) =~= Seq::<Seq<char>>::empty());
    while i < parts.len()
        invariant
            i <= parts@.len(),
            ps == parts@.map_values(|p: &str| p@),
            out@ == multiline_text(prefix@, bare@, ps.take(i as int)),
            first <==> !any_nonempty(ps.take(i as int)),
        decreases parts@.len() - i,
    {
        let ghost t = ps.take(i + 1);
        assert(t.drop_last() =~= ps.take(i as int));
        assert(t.last() == parts@[i as int]@);
        let part = parts[i];
        if part.unicode_len() > 0 {
            if !first {
                out.append(bare);
                out.append("\n");
            }
            let block = doc_block(prefix, bare, part);
            out.append(block.as_str());
            first = false;
            assert(t[i as int].len() > 0);
        } else {
            proof {
                if any_nonempty(t) {
                    let k = choose|k: int| 0 <= k < t.len() && (#[trigger] t[k]).len() > 0;
                    if k < i {
                        assert(ps.take(i as int)[k] == t[k]);
                    }
                }
            }
        }
        proof {
            if !first && any_nonempty(ps.take(i as int)) {
                let k = choose|k: int| 0 <= k < ps.take(i as int).len() && (#[trigger] ps.take(i as int)[k]).len() > 0;
                assert(t[k] == ps.take(i as int)[k]);
            }
        }
        i = i + 1;
    }
    assert(ps.take(parts@.len() as int) =~= ps);
    out
}

} // verus!
