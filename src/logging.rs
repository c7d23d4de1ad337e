//! Lines of the debug trace: one per dispatched request or submitted event,
//! `[sssssss.mmm] interface@id.name(args)`, event lines marked with an arrow.

use vstd::prelude::*;

verus! {

/// Whether the trace is on for the value of its environment toggle: `1` or `server`.
pub open spec fn trace_on(value: Option<Seq<char>>) -> bool {
    value == Some("1"@) || value == Some("server"@)
}

/// Decide from the toggle's value whether to write the trace.
pub fn trace_enabled(value: Option<&str>) -> (r: bool)
    ensures
        r == trace_on(match value {
            Some(v) => Some(v@),
            None => None::<Seq<char>>,
        }),
{
    match value {
        Some(v) => crate::dispatch::str_eq(v, "1") || crate::dispatch::str_eq(v, "server"),
        None => false,
    }
}

/// The decimal digit `d`.
pub open spec fn digit_char(d: nat) -> char {
    if d == 0 { '0' } else if d == 1 { '1' } else if d == 2 { '2' } else if d == 3 { '3' } else if d == 4 { '4' }
    else if d == 5 { '5' } else if d == 6 { '6' } else if d == 7 { '7' } else if d == 8 { '8' } else { '9' }
}

/// The decimal numeral of `n`.
pub open spec fn decimal(n: nat) -> Seq<char>
    decreases n,
{
    if n < 10 {
        seq![digit_char(n)]
    } else {
        decimal(n / 10).push(digit_char(n % 10))
    }
}

/// `s` padded on the left with `pad` up to `width` characters.
pub open spec fn left_pad(s: Seq<char>, width: nat, pad: char) -> Seq<char> {
    if s.len() >= width {
        s
    } else {
        Seq::new((width - s.len()) as nat, |i: int| pad) + s
    }
}

/// The timestamp field for `micros` microseconds: seconds-and-milliseconds
/// as `[%7u.%03u]` over the truncated millisecond count.
pub open spec fn timestamp(micros: u32) -> Seq<char> {
    seq!['['] + left_pad(decimal((micros / 1000) as nat), 7, ' ') + seq!['.'] + left_pad(
        decimal((micros % 1000) as nat),
        3,
        '0',
    ) + seq![']']
}

/// Append the decimal digit `d`.
fn push_digit(buf: &mut String, d: u64)
    requires
        d < 10,
    ensures
        final(buf)@ == old(buf)@.push(digit_char(d as nat)),
{
    let s: &str = if d == 0 { "0" } else if d == 1 { "1" } else if d == 2 { "2" } else if d == 3 { "3" }
        else if d == 4 { "4" } else if d == 5 { "5" } else if d == 6 { "6" } else if d == 7 { "7" }
        else if d == 8 { "8" } else { "9" };
    proof {
        reveal_strlit("0");
        reveal_strlit("1");
        reveal_strlit("2");
        reveal_strlit("3");
        reveal_strlit("4");
        reveal_strlit("5");
        reveal_strlit("6");
        reveal_strlit("7");
        reveal_strlit("8");
        reveal_strlit("9");
    }
    buf.append(s);
    assert(buf@ =~= old(buf)@.push(digit_char(d as nat)));
}

/// Append the decimal numeral of `n`.
pub fn push_decimal(buf: &mut String, n: u64)
    ensures
        final(buf)@ == old(buf)@ + decimal(n as nat),
    decreases n,
{
    if n < 10 {
        push_digit(buf, n);
        assert(old(buf)@.push(digit_char(n as nat)) =~= old(buf)@ + decimal(n as nat));
    } else {
        push_decimal(buf, n / 10);
        push_digit(buf, n % 10);
        assert(old(buf)@ + decimal((n / 10) as nat) + seq![digit_char((n % 10) as nat)] =~= old(buf)@ + decimal(n as nat));
    }
}

/// Append `n` right-aligned in `width` characters, padded with `pad`.
fn push_padded(buf: &mut String, n: u64, width: usize, pad_zero: bool)
    ensures
        final(buf)@ == old(buf)@ + left_pad(decimal(n as nat), width as nat, if pad_zero { '0' } else { ' ' }),
{
    let mut digits = String::new();
    push_decimal(&mut digits, n);
    assert(digits@ =~= decimal(n as nat));
    let len = digits.as_str().unicode_len();
    let ghost p = if pad_zero { '0' } else { ' ' };
    let mut k: usize = len;
    proof {
        reveal_strlit("0");
        reveal_strlit(" ");
    }
    while k < width
        invariant
            len <= k <= width || (len > width && k == len),
            len == decimal(n as nat).len(),
            p == (if pad_zero { '0' } else { ' ' }),
            final_eq(buf@, old(buf)@, (k - len) as nat, p),
        decreases width - k,
    {
        proof {
            reveal_strlit("0");
            reveal_strlit(" ");
        }
        if pad_zero {
            buf.append("0");
        } else {
            buf.append(" ");
        }
        k = k + 1;
        assert(buf@ =~= old(buf)@ + Seq::new((k - len) as nat, |i: int| p));
    }
    buf.append(digits.as_str());
    proof {
        if len >= width {
            assert(Seq::new(0, |i: int| p) + Seq::<char>::empty() =~= Seq::<char>::empty());
            assert(buf@ =~= old(buf)@ + decimal(n as nat));
        } else {
            assert(buf@ =~= old(buf)@ + (Seq::new((width - len) as nat, |i: int| p) + decimal(n as nat)));
        }
    }
}

spec fn final_eq(now: Seq<char>, before: Seq<char>, k: nat, p: char) -> bool {
    now == before + Seq::new(k, |i: int| p)
}

/// A trace line being built.
pub struct LogMessage {
    buffer: String,
}

impl LogMessage {
    /// The line so far.
    pub closed spec fn text(&self) -> Seq<char> {
        self.buffer@
    }

    /// Append an argument rendered as `s`, followed by a separator.
    fn push_arg(&mut self, s: &str)
        ensures
            final(self).text() == old(self).text() + s@ + ", "@,
    {
        self.buffer.append(s);
        self.buffer.append(", ");
    }

    /// A null argument: `nil`.
    pub fn arg_nil(&mut self)
        ensures
            final(self).text() == old(self).text() + "nil, "@,
    {
        proof {
            reveal_strlit("nil");
            reveal_strlit(", ");
            reveal_strlit("nil, ");
        }
        self.push_arg("nil");
        assert(self.text() =~= old(self).text() + "nil, "@);
    }

    /// An unsigned argument in decimal.
    pub fn arg_uint(&mut self, v: u32)
        ensures
            final(self).text() == old(self).text() + decimal(v as nat) + ", "@,
    {
        push_decimal(&mut self.buffer, v as u64);
        self.buffer.append(", ");
    }

    /// An object argument: `interface@id`, `[unknown]` standing for an unnamed interface.
    pub fn arg_object(&mut self, interface: Option<&str>, id: u32)
        ensures
            final(self).text() == old(self).text() + (match interface {
                Some(i) => i@,
                None => "[unknown]"@,
            }) + "@"@ + decimal(id as nat) + ", "@,
    {
        match interface {
            Some(i) => self.buffer.append(i),
            None => self.buffer.append("[unknown]"),
        }
        self.buffer.append("@");
        push_decimal(&mut self.buffer, id as u64);
        self.buffer.append(", ");
    }

    /// A new-id argument: `new id interface@id`.
    pub fn arg_new_id(&mut self, interface: Option<&str>, id: u32)
        ensures
            final(self).text() == old(self).text() + "new id "@ + (match interface {
                Some(i) => i@,
                None => "[unknown]"@,
            }) + "@"@ + decimal(id as nat) + ", "@,
    {
        self.buffer.append("new id ");
        self.arg_object(interface, id);
        assert(self.text() =~= old(self).text() + "new id "@ + (match interface {
            Some(i) => i@,
            None => "[unknown]"@,
        }) + "@"@ + decimal(id as nat) + ", "@);
    }

    /// An array argument: `array[len]`.
    pub fn arg_array(&mut self, len: usize)
        ensures
            final(self).text() == old(self).text() + "array["@ + decimal(len as nat) + "], "@,
    {
        self.buffer.append("array[");
        push_decimal(&mut self.buffer, len as u64);
        self.buffer.append("], ");
    }

    /// A file-descriptor argument: `fd N`.
    pub fn arg_fd(&mut self, fd: u32)
        ensures
            final(self).text() == old(self).text() + "fd "@ + decimal(fd as nat) + ", "@,
    {
        self.buffer.append("fd ");
        push_decimal(&mut self.buffer, fd as u64);
        self.buffer.append(", ");
    }

    /// The finished line: the last separator dropped, `)` and a newline added.
    pub fn finish(self) -> (r: String)
        ensures
            r@ == (if self.text().len() >= 2 && self.text().subrange(self.text().len() - 2, self.text().len() as int) == ", "@ {
                self.text().subrange(0, self.text().len() - 2)
            } else {
                self.text()
            }) + ")\n"@,
    {
        proof {
            reveal_strlit(", ");
            reveal_strlit(")\n");
        }
        let s = self.buffer.as_str();
        let n = s.unicode_len();
        let mut out: String;
        if n >= 2 && s.get_char(n - 2) == ',' && s.get_char(n - 1) == ' ' {
            let head = s.substring_char(0, n - 2);
            out = String::from_str(head);
            assert(s@.subrange(n - 2, n as int) =~= ", "@);
        } else {
            out = String::from_str(s);
            proof {
                if n >= 2 {
                    if s@.subrange(n - 2, n as int) == ", "@ {
                        assert(s@.subrange(n - 2, n as int)[0] == s@[n - 2]);
                        assert(s@.subrange(n - 2, n as int)[1] == s@[n - 1]);
                    }
                }
            }
        }
        out.append(")\n");
        out
    }
}

/// Start the line of a message: the timestamp, the arrow for an event, then
/// `interface@id.name(`.
fn log_message(micros: u32, event: bool, interface: &str, name: &str, object_id: u32) -> (r: LogMessage)
    ensures
        r.text() == timestamp(micros) + " "@ + (if event { "→ "@ } else { ""@ }) + interface@ + "@"@ + decimal(object_id as nat) + "."@ + name@ + "("@,
{
    let mut buffer = String::new();
    buffer.append("[");
    push_padded(&mut buffer, (micros / 1000) as u64, 7, false);
    buffer.append(".");
    push_padded(&mut buffer, (micros % 1000) as u64, 3, true);
    buffer.append("] ");
    if event {
        buffer.append("→ ");
    }
    buffer.append(interface);
    buffer.append("@");
    push_decimal(&mut buffer, object_id as u64);
    buffer.append(".");
    buffer.append(name);
    buffer.append("(");
    proof {
        reveal_strlit("[");
        reveal_strlit(".");
        reveal_strlit("] ");
        reveal_strlit(" ");
        reveal_strlit("]");
        reveal_strlit("");
    }
    let r = LogMessage { buffer };
    assert(r.text() =~= timestamp(micros) + " "@ + (if event { "→ "@ } else { ""@ }) + interface@ + "@"@ + decimal(object_id as nat) + "."@ + name@ + "("@);
    r
}

/// Start the trace line of a dispatched request.
pub fn log_request(micros: u32, interface: &str, name: &str, object_id: u32) -> (r: LogMessage)
    ensures
        r.text() == timestamp(micros) + " "@ + ""@ + interface@ + "@"@ + decimal(object_id as nat) + "."@ + name@ + "("@,
{
    log_message(micros, false, interface, name, object_id)
}

/// Start the trace line of a submitted event.
pub fn log_event(micros: u32, interface: &str, name: &str, object_id: u32) -> (r: LogMessage)
    ensures
        r.text() == timestamp(micros) + " "@ + "→ "@ + interface@ + "@"@ + decimal(object_id as nat) + "."@ + name@ + "("@,
{
    log_message(micros, true, interface, name, object_id)
}

} // verus!
