//! Session close reasons, OPTION requests and the default session policy.
use vstd::prelude::*;
use vstd::string::StringExecFns;

use super::error::{HandlerError, UNKNOWN_OPTION};
use crate::protocol::command::{
    line_byte, token_byte, valid_line, valid_token, validate_line, validate_token,
};
use crate::protocol::error::ProtocolError;

verus! {

/// `-`, which doubles as the optional option-name prefix.
pub const DASH: u8 = 0x2d;
/// `=`, which may separate an option's name from its value.
pub const EQUALS: u8 = 0x3d;
/// Horizontal tab.
pub const TAB: u8 = 0x09;

/// Payload-free reason for normal close-hook notification.
#[derive(Debug, Clone, Copy, PartialEq, Eq, Structural)]
#[non_exhaustive]
pub enum SessionEnd {
    /// The peer disconnected between complete commands.
    Clean,
    /// Invalid wire data, incomplete inquiry, or an illegal state transition.
    Protocol,
    /// Transport I/O failed.
    Transport,
    /// Explicit cancellation by a session owner that can await cleanup.
    Cancelled,
    /// A total operation deadline expired.
    Timeout,
    /// Authentication or application policy failed.
    Handler,
}

/// ASCII whitespace: space, tab, line feed, form feed and carriage return.
pub open spec fn ascii_whitespace(b: u8) -> bool {
    b == 0x20 || b == TAB || b == 0x0a || b == 0x0c || b == 0x0d
}

/// The number of leading whitespace bytes.
pub open spec fn leading_whitespace(s: Seq<u8>) -> nat
    decreases s.len(),
{
    if s.len() > 0 && ascii_whitespace(s[0]) {
        1 + leading_whitespace(s.skip(1))
    } else {
        0
    }
}

/// The number of trailing whitespace bytes.
pub open spec fn trailing_whitespace(s: Seq<u8>) -> nat
    decreases s.len(),
{
    if s.len() > 0 && ascii_whitespace(s.last()) {
        1 + trailing_whitespace(s.drop_last())
    } else {
        0
    }
}

/// The bytes without leading and trailing ASCII whitespace.
pub open spec fn trimmed(s: Seq<u8>) -> Seq<u8> {
    let rest = s.skip(leading_whitespace(s) as int);
    rest.take(rest.len() - trailing_whitespace(rest))
}

/// A byte that ends an option name: space, tab or `=`.
pub open spec fn name_separator(b: u8) -> bool {
    b == 0x20 || b == TAB || b == EQUALS
}

/// The index of the first name separator, or the length when there is none.
pub open spec fn separator_index(s: Seq<u8>) -> nat
    decreases s.len(),
{
    if s.len() == 0 || name_separator(s[0]) {
        0
    } else {
        1 + separator_index(s.skip(1))
    }
}

/// An option name and its optional value, as bytes.
pub struct OptionView {
    pub name: Seq<u8>,
    pub value: Option<Seq<u8>>,
}

/// The option text after trimming and removing an optional `--` prefix.
pub open spec fn option_body(s: Seq<u8>) -> Seq<u8> {
    let t = trimmed(s);
    if t.len() >= 2 && t[0] == DASH && t[1] == DASH {
        t.skip(2)
    } else {
        t
    }
}

/// The value part of an option: `= value` with the value trimmed, any other
/// nonempty text as it stands, or no value.
pub open spec fn option_value(rest: Seq<u8>) -> Option<Seq<u8>> {
    if rest.len() > 0 && rest[0] == EQUALS {
        Some(trimmed(rest.skip(1)))
    } else if rest.len() == 0 {
        None
    } else {
        Some(rest)
    }
}

/// The parsed form of an OPTION argument.
pub open spec fn parse_option(s: Seq<u8>) -> Result<OptionView, ProtocolError> {
    if !valid_line(s) {
        Err(ProtocolError::InvalidLine)
    } else {
        let body = option_body(s);
        let end = separator_index(body) as int;
        let name = body.take(end);
        if !valid_token(name) {
            Err(ProtocolError::InvalidToken)
        } else {
            Ok(OptionView { name, value: option_value(trimmed(body.skip(end))) })
        }
    }
}

/// Removes leading and trailing ASCII whitespace.
pub(crate) fn trim_ascii(bytes: &[u8]) -> (r: &[u8])
    ensures
        r@ == trimmed(bytes@),
{
    let len = bytes.len();
    let mut start: usize = 0;
    assert(bytes@.skip(0) =~= bytes@);
    while start < len && (bytes[start] == 0x20 || bytes[start] == TAB || bytes[start] == 0x0a
        || bytes[start] == 0x0c || bytes[start] == 0x0d)
        invariant
            len == bytes@.len(),
            start <= len,
            leading_whitespace(bytes@) == start + leading_whitespace(bytes@.skip(start as int)),
        decreases len - start,
    {
        assert(bytes@.skip(start as int).skip(1) =~= bytes@.skip(start + 1));
        start = start + 1;
    }
    let rest = vstd::slice::slice_subrange(bytes, start, len);
    assert(rest@ =~= bytes@.skip(start as int));
    let mut end: usize = rest.len();
    assert(rest@.take(end as int) =~= rest@);
    while end > 0 && (rest[end - 1] == 0x20 || rest[end - 1] == TAB || rest[end - 1] == 0x0a
        || rest[end - 1] == 0x0c || rest[end - 1] == 0x0d)
        invariant
            end <= rest@.len(),
            trailing_whitespace(rest@) == (rest@.len() - end) + trailing_whitespace(
                rest@.take(end as int),
            ),
        decreases end,
    {
        assert(rest@.take(end as int).drop_last() =~= rest@.take(end - 1));
        end = end - 1;
    }
    vstd::slice::slice_subrange(rest, 0, end)
}

/// Finds the first space, tab or `=`.
fn find_separator(bytes: &[u8]) -> (r: usize)
    ensures
        r == separator_index(bytes@),
        r <= bytes@.len(),
{
    let len = bytes.len();
    let mut i: usize = 0;
    assert(bytes@.skip(0) =~= bytes@);
    while i < len && !(bytes[i] == 0x20 || bytes[i] == TAB || bytes[i] == EQUALS)
        invariant
            len == bytes@.len(),
            i <= len,
            separator_index(bytes@) == i + separator_index(bytes@.skip(i as int)),
        decreases len - i,
    {
        assert(bytes@.skip(i as int).skip(1) =~= bytes@.skip(i + 1));
        i = i + 1;
    }
    i
}

/// A validated OPTION name and optional value borrowed from the command.
///
/// Debug reveals only lengths. An absent value differs from an empty value.
pub struct OptionRequest<'a> {
    name: &'a [u8],
    value: Option<&'a [u8]>,
}

impl<'a> View for OptionRequest<'a> {
    type V = OptionView;

    closed spec fn view(&self) -> OptionView {
        OptionView {
            name: self.name@,
            value: match self.value {
                Some(v) => Some(v@),
                None => None,
            },
        }
    }
}

impl<'a> OptionRequest<'a> {
    /// Parses a name, optional leading `--`, and a value separated by space,
    /// tab or `=`.
    ///
    /// Outer ASCII whitespace and spaces around the separator are ignored.
    /// Values remain bytes and are not percent-decoded. Rejects CR, LF and
    /// NUL anywhere, then missing names and invalid name tokens.
    pub fn parse(bytes: &'a [u8]) -> (r: Result<Self, ProtocolError>)
        ensures
            match r {
                Ok(request) => parse_option(bytes@) == Ok::<OptionView, ProtocolError>(request@),
                Err(e) => parse_option(bytes@) == Err::<OptionView, ProtocolError>(e),
            },
    {
        match validate_line(bytes) {
            Err(e) => {
                return Err(e);
            },
            Ok(()) => {},
        }
        let text = trim_ascii(bytes);
        let body = if text.len() >= 2 && text[0] == DASH && text[1] == DASH {
            vstd::slice::slice_subrange(text, 2, text.len())
        } else {
            text
        };
        assert(text@.len() >= 2 && text@[0] == DASH && text@[1] == DASH ==> body@ =~= text@.skip(2));
        let end = find_separator(body);
        let name = vstd::slice::slice_subrange(body, 0, end);
        match validate_token(name) {
            Err(e) => {
                return Err(e);
            },
            Ok(()) => {},
        }
        let rest = trim_ascii(vstd::slice::slice_subrange(body, end, body.len()));
        proof {
            assert(body@.skip(end as int) =~= body@.subrange(end as int, body@.len() as int));
        }
        let value = if rest.len() > 0 && rest[0] == EQUALS {
            let after = vstd::slice::slice_subrange(rest, 1, rest.len());
            assert(after@ =~= rest@.skip(1));
            Some(trim_ascii(after))
        } else if rest.len() == 0 {
            None
        } else {
            Some(rest)
        };
        let request = Self { name, value };
        assert(request@.name =~= body@.take(end as int));
        Ok(request)
    }

    /// Borrows the option name without the optional prefix.
    pub fn name(&self) -> (r: &'a [u8])
        ensures
            r@ == self@.name,
    {
        self.name
    }

    /// Borrows the value without percent decoding; `None` means no value was
    /// provided.
    pub fn value(&self) -> (r: Option<&'a [u8]>)
        ensures
            r is None <==> self@.value is None,
            r matches Some(v) ==> self@.value == Some(v@),
    {
        self.value
    }
}

impl core::fmt::Debug for OptionRequest<'_> {
    /// Reports only the lengths of the name and value.
    #[verifier::external_body]
    fn fmt(&self, f: &mut core::fmt::Formatter<'_>) -> core::fmt::Result {
        f.debug_struct("OptionRequest").field("name_len", &self.name.len()).field(
            "value_len",
            &self.value.map(<[u8]>::len),
        ).finish()
    }
}

/// Accepts connections already admitted by the transport; rejects every OPTION.
///
/// This policy does not authenticate peers or fabricate identities.
#[derive(Debug, Default)]
pub struct DefaultHooks {
    _private: (),
}

impl DefaultHooks {
    /// The answer of this policy to every OPTION request: the remote error
    /// `UNKNOWN_OPTION` with the text `unknown option`.
    pub fn option_error(&self) -> (e: HandlerError)
        ensures
            e matches HandlerError::Remote { code, message } && code == UNKNOWN_OPTION
                && message@ == "unknown option"@,
    {
        HandlerError::Remote { code: UNKNOWN_OPTION, message: String::from_str("unknown option") }
    }
}

/// Trailing whitespace after a part that does not end in whitespace lies
/// within the rest.
proof fn lemma_trailing_after(a: Seq<u8>, b: Seq<u8>)
    requires
        a.len() > 0,
        !ascii_whitespace(a.last()),
    ensures
        trailing_whitespace(a + b) == trailing_whitespace(b),
        trailing_whitespace(b) <= b.len(),
    decreases b.len(),
{
    let ab = a + b;
    if b.len() == 0 {
        assert(ab =~= a);
    } else {
        assert(ab.last() == b.last());
        if ascii_whitespace(b.last()) {
            assert(ab.drop_last() =~= a + b.drop_last());
            lemma_trailing_after(a, b.drop_last());
        }
    }
}

/// The first name separator of a name without one, followed by a separator,
/// is right after the name.
proof fn lemma_separator_after(n: Seq<u8>, r: Seq<u8>)
    requires
        forall|i: int| 0 <= i < n.len() ==> !name_separator(#[trigger] n[i]),
        r.len() > 0,
        name_separator(r[0]),
    ensures
        separator_index(n + r) == n.len(),
    decreases n.len(),
{
    let nr = n + r;
    if n.len() == 0 {
        assert(nr =~= r);
    } else {
        assert(nr[0] == n[0]);
        assert(nr.skip(1) =~= n.skip(1) + r);
        assert forall|i: int| 0 <= i < n.skip(1).len() implies !name_separator(
            #[trigger] n.skip(1)[i],
        ) by {
            assert(n.skip(1)[i] == n[i + 1]);
        }
        lemma_separator_after(n.skip(1), r);
    }
}

/// The option name runs to the first space, tab or `=`: a valid name
/// without `=`, followed by `=` and any value, is parsed under exactly that
/// name. Other bytes, such as `-`, never end a name.
pub proof fn law_option_name_ends_at_separator(n: Seq<u8>, v: Seq<u8>)
    requires
        valid_token(n),
        forall|i: int| 0 <= i < n.len() ==> n[i] != EQUALS,
        !(n.len() >= 2 && n[0] == DASH && n[1] == DASH),
        valid_line(v),
    ensures
        parse_option(n + seq![EQUALS] + v) matches Ok(view) && view.name == n,
{
    let a = n + seq![EQUALS];
    let s = a + v;
    assert(n + seq![EQUALS] + v == s);
    assert forall|i: int| 0 <= i < n.len() implies !name_separator(#[trigger] n[i])
        && !ascii_whitespace(n[i]) && line_byte(n[i]) by {
        assert(token_byte(n[i]));
    }
    assert forall|i: int| 0 <= i < s.len() implies #[trigger] line_byte(s[i]) by {
        if i < n.len() {
            assert(s[i] == n[i]);
            assert(!name_separator(n[i]));
        } else if i > n.len() {
            assert(s[i] == v[i - n.len() - 1]);
        } else {
            assert(s[i] == EQUALS);
        }
    }
    assert(valid_line(s));
    assert(s[0] == n[0]);
    assert(!name_separator(n[0]));
    assert(leading_whitespace(s) == 0);
    assert(s.skip(0) =~= s);
    assert(a.last() == EQUALS);
    lemma_trailing_after(a, v);
    let k = trailing_whitespace(v);
    let t = trimmed(s);
    let vt = v.take(v.len() - k);
    assert(t =~= n + (seq![EQUALS] + vt));
    if n.len() >= 2 {
        assert(t[1] == n[1]);
    } else {
        assert(t[1] == EQUALS);
    }
    assert(option_body(s) == t);
    lemma_separator_after(n, seq![EQUALS] + vt);
    assert(t.take(n.len() as int) =~= n);
}

} // verus!
