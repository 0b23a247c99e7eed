//! Permission overwrites and their wire codec.
//!
//! On the wire an overwrite is a JSON object whose `id` field is a
//! string-encoded integer and whose `type` field is a small integer
//! discriminant selecting which identifier domain `id` belongs to:
//! `0` for a role, `1` for a member. The flag sets travel as
//! string-encoded integers so that they may exceed 64 bits.

use vstd::prelude::*;
use crate::decimal::{digits_of, digits_value, is_digit, u128_to_decimal};
use crate::text::{digits_end, lit_at, lit_at_exec, skip_ws, skip_ws_exec, scan_digits_u128};

verus! {

/// A set of permission bitflags, wide enough for flag sets beyond 64 bits.
#[derive(Clone, Copy, Debug, PartialEq, Eq, Structural, Hash)]
pub struct Permissions(pub u128);

/// Identifier of a member; distinct from a role identifier even though both
/// wrap the same integer width.
#[derive(Clone, Copy, Debug, PartialEq, Eq, Structural, Hash)]
pub struct UserId(pub u64);

/// Identifier of a role; distinct from a member identifier.
#[derive(Clone, Copy, Debug, PartialEq, Eq, Structural, Hash)]
pub struct RoleId(pub u64);

/// The subject of an overwrite: the identifier re-typed into the domain the
/// wire discriminant selected. Values are built only by the validated
/// decode path or by a caller that already holds a typed identifier.
#[derive(Clone, Copy, Debug, PartialEq, Eq, Structural, Hash)]
pub enum PermissionOverwriteType {
    Member(UserId),
    Role(RoleId),
}

/// A channel permission overwrite.
#[derive(Clone, Copy, Debug, PartialEq, Eq, Structural, Hash)]
pub struct PermissionOverwrite {
    pub allow: Permissions,
    pub deny: Permissions,
    pub kind: PermissionOverwriteType,
}

/// Why decoding an overwrite failed. Every failure is one of these; no
/// partially-built overwrite is ever handed back. The variant itself is the
/// cause — which rule of the wire shape the text broke; it carries no
/// excerpt, since the offending text is the caller's own input, unchanged.
#[derive(Clone, Copy, Debug, PartialEq, Eq, Structural, Hash)]
pub enum OverwriteDecodeError {
    /// The text is not an object of the required shape.
    Syntax,
    /// A string-encoded integer does not fit the field it belongs to.
    Number,
    /// The `type` discriminant is neither 0 nor 1.
    Discriminant,
}

/// The `"allow"` key, quotes included.
pub open spec fn key_allow() -> Seq<char> {
    seq!['"', 'a', 'l', 'l', 'o', 'w', '"']
}

/// The `"deny"` key, quotes included.
pub open spec fn key_deny() -> Seq<char> {
    seq!['"', 'd', 'e', 'n', 'y', '"']
}

/// The `"id"` key, quotes included.
pub open spec fn key_id() -> Seq<char> {
    seq!['"', 'i', 'd', '"']
}

/// The `"type"` key, quotes included.
pub open spec fn key_type() -> Seq<char> {
    seq!['"', 't', 'y', 'p', 'e', '"']
}

/// A quoted digit run at `i`: `"` digits `"`, with at least one digit.
/// Yields the index after the closing quote and the denoted value.
pub open spec fn parse_quoted_digits(s: Seq<char>, i: int) -> Option<(int, nat)> {
    if 0 <= i && i < s.len() && s[i] == '"' {
        let e = digits_end(s, i + 1);
        if e > i + 1 && e < s.len() && s[e] == '"' {
            Some((e + 1, digits_value(s.subrange(i + 1, e))))
        } else {
            None
        }
    } else {
        None
    }
}

/// A bare digit run at `i`, at least one digit long. Yields the index after
/// the run and the denoted value.
pub open spec fn parse_bare_digits(s: Seq<char>, i: int) -> Option<(int, nat)> {
    if 0 <= i && i <= s.len() {
        let e = digits_end(s, i);
        if e > i {
            Some((e, digits_value(s.subrange(i, e))))
        } else {
            None
        }
    } else {
        None
    }
}

/// A colon after a key, with whitespace allowed around it, then a quoted
/// digit run. Yields the index after the closing quote and the value.
pub open spec fn member_value_quoted(s: Seq<char>, k: int) -> Option<(int, nat)> {
    let c = skip_ws(s, k);
    if c < s.len() && s[c] == ':' {
        parse_quoted_digits(s, skip_ws(s, c + 1))
    } else {
        None
    }
}

/// A colon after a key, with whitespace allowed around it, then a bare
/// digit run. Yields the index after the run and the value.
pub open spec fn member_value_bare(s: Seq<char>, k: int) -> Option<(int, nat)> {
    let c = skip_ws(s, k);
    if c < s.len() && s[c] == ':' {
        parse_bare_digits(s, skip_ws(s, c + 1))
    } else {
        None
    }
}

/// The end of a string body whose opening quote stands just before `i`:
/// the index after the closing quote, scanning over backslash escapes.
pub open spec fn string_end(s: Seq<char>, i: int) -> Option<int>
    decreases s.len() - i,
{
    if 0 <= i && i < s.len() {
        if s[i] == '"' {
            Some(i + 1)
        } else if s[i] == '\\' {
            if i + 1 < s.len() {
                string_end(s, i + 2)
            } else {
                None
            }
        } else {
            string_end(s, i + 1)
        }
    } else {
        None
    }
}

/// A character that may stand in an unquoted scalar token: a number or one
/// of the literal words.
pub open spec fn is_token_char(c: char) -> bool {
    is_digit(c) || c == '-' || c == '+' || c == '.' || ('a' <= c && c <= 'z') || c == 'E'
}

/// Index of the first character at or after `i` that cannot stand in an
/// unquoted scalar token.
pub open spec fn token_end(s: Seq<char>, i: int) -> int
    decreases s.len() - i,
{
    if 0 <= i && i < s.len() && is_token_char(s[i]) {
        token_end(s, i + 1)
    } else {
        i
    }
}

/// The index after the close of a composite whose opening bracket stands
/// just before `i`: a lexical scan that balances braces and brackets and
/// passes over strings, escapes included.
pub open spec fn skip_nested(s: Seq<char>, i: int, depth: nat, in_str: bool) -> Option<int>
    decreases s.len() - i,
{
    if 0 <= i && i < s.len() && depth > 0 {
        let c = s[i];
        if in_str {
            if c == '\\' {
                if i + 1 < s.len() {
                    skip_nested(s, i + 2, depth, true)
                } else {
                    None
                }
            } else if c == '"' {
                skip_nested(s, i + 1, depth, false)
            } else {
                skip_nested(s, i + 1, depth, true)
            }
        } else if c == '"' {
            skip_nested(s, i + 1, depth, true)
        } else if c == '{' || c == '[' {
            skip_nested(s, i + 1, depth + 1, false)
        } else if c == '}' || c == ']' {
            if depth == 1 {
                Some(i + 1)
            } else {
                skip_nested(s, i + 1, (depth - 1) as nat, false)
            }
        } else {
            skip_nested(s, i + 1, depth, false)
        }
    } else {
        None
    }
}

/// The extent of an unknown member's value, judged by shape alone: a string
/// with its escapes, an object or array with balanced nesting, or a
/// non-empty run of scalar token characters. The value is passed over, not
/// re-validated as JSON.
pub open spec fn skip_unknown_value(s: Seq<char>, v: int) -> Option<int> {
    if 0 <= v && v < s.len() {
        if s[v] == '"' {
            string_end(s, v + 1)
        } else if s[v] == '{' || s[v] == '[' {
            skip_nested(s, v + 1, 1, false)
        } else {
            let e = token_end(s, v);
            if e > v {
                Some(e)
            } else {
                None
            }
        }
    } else {
        None
    }
}

/// The overwrite assembled from the four raw field values, each already
/// checked against its range and the discriminant against its two known
/// values.
pub open spec fn build_overwrite(a: nat, d: nat, idv: nat, t: nat) -> PermissionOverwrite {
    PermissionOverwrite {
        allow: Permissions(a as u128),
        deny: Permissions(d as u128),
        kind: if t == 0 {
            PermissionOverwriteType::Role(RoleId(idv as u64))
        } else {
            PermissionOverwriteType::Member(UserId(idv as u64))
        },
    }
}

/// One member of the object. A known key — one of the four — has its value
/// parsed and checked at its own parse point; the keys may come in any
/// order, each at most once, and a repeated known key is a syntax error. A
/// member under any other key is skipped, value and all, as a generic JSON
/// reader would ignore it. `remaining` bounds how many more members may
/// follow this one; the caller passes the text's length, which no member
/// count can reach, since every member is at least one character wide.
pub open spec fn parse_members(
    s: Seq<char>,
    i: int,
    remaining: nat,
    allow: Option<nat>,
    deny: Option<nat>,
    idv: Option<nat>,
    t: Option<nat>,
) -> Result<PermissionOverwrite, OverwriteDecodeError>
    decreases remaining, 1int,
{
    let j = skip_ws(s, i);
    if lit_at(s, j, key_allow()) {
        if allow is Some {
            Err(OverwriteDecodeError::Syntax)
        } else {
            match member_value_quoted(s, j + 7) {
                None => Err(OverwriteDecodeError::Syntax),
                Some((p, v)) => if v > u128::MAX {
                    Err(OverwriteDecodeError::Number)
                } else {
                    after_member(s, p, remaining, Some(v), deny, idv, t)
                },
            }
        }
    } else if lit_at(s, j, key_deny()) {
        if deny is Some {
            Err(OverwriteDecodeError::Syntax)
        } else {
            match member_value_quoted(s, j + 6) {
                None => Err(OverwriteDecodeError::Syntax),
                Some((p, v)) => if v > u128::MAX {
                    Err(OverwriteDecodeError::Number)
                } else {
                    after_member(s, p, remaining, allow, Some(v), idv, t)
                },
            }
        }
    } else if lit_at(s, j, key_id()) {
        if idv is Some {
            Err(OverwriteDecodeError::Syntax)
        } else {
            match member_value_quoted(s, j + 4) {
                None => Err(OverwriteDecodeError::Syntax),
                Some((p, v)) => if v > u64::MAX {
                    Err(OverwriteDecodeError::Number)
                } else {
                    after_member(s, p, remaining, allow, deny, Some(v), t)
                },
            }
        }
    } else if lit_at(s, j, key_type()) {
        if t is Some {
            Err(OverwriteDecodeError::Syntax)
        } else {
            match member_value_bare(s, j + 6) {
                None => Err(OverwriteDecodeError::Syntax),
                Some((p, v)) => if v != 0 && v != 1 {
                    Err(OverwriteDecodeError::Discriminant)
                } else {
                    after_member(s, p, remaining, allow, deny, idv, Some(v))
                },
            }
        }
    } else if j < s.len() && s[j] == '"' {
        match string_end(s, j + 1) {
            None => Err(OverwriteDecodeError::Syntax),
            Some(k) => {
                let c = skip_ws(s, k);
                if c < s.len() && s[c] == ':' {
                    match skip_unknown_value(s, skip_ws(s, c + 1)) {
                        None => Err(OverwriteDecodeError::Syntax),
                        Some(p) => after_member(s, p, remaining, allow, deny, idv, t),
                    }
                } else {
                    Err(OverwriteDecodeError::Syntax)
                }
            },
        }
    } else {
        Err(OverwriteDecodeError::Syntax)
    }
}

/// After a member's value: either a comma and a further member, or the
/// closing brace, which must be followed only by whitespace and close an
/// object that held all four keys.
pub open spec fn after_member(
    s: Seq<char>,
    p: int,
    remaining: nat,
    allow: Option<nat>,
    deny: Option<nat>,
    idv: Option<nat>,
    t: Option<nat>,
) -> Result<PermissionOverwrite, OverwriteDecodeError>
    decreases remaining, 0int,
{
    let c = skip_ws(s, p);
    if c < s.len() && s[c] == ',' {
        if remaining == 0 {
            Err(OverwriteDecodeError::Syntax)
        } else {
            parse_members(s, c + 1, (remaining - 1) as nat, allow, deny, idv, t)
        }
    } else if c < s.len() && s[c] == '}' && skip_ws(s, c + 1) == s.len() {
        match (allow, deny, idv, t) {
            (Some(a), Some(d), Some(iv), Some(tv)) => Ok(build_overwrite(a, d, iv, tv)),
            _ => Err(OverwriteDecodeError::Syntax),
        }
    } else {
        Err(OverwriteDecodeError::Syntax)
    }
}

/// The whole wire grammar of an overwrite, as one deterministic parse.
///
/// The object must hold each of the keys `allow`, `deny`, `id` and `type`
/// exactly once, in any order, with JSON whitespace allowed between tokens;
/// members under other keys are skipped. `allow` and `deny` must fit 128
/// bits, `id` must fit 64 bits, and the discriminant must be 0 (role) or 1
/// (member); anything else is the matching error. Two consequences of the
/// character-level grammar, both deliberate: the four string-encoded
/// integers admit no escape sequences, since decimal digits never need
/// them; and an unknown member's value is passed over by shape, not
/// re-validated as JSON.
pub open spec fn parse_wire(s: Seq<char>) -> Result<PermissionOverwrite, OverwriteDecodeError> {
    let i0 = skip_ws(s, 0);
    if i0 < s.len() && s[i0] == '{' {
        parse_members(s, i0 + 1, s.len() as nat, None, None, None, None)
    } else {
        Err(OverwriteDecodeError::Syntax)
    }
}

/// The wire discriminant of an overwrite subject.
pub open spec fn kind_discriminant(k: PermissionOverwriteType) -> nat {
    match k {
        PermissionOverwriteType::Member(_) => 1,
        PermissionOverwriteType::Role(_) => 0,
    }
}

/// The raw identifier inside an overwrite subject.
pub open spec fn kind_id(k: PermissionOverwriteType) -> nat {
    match k {
        PermissionOverwriteType::Member(u) => u.0 as nat,
        PermissionOverwriteType::Role(r) => r.0 as nat,
    }
}

/// A digit run wrapped in double quotes.
pub open spec fn quoted(s: Seq<char>) -> Seq<char> {
    seq!['"'] + s + seq!['"']
}

/// The canonical compact wire text for the four raw field values, in the
/// fixed key order `allow`, `deny`, `id`, `type`.
#[verifier::opaque]
pub open spec fn wire_with(a: nat, d: nat, idv: nat, t: nat) -> Seq<char> {
    seq!['{'] + key_allow() + seq![':'] + quoted(digits_of(a)) + seq![','] + key_deny() + seq![':']
        + quoted(digits_of(d)) + seq![','] + key_id() + seq![':'] + quoted(digits_of(idv))
        + seq![','] + key_type() + seq![':'] + digits_of(t) + seq!['}']
}

/// The canonical compact wire text of an overwrite.
pub open spec fn wire_of(x: PermissionOverwrite) -> Seq<char> {
    wire_with(x.allow.0 as nat, x.deny.0 as nat, kind_id(x.kind), kind_discriminant(x.kind))
}

/// The pretty-printed wire text for the four raw field values: the same
/// object with a two-space indent, one field per line.
#[verifier::opaque]
pub open spec fn pretty_wire_with(a: nat, d: nat, idv: nat, t: nat) -> Seq<char> {
    seq!['{', '\n', ' ', ' ', '"', 'a', 'l', 'l', 'o', 'w', '"', ':', ' ', '"'] + digits_of(a)
        + seq!['"', ',', '\n', ' ', ' ', '"', 'd', 'e', 'n', 'y', '"', ':', ' ', '"'] + digits_of(
        d,
    ) + seq!['"', ',', '\n', ' ', ' ', '"', 'i', 'd', '"', ':', ' ', '"'] + digits_of(idv) + seq![
        '"',
        ',',
        '\n',
        ' ',
        ' ',
        '"',
        't',
        'y',
        'p',
        'e',
        '"',
        ':',
        ' ',
    ] + digits_of(t) + seq!['\n', '}']
}

/// The pretty-printed wire text of an overwrite.
pub open spec fn pretty_wire_of(x: PermissionOverwrite) -> Seq<char> {
    pretty_wire_with(x.allow.0 as nat, x.deny.0 as nat, kind_id(x.kind), kind_discriminant(x.kind))
}

impl PermissionOverwrite {
    /// Encodes the overwrite into its canonical compact wire text.
    pub fn encode(&self) -> (s: String)
        ensures
            s@ == wire_of(*self),
    {
        let mut out = String::from_str("{\"allow\":\"");
        out.append(u128_to_decimal(self.allow.0).as_str());
        out.append("\",\"deny\":\"");
        out.append(u128_to_decimal(self.deny.0).as_str());
        out.append("\",\"id\":\"");
        let id: u64 = match &self.kind {
            PermissionOverwriteType::Member(u) => u.0,
            PermissionOverwriteType::Role(r) => r.0,
        };
        out.append(u128_to_decimal(id as u128).as_str());
        out.append("\",\"type\":");
        match &self.kind {
            PermissionOverwriteType::Member(_) => out.append("1"),
            PermissionOverwriteType::Role(_) => out.append("0"),
        }
        out.append("}");
        proof {
            reveal_strlit("{\"allow\":\"");
            reveal_strlit("\",\"deny\":\"");
            reveal_strlit("\",\"id\":\"");
            reveal_strlit("\",\"type\":");
            reveal_strlit("0");
            reveal_strlit("1");
            reveal_strlit("}");
            reveal(wire_with);
            assert(out@ =~= wire_of(*self));
        }
        out
    }

    /// Encodes the overwrite into its pretty-printed wire text: the same
    /// object and key order as `encode`, indented by two spaces.
    pub fn encode_pretty(&self) -> (s: String)
        ensures
            s@ == pretty_wire_of(*self),
    {
        let mut out = String::from_str("{\n  \"allow\": \"");
        out.append(u128_to_decimal(self.allow.0).as_str());
        out.append("\",\n  \"deny\": \"");
        out.append(u128_to_decimal(self.deny.0).as_str());
        out.append("\",\n  \"id\": \"");
        let id: u64 = match &self.kind {
            PermissionOverwriteType::Member(u) => u.0,
            PermissionOverwriteType::Role(r) => r.0,
        };
        out.append(u128_to_decimal(id as u128).as_str());
        out.append("\",\n  \"type\": ");
        match &self.kind {
            PermissionOverwriteType::Member(_) => out.append("1"),
            PermissionOverwriteType::Role(_) => out.append("0"),
        }
        out.append("\n}");
        proof {
            reveal_strlit("{\n  \"allow\": \"");
            reveal_strlit("\",\n  \"deny\": \"");
            reveal_strlit("\",\n  \"id\": \"");
            reveal_strlit("\",\n  \"type\": ");
            reveal_strlit("0");
            reveal_strlit("1");
            reveal_strlit("\n}");
            reveal(pretty_wire_with);
            assert(out@ =~= pretty_wire_of(*self));
        }
        out
    }

    /// Decodes the wire text of an overwrite. The result is exactly what the
    /// wire grammar assigns to the text: the typed overwrite on a valid
    /// object, and otherwise the error naming what was wrong.
    pub fn decode(s: &str) -> (r: Result<PermissionOverwrite, OverwriteDecodeError>)
        ensures
            r == parse_wire(s@),
    {
        let n = s.unicode_len();
        let i0 = skip_ws_exec(s, n, 0);
        if !(i0 < n && s.get_char(i0) == '{') {
            return Err(OverwriteDecodeError::Syntax);
        }
        let mut i: usize = i0 + 1;
        let mut rem: usize = n;
        let mut allow: Option<u128> = None;
        let mut deny: Option<u128> = None;
        let mut idv: Option<u64> = None;
        let mut t: Option<u8> = None;
        loop
            invariant
                n == s@.len(),
                i <= n,
                parse_wire(s@) == parse_members(
                    s@,
                    i as int,
                    rem as nat,
                    opt_u128_view(allow),
                    opt_u128_view(deny),
                    opt_u64_view(idv),
                    opt_u8_view(t),
                ),
            decreases rem,
        {
            match member_exec(s, n, i, allow, deny, idv, t) {
                MemberOut::Fail(e) => {
                    return Err(e);
                },
                MemberOut::Next(p, a2, d2, i2, t2) => {
                    allow = a2;
                    deny = d2;
                    idv = i2;
                    t = t2;
                    let c = skip_ws_exec(s, n, p);
                    if c < n && s.get_char(c) == ',' {
                        if rem == 0 {
                            return Err(OverwriteDecodeError::Syntax);
                        }
                        rem = rem - 1;
                        i = c + 1;
                    } else if c < n && s.get_char(c) == '}' {
                        if skip_ws_exec(s, n, c + 1) != n {
                            return Err(OverwriteDecodeError::Syntax);
                        }
                        match (allow, deny, idv, t) {
                            (Some(a), Some(d), Some(iv), Some(tv)) => {
                                return Ok(
                                    PermissionOverwrite {
                                        allow: Permissions(a),
                                        deny: Permissions(d),
                                        kind: if tv == 0 {
                                            PermissionOverwriteType::Role(RoleId(iv))
                                        } else {
                                            PermissionOverwriteType::Member(UserId(iv))
                                        },
                                    },
                                );
                            },
                            _ => {
                                return Err(OverwriteDecodeError::Syntax);
                            },
                        }
                    } else {
                        return Err(OverwriteDecodeError::Syntax);
                    }
                },
            }
        }
    }
}

/// What one member leaves behind: a decode error, or the index after its
/// value together with the fields gathered so far.
enum MemberOut {
    Fail(OverwriteDecodeError),
    Next(usize, Option<u128>, Option<u128>, Option<u64>, Option<u8>),
}

/// The view of a stored 128-bit field value.
spec fn opt_u128_view(o: Option<u128>) -> Option<nat> {
    match o {
        Some(v) => Some(v as nat),
        None => None,
    }
}

/// The view of a stored 64-bit field value.
spec fn opt_u64_view(o: Option<u64>) -> Option<nat> {
    match o {
        Some(v) => Some(v as nat),
        None => None,
    }
}

/// The view of a stored discriminant value.
spec fn opt_u8_view(o: Option<u8>) -> Option<nat> {
    match o {
        Some(v) => Some(v as nat),
        None => None,
    }
}

/// Parses one member at `i`, reporting where its value ends and the fields
/// gathered so far, or the error the grammar assigns. The outcome holds for
/// every member budget, which the member itself never consults.
fn member_exec(
    s: &str,
    n: usize,
    i: usize,
    allow: Option<u128>,
    deny: Option<u128>,
    idv: Option<u64>,
    t: Option<u8>,
) -> (r: MemberOut)
    requires
        n == s@.len(),
        i <= n,
    ensures
        match r {
            MemberOut::Fail(e) => forall|rem: nat|
                #[trigger] parse_members(
                    s@,
                    i as int,
                    rem,
                    opt_u128_view(allow),
                    opt_u128_view(deny),
                    opt_u64_view(idv),
                    opt_u8_view(t),
                ) == Err::<PermissionOverwrite, OverwriteDecodeError>(e),
            MemberOut::Next(p, a2, d2, i2, t2) => p <= n && forall|rem: nat|
                #[trigger] parse_members(
                    s@,
                    i as int,
                    rem,
                    opt_u128_view(allow),
                    opt_u128_view(deny),
                    opt_u64_view(idv),
                    opt_u8_view(t),
                ) == after_member(
                    s@,
                    p as int,
                    rem,
                    opt_u128_view(a2),
                    opt_u128_view(d2),
                    opt_u64_view(i2),
                    opt_u8_view(t2),
                ),
        },
{
    proof {
        reveal_strlit("\"allow\"");
        reveal_strlit("\"deny\"");
        reveal_strlit("\"id\"");
        reveal_strlit("\"type\"");
        assert("\"allow\""@ =~= key_allow());
        assert("\"deny\""@ =~= key_deny());
        assert("\"id\""@ =~= key_id());
        assert("\"type\""@ =~= key_type());
    }
    let j = skip_ws_exec(s, n, i);
    if lit_at_exec(s, n, j, "\"allow\"") {
        if allow.is_some() {
            return MemberOut::Fail(OverwriteDecodeError::Syntax);
        }
        match member_value_quoted_exec(s, n, j + 7) {
            None => MemberOut::Fail(OverwriteDecodeError::Syntax),
            Some((p, ov)) => match ov {
                None => MemberOut::Fail(OverwriteDecodeError::Number),
                Some(v) => MemberOut::Next(p, Some(v), deny, idv, t),
            },
        }
    } else if lit_at_exec(s, n, j, "\"deny\"") {
        if deny.is_some() {
            return MemberOut::Fail(OverwriteDecodeError::Syntax);
        }
        match member_value_quoted_exec(s, n, j + 6) {
            None => MemberOut::Fail(OverwriteDecodeError::Syntax),
            Some((p, ov)) => match ov {
                None => MemberOut::Fail(OverwriteDecodeError::Number),
                Some(v) => MemberOut::Next(p, allow, Some(v), idv, t),
            },
        }
    } else if lit_at_exec(s, n, j, "\"id\"") {
        if idv.is_some() {
            return MemberOut::Fail(OverwriteDecodeError::Syntax);
        }
        match member_value_quoted_exec(s, n, j + 4) {
            None => MemberOut::Fail(OverwriteDecodeError::Syntax),
            Some((p, ov)) => match ov {
                None => MemberOut::Fail(OverwriteDecodeError::Number),
                Some(v) => if v > u64::MAX as u128 {
                    MemberOut::Fail(OverwriteDecodeError::Number)
                } else {
                    MemberOut::Next(p, allow, deny, Some(v as u64), t)
                },
            },
        }
    } else if lit_at_exec(s, n, j, "\"type\"") {
        if t.is_some() {
            return MemberOut::Fail(OverwriteDecodeError::Syntax);
        }
        match member_value_bare_exec(s, n, j + 6) {
            None => MemberOut::Fail(OverwriteDecodeError::Syntax),
            Some((p, ov)) => match ov {
                None => MemberOut::Fail(OverwriteDecodeError::Discriminant),
                Some(v) => if v != 0 && v != 1 {
                    MemberOut::Fail(OverwriteDecodeError::Discriminant)
                } else {
                    MemberOut::Next(p, allow, deny, idv, Some(v as u8))
                },
            },
        }
    } else if j < n && s.get_char(j) == '"' {
        match string_end_exec(s, n, j + 1) {
            None => MemberOut::Fail(OverwriteDecodeError::Syntax),
            Some(k) => {
                let c = skip_ws_exec(s, n, k);
                if !(c < n && s.get_char(c) == ':') {
                    return MemberOut::Fail(OverwriteDecodeError::Syntax);
                }
                let v = skip_ws_exec(s, n, c + 1);
                match skip_unknown_value_exec(s, n, v) {
                    None => MemberOut::Fail(OverwriteDecodeError::Syntax),
                    Some(p) => MemberOut::Next(p, allow, deny, idv, t),
                }
            },
        }
    } else {
        MemberOut::Fail(OverwriteDecodeError::Syntax)
    }
}

/// Scans to the end of a string body whose opening quote stands just before
/// `i`, passing over backslash escapes.
fn string_end_exec(s: &str, n: usize, i: usize) -> (r: Option<usize>)
    requires
        n == s@.len(),
        i <= n,
    ensures
        match r {
            Some(e) => string_end(s@, i as int) == Some(e as int) && e <= n,
            None => string_end(s@, i as int) is None,
        },
{
    let mut j: usize = i;
    loop
        invariant
            n == s@.len(),
            i <= j <= n,
            string_end(s@, i as int) == string_end(s@, j as int),
        decreases n - j,
    {
        if j >= n {
            return None;
        }
        let c = s.get_char(j);
        if c == '"' {
            return Some(j + 1);
        }
        if c == '\\' {
            if j + 1 >= n {
                return None;
            }
            j += 2;
        } else {
            j += 1;
        }
    }
}

/// Scans to the end of a run of scalar token characters.
fn token_end_exec(s: &str, n: usize, i: usize) -> (e: usize)
    requires
        n == s@.len(),
        i <= n,
    ensures
        e as int == token_end(s@, i as int),
        i <= e <= n,
{
    let mut j: usize = i;
    loop
        invariant
            n == s@.len(),
            i <= j <= n,
            token_end(s@, i as int) == token_end(s@, j as int),
        ensures
            i <= j <= n,
            j as int == token_end(s@, i as int),
        decreases n - j,
    {
        if j >= n {
            break ;
        }
        let c = s.get_char(j);
        if is_digit_or_token_exec(c) {
            j += 1;
        } else {
            break ;
        }
    }
    j
}

/// Tests whether a character may stand in an unquoted scalar token.
fn is_digit_or_token_exec(c: char) -> (b: bool)
    ensures
        b == is_token_char(c),
{
    ('0' <= c && c <= '9') || c == '-' || c == '+' || c == '.' || ('a' <= c && c <= 'z') || c == 'E'
}

/// Scans to the matching close of a composite whose opening bracket stands
/// just before `i`: a lexical balance of braces and brackets that passes
/// over strings, escapes included.
fn skip_nested_exec(s: &str, n: usize, i: usize) -> (r: Option<usize>)
    requires
        n == s@.len(),
        1 <= i <= n,
    ensures
        match r {
            Some(e) => skip_nested(s@, i as int, 1, false) == Some(e as int) && e <= n,
            None => skip_nested(s@, i as int, 1, false) is None,
        },
{
    let mut j: usize = i;
    let mut depth: usize = 1;
    let mut in_str: bool = false;
    loop
        invariant
            n == s@.len(),
            1 <= i <= j <= n,
            1 <= depth,
            depth as int <= j - i + 1,
            skip_nested(s@, i as int, 1, false) == skip_nested(s@, j as int, depth as nat, in_str),
        decreases n - j,
    {
        if j >= n {
            return None;
        }
        let c = s.get_char(j);
        if in_str {
            if c == '\\' {
                if j + 1 >= n {
                    return None;
                }
                j += 2;
            } else {
                if c == '"' {
                    in_str = false;
                }
                j += 1;
            }
        } else if c == '"' {
            in_str = true;
            j += 1;
        } else if c == '{' || c == '[' {
            depth += 1;
            j += 1;
        } else if c == '}' || c == ']' {
            if depth == 1 {
                return Some(j + 1);
            }
            depth -= 1;
            j += 1;
        } else {
            j += 1;
        }
    }
}

/// Reads the extent of an unknown member's value, judged by shape alone.
fn skip_unknown_value_exec(s: &str, n: usize, v: usize) -> (r: Option<usize>)
    requires
        n == s@.len(),
        v <= n,
    ensures
        match r {
            Some(p) => skip_unknown_value(s@, v as int) == Some(p as int) && p <= n,
            None => skip_unknown_value(s@, v as int) is None,
        },
{
    if !(v < n) {
        return None;
    }
    let c = s.get_char(v);
    if c == '"' {
        string_end_exec(s, n, v + 1)
    } else if c == '{' || c == '[' {
        skip_nested_exec(s, n, v + 1)
    } else {
        let e = token_end_exec(s, n, v);
        if e > v {
            Some(e)
        } else {
            None
        }
    }
}

/// Reads a colon and a quoted digit run, reporting the index after the
/// closing quote and the value, or the overflow past 128 bits.
fn member_value_quoted_exec(s: &str, n: usize, k: usize) -> (r: Option<(usize, Option<u128>)>)
    requires
        n == s@.len(),
        k <= n,
    ensures
        match r {
            Some((p, ov)) => {
                &&& p <= n
                &&& match member_value_quoted(s@, k as int) {
                    Some((sp, sv)) => {
                        &&& p as int == sp
                        &&& match ov {
                            Some(v) => v as nat == sv && sv <= u128::MAX,
                            None => sv > u128::MAX,
                        }
                    },
                    None => false,
                }
            },
            None => member_value_quoted(s@, k as int) is None,
        },
{
    let c = skip_ws_exec(s, n, k);
    if !(c < n && s.get_char(c) == ':') {
        return None;
    }
    let v = skip_ws_exec(s, n, c + 1);
    quoted_digits_exec(s, n, v)
}

/// Reads a colon and a bare digit run, reporting the index after the run
/// and the value, or the overflow past 128 bits.
fn member_value_bare_exec(s: &str, n: usize, k: usize) -> (r: Option<(usize, Option<u128>)>)
    requires
        n == s@.len(),
        k <= n,
    ensures
        match r {
            Some((p, ov)) => {
                &&& p <= n
                &&& match member_value_bare(s@, k as int) {
                    Some((sp, sv)) => {
                        &&& p as int == sp
                        &&& match ov {
                            Some(v) => v as nat == sv && sv <= u128::MAX,
                            None => sv > u128::MAX,
                        }
                    },
                    None => false,
                }
            },
            None => member_value_bare(s@, k as int) is None,
        },
{
    let c = skip_ws_exec(s, n, k);
    if !(c < n && s.get_char(c) == ':') {
        return None;
    }
    let v = skip_ws_exec(s, n, c + 1);
    let (e, val) = scan_digits_u128(s, n, v);
    if e == v {
        return None;
    }
    Some((e, val))
}

/// Reads a quoted digit run, reporting the index after the closing quote and
/// the value, or the overflow past 128 bits.
fn quoted_digits_exec(s: &str, n: usize, i: usize) -> (r: Option<(usize, Option<u128>)>)
    requires
        n == s@.len(),
        i <= n,
    ensures
        match r {
            Some((p, ov)) => {
                &&& p <= n
                &&& match parse_quoted_digits(s@, i as int) {
                    Some((sp, sv)) => {
                        &&& p as int == sp
                        &&& match ov {
                            Some(v) => v as nat == sv && sv <= u128::MAX,
                            None => sv > u128::MAX,
                        }
                    },
                    None => false,
                }
            },
            None => parse_quoted_digits(s@, i as int) is None,
        },
{
    if !(i < n && s.get_char(i) == '"') {
        return None;
    }
    let (e, val) = scan_digits_u128(s, n, i + 1);
    if !(e > i + 1 && e < n && s.get_char(e) == '"') {
        return None;
    }
    Some((e + 1, val))
}

} // verus!
