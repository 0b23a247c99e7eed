//! Laws of the overwrite wire codec: the round trip from a value through
//! its wire text and back, byte stability of re-encoding, and exhaustiveness
//! of the discriminant.

use vstd::prelude::*;
use crate::decimal::{all_digits, digits_of, digits_value, is_digit, lemma_digits_of_digits,
    lemma_digits_value_of};
use crate::text::{is_ws, lemma_digits_end_run, lemma_skip_ws_run, lit_at, skip_ws};
use crate::permission_overwrite::{after_member, build_overwrite, key_allow, key_deny, key_id,
    key_type, kind_discriminant, kind_id, member_value_bare, member_value_quoted, parse_bare_digits,
    parse_members, parse_quoted_digits, parse_wire, pretty_wire_of, pretty_wire_with, wire_of,
    wire_with, OverwriteDecodeError, PermissionOverwrite, PermissionOverwriteType, Permissions,
    RoleId, UserId};

verus! {

/// A quoted digit run standing plainly in the text parses to its value.
proof fn lemma_parse_quoted_exact(s: Seq<char>, i: int, d: Seq<char>)
    requires
        0 <= i,
        i + d.len() + 2 <= s.len(),
        s[i] == '"',
        all_digits(d),
        d.len() >= 1,
        s.subrange(i + 1, i + 1 + d.len()) == d,
        s[i + 1 + d.len()] == '"',
    ensures
        parse_quoted_digits(s, i) == Some((i + d.len() + 2, digits_value(d))),
{
    assert(forall|k: int| i + 1 <= k < i + 1 + d.len() ==> is_digit(#[trigger] s[k])) by {
        assert(forall|k: int| i + 1 <= k < i + 1 + d.len() ==> #[trigger] s[k] == s.subrange(
            i + 1,
            i + 1 + d.len(),
        )[k - (i + 1)]);
    }
    assert(!is_digit('"'));
    lemma_digits_end_run(s, i + 1, i + 1 + d.len());
    assert(s.subrange(i + 1, i + 1 + d.len()) == d);
}

/// A bare digit run standing plainly in the text parses to its value.
proof fn lemma_parse_bare_exact(s: Seq<char>, i: int, d: Seq<char>)
    requires
        0 <= i,
        i + d.len() + 1 <= s.len(),
        all_digits(d),
        d.len() >= 1,
        s.subrange(i, i + d.len()) == d,
        !is_digit(s[i + d.len()]),
    ensures
        parse_bare_digits(s, i) == Some((i + d.len(), digits_value(d))),
{
    assert(forall|k: int| i <= k < i + d.len() ==> is_digit(#[trigger] s[k])) by {
        assert(forall|k: int| i <= k < i + d.len() ==> #[trigger] s[k] == s.subrange(
            i,
            i + d.len(),
        )[k - i]);
    }
    lemma_digits_end_run(s, i, i + d.len());
    assert(s.subrange(i, i + d.len()) == d);
}

/// The member step for the `allow` key: where it stands at the member start
/// and its value parses, the parse proceeds with the slot filled, or stops
/// at the first value that does not fit 128 bits.
proof fn lemma_members_allow(
    s: Seq<char>,
    i: int,
    rem: nat,
    deny: Option<nat>,
    idv: Option<nat>,
    t: Option<nat>,
    p: int,
    v: nat,
)
    requires
        lit_at(s, skip_ws(s, i), key_allow()),
        member_value_quoted(s, skip_ws(s, i) + 7) == Some((p, v)),
    ensures
        parse_members(s, i, rem, None, deny, idv, t) == (if v > u128::MAX {
            Err::<PermissionOverwrite, OverwriteDecodeError>(OverwriteDecodeError::Number)
        } else {
            after_member(s, p, rem, Some(v), deny, idv, t)
        }),
{
}

/// The member step for the `deny` key.
proof fn lemma_members_deny(
    s: Seq<char>,
    i: int,
    rem: nat,
    allow: Option<nat>,
    idv: Option<nat>,
    t: Option<nat>,
    p: int,
    v: nat,
)
    requires
        !lit_at(s, skip_ws(s, i), key_allow()),
        lit_at(s, skip_ws(s, i), key_deny()),
        member_value_quoted(s, skip_ws(s, i) + 6) == Some((p, v)),
    ensures
        parse_members(s, i, rem, allow, None, idv, t) == (if v > u128::MAX {
            Err::<PermissionOverwrite, OverwriteDecodeError>(OverwriteDecodeError::Number)
        } else {
            after_member(s, p, rem, allow, Some(v), idv, t)
        }),
{
}

/// The member step for the `id` key; its value must fit 64 bits.
proof fn lemma_members_id(
    s: Seq<char>,
    i: int,
    rem: nat,
    allow: Option<nat>,
    deny: Option<nat>,
    t: Option<nat>,
    p: int,
    v: nat,
)
    requires
        !lit_at(s, skip_ws(s, i), key_allow()),
        !lit_at(s, skip_ws(s, i), key_deny()),
        lit_at(s, skip_ws(s, i), key_id()),
        member_value_quoted(s, skip_ws(s, i) + 4) == Some((p, v)),
    ensures
        parse_members(s, i, rem, allow, deny, None, t) == (if v > u64::MAX {
            Err::<PermissionOverwrite, OverwriteDecodeError>(OverwriteDecodeError::Number)
        } else {
            after_member(s, p, rem, allow, deny, Some(v), t)
        }),
{
}

/// The member step for the `type` key; its value must be 0 or 1.
proof fn lemma_members_type(
    s: Seq<char>,
    i: int,
    rem: nat,
    allow: Option<nat>,
    deny: Option<nat>,
    idv: Option<nat>,
    p: int,
    v: nat,
)
    requires
        !lit_at(s, skip_ws(s, i), key_allow()),
        !lit_at(s, skip_ws(s, i), key_deny()),
        !lit_at(s, skip_ws(s, i), key_id()),
        lit_at(s, skip_ws(s, i), key_type()),
        member_value_bare(s, skip_ws(s, i) + 6) == Some((p, v)),
    ensures
        parse_members(s, i, rem, allow, deny, idv, None) == (if v != 0 && v != 1 {
            Err::<PermissionOverwrite, OverwriteDecodeError>(OverwriteDecodeError::Discriminant)
        } else {
            after_member(s, p, rem, allow, deny, idv, Some(v))
        }),
{
}

/// A comma after a member continues with the next member.
proof fn lemma_after_comma(
    s: Seq<char>,
    p: int,
    rem: nat,
    allow: Option<nat>,
    deny: Option<nat>,
    idv: Option<nat>,
    t: Option<nat>,
)
    requires
        rem > 0,
        skip_ws(s, p) < s.len(),
        s[skip_ws(s, p)] == ',',
    ensures
        after_member(s, p, rem, allow, deny, idv, t) == parse_members(
            s,
            skip_ws(s, p) + 1,
            (rem - 1) as nat,
            allow,
            deny,
            idv,
            t,
        ),
{
}

/// A closing brace followed only by whitespace completes an object that
/// holds all four fields.
proof fn lemma_after_close(s: Seq<char>, p: int, rem: nat, a: nat, d: nat, iv: nat, tv: nat)
    requires
        skip_ws(s, p) < s.len(),
        s[skip_ws(s, p)] == '}',
        skip_ws(s, skip_ws(s, p) + 1) == s.len(),
    ensures
        after_member(s, p, rem, Some(a), Some(d), Some(iv), Some(tv)) == Ok::<
            PermissionOverwrite,
            OverwriteDecodeError,
        >(build_overwrite(a, d, iv, tv)),
{
}

/// Opening and `allow` member of a canonical wire text.
#[verifier::rlimit(100)]
proof fn lemma_wire_allow(a: nat, d: nat, idv: nat, t: nat)
    ensures
        ({
            let w = wire_with(a, d, idv, t);
            let la = digits_of(a).len() as int;
            &&& w.len() == 38 + la + digits_of(d).len() + digits_of(idv).len() + digits_of(t).len()
            &&& skip_ws(w, 0) == 0
            &&& 0 < w.len() && w[0] == '{'
            &&& skip_ws(w, 1) == 1
            &&& lit_at(w, 1, key_allow())
            &&& member_value_quoted(w, 8) == Some((11 + la, a))
            &&& w[11 + la] == ','
            &&& skip_ws(w, 11 + la) == 11 + la
        }),
{
    reveal(crate::permission_overwrite::wire_with);
    let w = wire_with(a, d, idv, t);
    let da = digits_of(a);
    lemma_digits_of_digits(a);
    lemma_digits_value_of(a);
    let la = da.len() as int;
    assert(w.len() == 38 + la + digits_of(d).len() + digits_of(idv).len() + digits_of(t).len());
    assert(w[0] == '{');
    assert(skip_ws(w, 0) == 0);
    assert(w[1] == '"');
    assert(skip_ws(w, 1) == 1);
    assert(w.subrange(1, 8) =~= key_allow());
    assert(lit_at(w, 1, key_allow()));
    assert(w[8] == ':');
    assert(skip_ws(w, 8) == 8);
    assert(w[9] == '"');
    assert(skip_ws(w, 9) == 9);
    assert(w.subrange(10, 10 + la) =~= da);
    assert(w[10 + la] == '"');
    lemma_parse_quoted_exact(w, 9, da);
    assert(member_value_quoted(w, 8) == Some((11 + la, a)));
    assert(w[11 + la] == ',');
    assert(skip_ws(w, 11 + la) == 11 + la);
}

/// `deny` member of a canonical wire text, and that the keys before it in
/// the dispatch order do not stand at its position.
#[verifier::rlimit(100)]
proof fn lemma_wire_deny(a: nat, d: nat, idv: nat, t: nat)
    ensures
        ({
            let w = wire_with(a, d, idv, t);
            let la = digits_of(a).len() as int;
            let ld = digits_of(d).len() as int;
            &&& skip_ws(w, 12 + la) == 12 + la
            &&& !lit_at(w, 12 + la, key_allow())
            &&& lit_at(w, 12 + la, key_deny())
            &&& member_value_quoted(w, 18 + la) == Some((21 + la + ld, d))
            &&& 21 + la + ld < w.len() && w[21 + la + ld] == ','
            &&& skip_ws(w, 21 + la + ld) == 21 + la + ld
        }),
{
    reveal(crate::permission_overwrite::wire_with);
    let w = wire_with(a, d, idv, t);
    let dd = digits_of(d);
    lemma_digits_of_digits(d);
    lemma_digits_value_of(d);
    let la = digits_of(a).len() as int;
    let ld = dd.len() as int;
    assert(w.len() == 38 + la + ld + digits_of(idv).len() + digits_of(t).len());
    assert(w[12 + la] == '"');
    assert(skip_ws(w, 12 + la) == 12 + la);
    assert(w.subrange(12 + la, 18 + la) =~= key_deny());
    assert(lit_at(w, 12 + la, key_deny()));
    assert(w[13 + la] == 'd');
    assert(!lit_at(w, 12 + la, key_allow())) by {
        if lit_at(w, 12 + la, key_allow()) {
            assert(w.subrange(12 + la, 12 + la + 7)[1] == w[13 + la]);
        }
    }
    assert(w[18 + la] == ':');
    assert(skip_ws(w, 18 + la) == 18 + la);
    assert(w[19 + la] == '"');
    assert(skip_ws(w, 19 + la) == 19 + la);
    assert(w.subrange(20 + la, 20 + la + ld) =~= dd);
    assert(w[20 + la + ld] == '"');
    lemma_parse_quoted_exact(w, 19 + la, dd);
    assert(member_value_quoted(w, 18 + la) == Some((21 + la + ld, d)));
    assert(w[21 + la + ld] == ',');
    assert(skip_ws(w, 21 + la + ld) == 21 + la + ld);
}

/// `id` member of a canonical wire text, and the dispatch disequalities.
#[verifier::rlimit(100)]
proof fn lemma_wire_id(a: nat, d: nat, idv: nat, t: nat)
    ensures
        ({
            let w = wire_with(a, d, idv, t);
            let la = digits_of(a).len() as int;
            let ld = digits_of(d).len() as int;
            let li = digits_of(idv).len() as int;
            &&& skip_ws(w, 22 + la + ld) == 22 + la + ld
            &&& !lit_at(w, 22 + la + ld, key_allow())
            &&& !lit_at(w, 22 + la + ld, key_deny())
            &&& lit_at(w, 22 + la + ld, key_id())
            &&& member_value_quoted(w, 26 + la + ld) == Some((29 + la + ld + li, idv))
            &&& 29 + la + ld + li < w.len() && w[29 + la + ld + li] == ','
            &&& skip_ws(w, 29 + la + ld + li) == 29 + la + ld + li
        }),
{
    reveal(crate::permission_overwrite::wire_with);
    let w = wire_with(a, d, idv, t);
    let di = digits_of(idv);
    lemma_digits_of_digits(idv);
    lemma_digits_value_of(idv);
    let la = digits_of(a).len() as int;
    let ld = digits_of(d).len() as int;
    let li = di.len() as int;
    assert(w.len() == 38 + la + ld + li + digits_of(t).len());
    assert(w[22 + la + ld] == '"');
    assert(skip_ws(w, 22 + la + ld) == 22 + la + ld);
    assert(w.subrange(22 + la + ld, 26 + la + ld) =~= key_id());
    assert(lit_at(w, 22 + la + ld, key_id()));
    assert(w[23 + la + ld] == 'i');
    assert(!lit_at(w, 22 + la + ld, key_allow())) by {
        if lit_at(w, 22 + la + ld, key_allow()) {
            assert(w.subrange(22 + la + ld, 22 + la + ld + 7)[1] == w[23 + la + ld]);
        }
    }
    assert(!lit_at(w, 22 + la + ld, key_deny())) by {
        if lit_at(w, 22 + la + ld, key_deny()) {
            assert(w.subrange(22 + la + ld, 22 + la + ld + 6)[1] == w[23 + la + ld]);
        }
    }
    assert(w[26 + la + ld] == ':');
    assert(skip_ws(w, 26 + la + ld) == 26 + la + ld);
    assert(w[27 + la + ld] == '"');
    assert(skip_ws(w, 27 + la + ld) == 27 + la + ld);
    assert(w.subrange(28 + la + ld, 28 + la + ld + li) =~= di);
    assert(w[28 + la + ld + li] == '"');
    lemma_parse_quoted_exact(w, 27 + la + ld, di);
    assert(member_value_quoted(w, 26 + la + ld) == Some((29 + la + ld + li, idv)));
    assert(w[29 + la + ld + li] == ',');
    assert(skip_ws(w, 29 + la + ld + li) == 29 + la + ld + li);
}

/// `type` member and closing of a canonical wire text, and the dispatch
/// disequalities.
#[verifier::rlimit(100)]
proof fn lemma_wire_type(a: nat, d: nat, idv: nat, t: nat)
    ensures
        ({
            let w = wire_with(a, d, idv, t);
            let la = digits_of(a).len() as int;
            let ld = digits_of(d).len() as int;
            let li = digits_of(idv).len() as int;
            let lt = digits_of(t).len() as int;
            &&& skip_ws(w, 30 + la + ld + li) == 30 + la + ld + li
            &&& !lit_at(w, 30 + la + ld + li, key_allow())
            &&& !lit_at(w, 30 + la + ld + li, key_deny())
            &&& !lit_at(w, 30 + la + ld + li, key_id())
            &&& lit_at(w, 30 + la + ld + li, key_type())
            &&& member_value_bare(w, 36 + la + ld + li) == Some((37 + la + ld + li + lt, t))
            &&& 37 + la + ld + li + lt < w.len() && w[37 + la + ld + li + lt] == '}'
            &&& skip_ws(w, 37 + la + ld + li + lt) == 37 + la + ld + li + lt
            &&& skip_ws(w, 38 + la + ld + li + lt) == w.len()
        }),
{
    reveal(crate::permission_overwrite::wire_with);
    let w = wire_with(a, d, idv, t);
    let dt = digits_of(t);
    lemma_digits_of_digits(t);
    lemma_digits_value_of(t);
    let la = digits_of(a).len() as int;
    let ld = digits_of(d).len() as int;
    let li = digits_of(idv).len() as int;
    let lt = dt.len() as int;
    assert(w.len() == 38 + la + ld + li + lt);
    assert(w[30 + la + ld + li] == '"');
    assert(skip_ws(w, 30 + la + ld + li) == 30 + la + ld + li);
    assert(w.subrange(30 + la + ld + li, 36 + la + ld + li) =~= key_type());
    assert(lit_at(w, 30 + la + ld + li, key_type()));
    assert(w[31 + la + ld + li] == 't');
    assert(!lit_at(w, 30 + la + ld + li, key_allow())) by {
        if lit_at(w, 30 + la + ld + li, key_allow()) {
            assert(w.subrange(30 + la + ld + li, 30 + la + ld + li + 7)[1] == w[31 + la + ld + li]);
        }
    }
    assert(!lit_at(w, 30 + la + ld + li, key_deny())) by {
        if lit_at(w, 30 + la + ld + li, key_deny()) {
            assert(w.subrange(30 + la + ld + li, 30 + la + ld + li + 6)[1] == w[31 + la + ld + li]);
        }
    }
    assert(!lit_at(w, 30 + la + ld + li, key_id())) by {
        if lit_at(w, 30 + la + ld + li, key_id()) {
            assert(w.subrange(30 + la + ld + li, 30 + la + ld + li + 4)[1] == w[31 + la + ld + li]);
        }
    }
    assert(w[36 + la + ld + li] == ':');
    assert(skip_ws(w, 36 + la + ld + li) == 36 + la + ld + li);
    assert(w[37 + la + ld + li] == dt[0]);
    assert(is_digit(dt[0]));
    assert(!is_ws(dt[0]));
    assert(skip_ws(w, 37 + la + ld + li) == 37 + la + ld + li);
    assert(w.subrange(37 + la + ld + li, 37 + la + ld + li + lt) =~= dt);
    assert(w[37 + la + ld + li + lt] == '}');
    assert(!is_digit('}'));
    lemma_parse_bare_exact(w, 37 + la + ld + li, dt);
    assert(member_value_bare(w, 36 + la + ld + li) == Some((37 + la + ld + li + lt, t)));
    assert(!is_ws('}'));
    assert(skip_ws(w, 37 + la + ld + li + lt) == 37 + la + ld + li + lt);
    assert(skip_ws(w, 38 + la + ld + li + lt) == w.len());
}

/// What the parser makes of a canonical wire text, for every choice of the
/// four raw field values: the overwrite itself when every value fits its
/// field and the discriminant is known, and otherwise exactly the error
/// that names the first field at fault.
#[verifier::rlimit(100)]
pub proof fn lemma_parse_wire_with(a: nat, d: nat, idv: nat, t: nat)
    ensures
        parse_wire(wire_with(a, d, idv, t)) == (if a > u128::MAX {
            Err::<PermissionOverwrite, OverwriteDecodeError>(OverwriteDecodeError::Number)
        } else if d > u128::MAX {
            Err(OverwriteDecodeError::Number)
        } else if idv > u64::MAX {
            Err(OverwriteDecodeError::Number)
        } else if t != 0 && t != 1 {
            Err(OverwriteDecodeError::Discriminant)
        } else {
            Ok(build_overwrite(a, d, idv, t))
        }),
{
    let w = wire_with(a, d, idv, t);
    let la = digits_of(a).len() as int;
    let ld = digits_of(d).len() as int;
    let li = digits_of(idv).len() as int;
    let lt = digits_of(t).len() as int;
    lemma_wire_allow(a, d, idv, t);
    lemma_wire_deny(a, d, idv, t);
    lemma_wire_id(a, d, idv, t);
    lemma_wire_type(a, d, idv, t);
    let rem0 = w.len() as nat;
    lemma_members_allow(w, 1, rem0, None, None, None, 11 + la, a);
    if a <= u128::MAX {
        lemma_after_comma(w, 11 + la, rem0, Some(a), None, None, None);
        lemma_members_deny(w, 12 + la, (rem0 - 1) as nat, Some(a), None, None, 21 + la + ld, d);
        if d <= u128::MAX {
            lemma_after_comma(w, 21 + la + ld, (rem0 - 1) as nat, Some(a), Some(d), None, None);
            lemma_members_id(
                w,
                22 + la + ld,
                (rem0 - 2) as nat,
                Some(a),
                Some(d),
                None,
                29 + la + ld + li,
                idv,
            );
            if idv <= u64::MAX {
                lemma_after_comma(
                    w,
                    29 + la + ld + li,
                    (rem0 - 2) as nat,
                    Some(a),
                    Some(d),
                    Some(idv),
                    None,
                );
                lemma_members_type(
                    w,
                    30 + la + ld + li,
                    (rem0 - 3) as nat,
                    Some(a),
                    Some(d),
                    Some(idv),
                    37 + la + ld + li + lt,
                    t,
                );
                if t == 0 || t == 1 {
                    lemma_after_close(w, 37 + la + ld + li + lt, (rem0 - 3) as nat, a, d, idv, t);
                }
            }
        }
    }
}

/// Opening and `allow` member of a pretty-printed wire text.
#[verifier::rlimit(100)]
proof fn lemma_pretty_allow(a: nat, d: nat, idv: nat, t: nat)
    ensures
        ({
            let w = pretty_wire_with(a, d, idv, t);
            let la = digits_of(a).len() as int;
            &&& w.len() == 55 + la + digits_of(d).len() + digits_of(idv).len() + digits_of(t).len()
            &&& skip_ws(w, 0) == 0
            &&& 0 < w.len() && w[0] == '{'
            &&& skip_ws(w, 1) == 4
            &&& lit_at(w, 4, key_allow())
            &&& member_value_quoted(w, 11) == Some((15 + la, a))
            &&& w[15 + la] == ','
            &&& skip_ws(w, 15 + la) == 15 + la
        }),
{
    reveal(crate::permission_overwrite::pretty_wire_with);
    let w = pretty_wire_with(a, d, idv, t);
    let da = digits_of(a);
    lemma_digits_of_digits(a);
    lemma_digits_value_of(a);
    let la = da.len() as int;
    assert(w.len() == 55 + la + digits_of(d).len() + digits_of(idv).len() + digits_of(t).len());
    assert(w[0] == '{');
    assert(skip_ws(w, 0) == 0);
    assert(w[1] == '\n');
    assert(w[2] == ' ');
    assert(w[3] == ' ');
    assert(w[4] == '"');
    assert(forall|k: int| 1 <= k < 4 ==> is_ws(#[trigger] w[k])) by {
        assert(is_ws(w[1]));
        assert(is_ws(w[2]));
        assert(is_ws(w[3]));
    }
    lemma_skip_ws_run(w, 1, 4);
    assert(w.subrange(4, 11) =~= key_allow());
    assert(lit_at(w, 4, key_allow()));
    assert(w[11] == ':');
    assert(skip_ws(w, 11) == 11);
    assert(w[12] == ' ');
    assert(w[13] == '"');
    assert(forall|k: int| 12 <= k < 13 ==> is_ws(#[trigger] w[k])) by {
        assert(is_ws(w[12]));
    }
    lemma_skip_ws_run(w, 12, 13);
    assert(w.subrange(14, 14 + la) =~= da);
    assert(w[14 + la] == '"');
    lemma_parse_quoted_exact(w, 13, da);
    assert(member_value_quoted(w, 11) == Some((15 + la, a)));
    assert(w[15 + la] == ',');
    assert(skip_ws(w, 15 + la) == 15 + la);
}

/// `deny` member of a pretty-printed wire text, and the dispatch
/// disequality.
#[verifier::rlimit(100)]
proof fn lemma_pretty_deny(a: nat, d: nat, idv: nat, t: nat)
    ensures
        ({
            let w = pretty_wire_with(a, d, idv, t);
            let la = digits_of(a).len() as int;
            let ld = digits_of(d).len() as int;
            &&& skip_ws(w, 16 + la) == 19 + la
            &&& !lit_at(w, 19 + la, key_allow())
            &&& lit_at(w, 19 + la, key_deny())
            &&& member_value_quoted(w, 25 + la) == Some((29 + la + ld, d))
            &&& 29 + la + ld < w.len() && w[29 + la + ld] == ','
            &&& skip_ws(w, 29 + la + ld) == 29 + la + ld
        }),
{
    reveal(crate::permission_overwrite::pretty_wire_with);
    let w = pretty_wire_with(a, d, idv, t);
    let dd = digits_of(d);
    lemma_digits_of_digits(d);
    lemma_digits_value_of(d);
    let la = digits_of(a).len() as int;
    let ld = dd.len() as int;
    assert(w.len() == 55 + la + ld + digits_of(idv).len() + digits_of(t).len());
    assert(w[16 + la] == '\n');
    assert(w[17 + la] == ' ');
    assert(w[18 + la] == ' ');
    assert(w[19 + la] == '"');
    assert(forall|k: int| 16 + la <= k < 19 + la ==> is_ws(#[trigger] w[k])) by {
        assert(is_ws(w[16 + la]));
        assert(is_ws(w[17 + la]));
        assert(is_ws(w[18 + la]));
    }
    lemma_skip_ws_run(w, 16 + la, 19 + la);
    assert(w.subrange(19 + la, 25 + la) =~= key_deny());
    assert(lit_at(w, 19 + la, key_deny()));
    assert(w[20 + la] == 'd');
    assert(!lit_at(w, 19 + la, key_allow())) by {
        if lit_at(w, 19 + la, key_allow()) {
            assert(w.subrange(19 + la, 19 + la + 7)[1] == w[20 + la]);
        }
    }
    assert(w[25 + la] == ':');
    assert(skip_ws(w, 25 + la) == 25 + la);
    assert(w[26 + la] == ' ');
    assert(w[27 + la] == '"');
    assert(forall|k: int| 26 + la <= k < 27 + la ==> is_ws(#[trigger] w[k])) by {
        assert(is_ws(w[26 + la]));
    }
    lemma_skip_ws_run(w, 26 + la, 27 + la);
    assert(w.subrange(28 + la, 28 + la + ld) =~= dd);
    assert(w[28 + la + ld] == '"');
    lemma_parse_quoted_exact(w, 27 + la, dd);
    assert(member_value_quoted(w, 25 + la) == Some((29 + la + ld, d)));
    assert(w[29 + la + ld] == ',');
    assert(skip_ws(w, 29 + la + ld) == 29 + la + ld);
}

/// `id` member of a pretty-printed wire text, and the dispatch
/// disequalities.
#[verifier::rlimit(100)]
proof fn lemma_pretty_id(a: nat, d: nat, idv: nat, t: nat)
    ensures
        ({
            let w = pretty_wire_with(a, d, idv, t);
            let la = digits_of(a).len() as int;
            let ld = digits_of(d).len() as int;
            let li = digits_of(idv).len() as int;
            &&& skip_ws(w, 30 + la + ld) == 33 + la + ld
            &&& !lit_at(w, 33 + la + ld, key_allow())
            &&& !lit_at(w, 33 + la + ld, key_deny())
            &&& lit_at(w, 33 + la + ld, key_id())
            &&& member_value_quoted(w, 37 + la + ld) == Some((41 + la + ld + li, idv))
            &&& 41 + la + ld + li < w.len() && w[41 + la + ld + li] == ','
            &&& skip_ws(w, 41 + la + ld + li) == 41 + la + ld + li
        }),
{
    reveal(crate::permission_overwrite::pretty_wire_with);
    let w = pretty_wire_with(a, d, idv, t);
    let di = digits_of(idv);
    lemma_digits_of_digits(idv);
    lemma_digits_value_of(idv);
    let la = digits_of(a).len() as int;
    let ld = digits_of(d).len() as int;
    let li = di.len() as int;
    assert(w.len() == 55 + la + ld + li + digits_of(t).len());
    assert(w[30 + la + ld] == '\n');
    assert(w[31 + la + ld] == ' ');
    assert(w[32 + la + ld] == ' ');
    assert(w[33 + la + ld] == '"');
    assert(forall|k: int| 30 + la + ld <= k < 33 + la + ld ==> is_ws(#[trigger] w[k])) by {
        assert(is_ws(w[30 + la + ld]));
        assert(is_ws(w[31 + la + ld]));
        assert(is_ws(w[32 + la + ld]));
    }
    lemma_skip_ws_run(w, 30 + la + ld, 33 + la + ld);
    assert(w.subrange(33 + la + ld, 37 + la + ld) =~= key_id());
    assert(lit_at(w, 33 + la + ld, key_id()));
    assert(w[34 + la + ld] == 'i');
    assert(!lit_at(w, 33 + la + ld, key_allow())) by {
        if lit_at(w, 33 + la + ld, key_allow()) {
            assert(w.subrange(33 + la + ld, 33 + la + ld + 7)[1] == w[34 + la + ld]);
        }
    }
    assert(!lit_at(w, 33 + la + ld, key_deny())) by {
        if lit_at(w, 33 + la + ld, key_deny()) {
            assert(w.subrange(33 + la + ld, 33 + la + ld + 6)[1] == w[34 + la + ld]);
        }
    }
    assert(w[37 + la + ld] == ':');
    assert(skip_ws(w, 37 + la + ld) == 37 + la + ld);
    assert(w[38 + la + ld] == ' ');
    assert(w[39 + la + ld] == '"');
    assert(forall|k: int| 38 + la + ld <= k < 39 + la + ld ==> is_ws(#[trigger] w[k])) by {
        assert(is_ws(w[38 + la + ld]));
    }
    lemma_skip_ws_run(w, 38 + la + ld, 39 + la + ld);
    assert(w.subrange(40 + la + ld, 40 + la + ld + li) =~= di);
    assert(w[40 + la + ld + li] == '"');
    lemma_parse_quoted_exact(w, 39 + la + ld, di);
    assert(member_value_quoted(w, 37 + la + ld) == Some((41 + la + ld + li, idv)));
    assert(w[41 + la + ld + li] == ',');
    assert(skip_ws(w, 41 + la + ld + li) == 41 + la + ld + li);
}

/// `type` member and closing of a pretty-printed wire text, and the
/// dispatch disequalities.
#[verifier::rlimit(100)]
proof fn lemma_pretty_type(a: nat, d: nat, idv: nat, t: nat)
    ensures
        ({
            let w = pretty_wire_with(a, d, idv, t);
            let la = digits_of(a).len() as int;
            let ld = digits_of(d).len() as int;
            let li = digits_of(idv).len() as int;
            let lt = digits_of(t).len() as int;
            &&& skip_ws(w, 42 + la + ld + li) == 45 + la + ld + li
            &&& !lit_at(w, 45 + la + ld + li, key_allow())
            &&& !lit_at(w, 45 + la + ld + li, key_deny())
            &&& !lit_at(w, 45 + la + ld + li, key_id())
            &&& lit_at(w, 45 + la + ld + li, key_type())
            &&& member_value_bare(w, 51 + la + ld + li) == Some((53 + la + ld + li + lt, t))
            &&& 54 + la + ld + li + lt < w.len() && w[54 + la + ld + li + lt] == '}'
            &&& skip_ws(w, 53 + la + ld + li + lt) == 54 + la + ld + li + lt
            &&& skip_ws(w, 55 + la + ld + li + lt) == w.len()
        }),
{
    reveal(crate::permission_overwrite::pretty_wire_with);
    let w = pretty_wire_with(a, d, idv, t);
    let dt = digits_of(t);
    lemma_digits_of_digits(t);
    lemma_digits_value_of(t);
    let la = digits_of(a).len() as int;
    let ld = digits_of(d).len() as int;
    let li = digits_of(idv).len() as int;
    let lt = dt.len() as int;
    assert(w.len() == 55 + la + ld + li + lt);
    assert(w[42 + la + ld + li] == '\n');
    assert(w[43 + la + ld + li] == ' ');
    assert(w[44 + la + ld + li] == ' ');
    assert(w[45 + la + ld + li] == '"');
    assert(forall|k: int| 42 + la + ld + li <= k < 45 + la + ld + li ==> is_ws(
        #[trigger] w[k],
    )) by {
        assert(is_ws(w[42 + la + ld + li]));
        assert(is_ws(w[43 + la + ld + li]));
        assert(is_ws(w[44 + la + ld + li]));
    }
    lemma_skip_ws_run(w, 42 + la + ld + li, 45 + la + ld + li);
    assert(w.subrange(45 + la + ld + li, 51 + la + ld + li) =~= key_type());
    assert(lit_at(w, 45 + la + ld + li, key_type()));
    assert(w[46 + la + ld + li] == 't');
    assert(!lit_at(w, 45 + la + ld + li, key_allow())) by {
        if lit_at(w, 45 + la + ld + li, key_allow()) {
            assert(w.subrange(45 + la + ld + li, 45 + la + ld + li + 7)[1] == w[46 + la + ld + li]);
        }
    }
    assert(!lit_at(w, 45 + la + ld + li, key_deny())) by {
        if lit_at(w, 45 + la + ld + li, key_deny()) {
            assert(w.subrange(45 + la + ld + li, 45 + la + ld + li + 6)[1] == w[46 + la + ld + li]);
        }
    }
    assert(!lit_at(w, 45 + la + ld + li, key_id())) by {
        if lit_at(w, 45 + la + ld + li, key_id()) {
            assert(w.subrange(45 + la + ld + li, 45 + la + ld + li + 4)[1] == w[46 + la + ld + li]);
        }
    }
    assert(w[51 + la + ld + li] == ':');
    assert(skip_ws(w, 51 + la + ld + li) == 51 + la + ld + li);
    assert(w[52 + la + ld + li] == ' ');
    assert(w[53 + la + ld + li] == dt[0]);
    assert(is_digit(dt[0]));
    assert(!is_ws(dt[0]));
    assert(forall|k: int| 52 + la + ld + li <= k < 53 + la + ld + li ==> is_ws(
        #[trigger] w[k],
    )) by {
        assert(is_ws(w[52 + la + ld + li]));
    }
    lemma_skip_ws_run(w, 52 + la + ld + li, 53 + la + ld + li);
    assert(w.subrange(53 + la + ld + li, 53 + la + ld + li + lt) =~= dt);
    assert(w[53 + la + ld + li + lt] == '\n');
    assert(!is_digit('\n'));
    lemma_parse_bare_exact(w, 53 + la + ld + li, dt);
    assert(member_value_bare(w, 51 + la + ld + li) == Some((53 + la + ld + li + lt, t)));
    assert(w[54 + la + ld + li + lt] == '}');
    assert(!is_ws('}'));
    lemma_skip_ws_run(w, 53 + la + ld + li + lt, 54 + la + ld + li + lt);
    assert(skip_ws(w, 55 + la + ld + li + lt) == w.len());
}

/// What the parser makes of a pretty-printed wire text: the same result as
/// for the compact form, for every choice of the four raw field values.
#[verifier::rlimit(100)]
pub proof fn lemma_parse_pretty_with(a: nat, d: nat, idv: nat, t: nat)
    ensures
        parse_wire(pretty_wire_with(a, d, idv, t)) == parse_wire(wire_with(a, d, idv, t)),
{
    let w = pretty_wire_with(a, d, idv, t);
    let la = digits_of(a).len() as int;
    let ld = digits_of(d).len() as int;
    let li = digits_of(idv).len() as int;
    let lt = digits_of(t).len() as int;
    lemma_parse_wire_with(a, d, idv, t);
    lemma_pretty_allow(a, d, idv, t);
    lemma_pretty_deny(a, d, idv, t);
    lemma_pretty_id(a, d, idv, t);
    lemma_pretty_type(a, d, idv, t);
    let rem0 = w.len() as nat;
    lemma_members_allow(w, 1, rem0, None, None, None, 15 + la, a);
    if a <= u128::MAX {
        lemma_after_comma(w, 15 + la, rem0, Some(a), None, None, None);
        lemma_members_deny(w, 16 + la, (rem0 - 1) as nat, Some(a), None, None, 29 + la + ld, d);
        if d <= u128::MAX {
            lemma_after_comma(w, 29 + la + ld, (rem0 - 1) as nat, Some(a), Some(d), None, None);
            lemma_members_id(
                w,
                30 + la + ld,
                (rem0 - 2) as nat,
                Some(a),
                Some(d),
                None,
                41 + la + ld + li,
                idv,
            );
            if idv <= u64::MAX {
                lemma_after_comma(
                    w,
                    41 + la + ld + li,
                    (rem0 - 2) as nat,
                    Some(a),
                    Some(d),
                    Some(idv),
                    None,
                );
                lemma_members_type(
                    w,
                    42 + la + ld + li,
                    (rem0 - 3) as nat,
                    Some(a),
                    Some(d),
                    Some(idv),
                    53 + la + ld + li + lt,
                    t,
                );
                if t == 0 || t == 1 {
                    lemma_after_close(w, 53 + la + ld + li + lt, (rem0 - 3) as nat, a, d, idv, t);
                }
            }
        }
    }
}

/// Round trip: decoding the wire text of any overwrite gives that overwrite
/// back unchanged.
pub proof fn lemma_round_trip(x: PermissionOverwrite)
    ensures
        parse_wire(wire_of(x)) == Ok::<PermissionOverwrite, OverwriteDecodeError>(x),
{
    lemma_parse_wire_with(
        x.allow.0 as nat,
        x.deny.0 as nat,
        kind_id(x.kind),
        kind_discriminant(x.kind),
    );
}

/// Byte stability: a text produced by the encoder decodes, and re-encoding
/// what it decodes to reproduces the text character for character.
pub proof fn lemma_byte_stability(x: PermissionOverwrite, s: Seq<char>)
    requires
        s == wire_of(x),
    ensures
        parse_wire(s) is Ok,
        wire_of(parse_wire(s)->Ok_0) == s,
{
    lemma_round_trip(x);
}

/// Round trip through the pretty form: decoding the pretty-printed wire
/// text of any overwrite gives that overwrite back unchanged.
pub proof fn lemma_pretty_round_trip(x: PermissionOverwrite)
    ensures
        parse_wire(pretty_wire_of(x)) == Ok::<PermissionOverwrite, OverwriteDecodeError>(x),
{
    lemma_parse_pretty_with(
        x.allow.0 as nat,
        x.deny.0 as nat,
        kind_id(x.kind),
        kind_discriminant(x.kind),
    );
    lemma_round_trip(x);
}

/// Byte stability of the pretty form: a text produced by the pretty encoder
/// decodes, and pretty re-encoding what it decodes to reproduces the text
/// character for character.
pub proof fn lemma_pretty_byte_stability(x: PermissionOverwrite, s: Seq<char>)
    requires
        s == pretty_wire_of(x),
    ensures
        parse_wire(s) is Ok,
        pretty_wire_of(parse_wire(s)->Ok_0) == s,
{
    lemma_pretty_round_trip(x);
}

/// Discriminant exhaustiveness: a wire text whose `type` field is neither 0
/// nor 1 never decodes to an overwrite, whatever the other fields hold; when
/// the other fields are in range the error names the discriminant itself.
pub proof fn lemma_discriminant_exhaustive(a: nat, d: nat, idv: nat, t: nat)
    requires
        t != 0,
        t != 1,
    ensures
        parse_wire(wire_with(a, d, idv, t)) is Err,
        a <= u128::MAX && d <= u128::MAX && idv <= u64::MAX ==> parse_wire(wire_with(a, d, idv, t))
            == Err::<PermissionOverwrite, OverwriteDecodeError>(OverwriteDecodeError::Discriminant),
{
    lemma_parse_wire_with(a, d, idv, t);
}

} // verus!
