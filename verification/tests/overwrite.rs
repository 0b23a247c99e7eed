use gateway_codec::decimal::u128_to_decimal;
use gateway_codec::permission_overwrite::{OverwriteDecodeError, PermissionOverwrite,
    PermissionOverwriteType, Permissions, RoleId, UserId};

#[test]
fn test_overwrite() {
    let overwrite = PermissionOverwrite {
        allow: Permissions(1),
        deny: Permissions(2),
        kind: PermissionOverwriteType::Member(UserId(12_345_678)),
    };

    let input = "{\n  \"allow\": \"1\",\n  \"deny\": \"2\",\n  \"id\": \"12345678\",\n  \"type\": 1\n}";

    assert_eq!(PermissionOverwrite::decode(input).unwrap(), overwrite);
    assert_eq!(overwrite.encode_pretty(), input);
}

#[test]
fn member_overwrite_compact_round_trip() {
    let input = "{\"allow\":\"1\",\"deny\":\"2\",\"id\":\"12345678\",\"type\":1}";
    let x = PermissionOverwrite::decode(input).unwrap();
    assert_eq!(x.allow, Permissions(1));
    assert_eq!(x.deny, Permissions(2));
    assert_eq!(x.kind, PermissionOverwriteType::Member(UserId(12_345_678)));
    assert_eq!(x.encode(), input);
}

#[test]
fn unknown_discriminant_rejected() {
    let input = "{\"allow\":\"1\",\"deny\":\"2\",\"id\":\"12345678\",\"type\":9}";
    assert_eq!(
        PermissionOverwrite::decode(input),
        Err(OverwriteDecodeError::Discriminant)
    );
}

#[test]
fn huge_discriminant_rejected() {
    let input = "{\"allow\":\"1\",\"deny\":\"2\",\"id\":\"3\",\"type\":340282366920938463463374607431768211456}";
    assert_eq!(
        PermissionOverwrite::decode(input),
        Err(OverwriteDecodeError::Discriminant)
    );
}

#[test]
fn role_overwrite_round_trip() {
    let x = PermissionOverwrite {
        allow: Permissions(u128::MAX),
        deny: Permissions(0),
        kind: PermissionOverwriteType::Role(RoleId(42)),
    };
    let s = x.encode();
    assert_eq!(
        s,
        "{\"allow\":\"340282366920938463463374607431768211455\",\"deny\":\"0\",\"id\":\"42\",\"type\":0}"
    );
    assert_eq!(PermissionOverwrite::decode(&s).unwrap(), x);
}

#[test]
fn flags_beyond_64_bits_survive() {
    let x = PermissionOverwrite {
        allow: Permissions(1u128 << 100),
        deny: Permissions(3),
        kind: PermissionOverwriteType::Member(UserId(7)),
    };
    assert_eq!(PermissionOverwrite::decode(&x.encode()).unwrap(), x);
}

#[test]
fn malformed_text_is_syntax_error() {
    assert_eq!(
        PermissionOverwrite::decode("this is not json"),
        Err(OverwriteDecodeError::Syntax)
    );
    assert_eq!(PermissionOverwrite::decode(""), Err(OverwriteDecodeError::Syntax));
    assert_eq!(
        PermissionOverwrite::decode("{\"allow\":\"1\"}"),
        Err(OverwriteDecodeError::Syntax)
    );
    assert_eq!(
        PermissionOverwrite::decode("{\"allow\":\"\",\"deny\":\"2\",\"id\":\"3\",\"type\":1}"),
        Err(OverwriteDecodeError::Syntax)
    );
}

#[test]
fn oversized_numbers_are_number_errors() {
    let allow_too_wide = "{\"allow\":\"340282366920938463463374607431768211456\",\"deny\":\"0\",\"id\":\"1\",\"type\":0}";
    assert_eq!(
        PermissionOverwrite::decode(allow_too_wide),
        Err(OverwriteDecodeError::Number)
    );
    let id_too_wide = "{\"allow\":\"1\",\"deny\":\"0\",\"id\":\"18446744073709551616\",\"type\":0}";
    assert_eq!(
        PermissionOverwrite::decode(id_too_wide),
        Err(OverwriteDecodeError::Number)
    );
}

#[test]
fn key_order_does_not_matter() {
    let expected = PermissionOverwrite {
        allow: Permissions(1),
        deny: Permissions(2),
        kind: PermissionOverwriteType::Member(UserId(12_345_678)),
    };
    let reordered = "{\"deny\":\"2\",\"allow\":\"1\",\"type\":1,\"id\":\"12345678\"}";
    assert_eq!(PermissionOverwrite::decode(reordered).unwrap(), expected);
    let reversed = "{\"type\":1,\"id\":\"12345678\",\"deny\":\"2\",\"allow\":\"1\"}";
    assert_eq!(PermissionOverwrite::decode(reversed).unwrap(), expected);
}

#[test]
fn duplicate_key_rejected() {
    let input = "{\"allow\":\"1\",\"allow\":\"1\",\"id\":\"3\",\"type\":1}";
    assert_eq!(PermissionOverwrite::decode(input), Err(OverwriteDecodeError::Syntax));
}

#[test]
fn unknown_members_are_skipped() {
    let expected = PermissionOverwrite {
        allow: Permissions(1),
        deny: Permissions(2),
        kind: PermissionOverwriteType::Member(UserId(3)),
    };
    let trailing = "{\"allow\":\"1\",\"deny\":\"2\",\"id\":\"3\",\"type\":1,\"extra\":0}";
    assert_eq!(PermissionOverwrite::decode(trailing).unwrap(), expected);
    let leading = "{\"x\":0,\"allow\":\"1\",\"deny\":\"2\",\"id\":\"3\",\"type\":1}";
    assert_eq!(PermissionOverwrite::decode(leading).unwrap(), expected);
    let stringy = "{\"allow\":\"1\",\"note\":\"a \\\"quoted\\\" word\",\"deny\":\"2\",\"id\":\"3\",\"type\":1}";
    assert_eq!(PermissionOverwrite::decode(stringy).unwrap(), expected);
    let nested = "{\"allow\":\"1\",\"meta\":{\"tags\":[1,2,{\"k\":\"}\"}],\"on\":true},\"deny\":\"2\",\"id\":\"3\",\"type\":1}";
    assert_eq!(PermissionOverwrite::decode(nested).unwrap(), expected);
    let literals = "{\"a\":null,\"b\":true,\"c\":-1.5e+10,\"allow\":\"1\",\"deny\":\"2\",\"id\":\"3\",\"type\":1}";
    assert_eq!(PermissionOverwrite::decode(literals).unwrap(), expected);
}

#[test]
fn unterminated_unknown_member_rejected() {
    let bad_string = "{\"allow\":\"1\",\"note\":\"unclosed,\"deny\":\"2\",\"id\":\"3\",\"type\":1}";
    assert!(PermissionOverwrite::decode(bad_string).is_err());
    let bad_nesting = "{\"allow\":\"1\",\"meta\":{\"k\":[1,2,\"deny\":\"2\",\"id\":\"3\",\"type\":1}";
    assert_eq!(
        PermissionOverwrite::decode(bad_nesting),
        Err(OverwriteDecodeError::Syntax)
    );
}

#[test]
fn missing_key_rejected() {
    let input = "{\"allow\":\"1\",\"deny\":\"2\",\"id\":\"3\"}";
    assert_eq!(PermissionOverwrite::decode(input), Err(OverwriteDecodeError::Syntax));
}

#[test]
fn whitespace_between_tokens_is_accepted() {
    let input = " { \"allow\" : \"5\" , \"deny\" : \"6\" , \"id\" : \"9\" , \"type\" : 0 } ";
    let x = PermissionOverwrite::decode(input).unwrap();
    assert_eq!(
        x,
        PermissionOverwrite {
            allow: Permissions(5),
            deny: Permissions(6),
            kind: PermissionOverwriteType::Role(RoleId(9)),
        }
    );
}

#[test]
fn decimal_rendering() {
    assert_eq!(u128_to_decimal(0), "0");
    assert_eq!(u128_to_decimal(7), "7");
    assert_eq!(u128_to_decimal(12_345_678), "12345678");
    assert_eq!(
        u128_to_decimal(u128::MAX),
        "340282366920938463463374607431768211455"
    );
}
