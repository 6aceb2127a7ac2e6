use parser::{parse, Parameter, ParseError, Type};

fn indices(s: &str) -> Vec<usize> {
    parse(s).unwrap().iter().map(|p| p.index).collect()
}

#[test]
fn same_string_parses_the_same() {
    let s = "a {:u8} b {0:u8} {{ {:[u8; 4]} }} {2:3..9}";
    assert_eq!(parse(s), parse(s));
    assert_eq!(parse("{:0..0}"), parse("{:0..0}"));
}

#[test]
fn escapes_yield_nothing() {
    assert_eq!(parse("{{"), Ok(vec![]));
    assert_eq!(parse("}}"), Ok(vec![]));
    assert_eq!(parse("a{{b}}c"), Ok(vec![]));
    assert_eq!(parse("{{{{}}}}"), Ok(vec![]));
    assert_eq!(
        parse("{{{:u8}}}"),
        Ok(vec![Parameter {
            index: 0,
            ty: Type::U8,
            span: 2..7,
        }])
    );
}

#[test]
fn spans_cover_the_placeholder_text() {
    let s = "é{:u16} xy {1:[u8; 2]} {0:3..4}";
    let params = parse(s).unwrap();
    let texts: Vec<&str> = params.iter().map(|p| &s[p.span.clone()]).collect();
    assert_eq!(texts, vec!["{:u16}", "{1:[u8; 2]}", "{0:3..4}"]);
    assert_eq!(params[0].span, 2..8);
}

#[test]
fn implicit_indices_count_up() {
    assert_eq!(indices("{:u8} {:u16}"), vec![0, 1]);
}

#[test]
fn implicit_index_skips_explicit_ones() {
    assert_eq!(indices("{0:u8} {:u16} {:u32}"), vec![0, 1, 2]);
    assert_eq!(indices("{1:u8} {:u16} {:u32}"), vec![1, 0, 2]);
}

#[test]
fn explicit_and_implicit_share_an_index() {
    assert_eq!(
        parse("{:u8} {0:u8}"),
        Ok(vec![
            Parameter {
                index: 0,
                ty: Type::U8,
                span: 0..5,
            },
            Parameter {
                index: 0,
                ty: Type::U8,
                span: 6..12,
            }
        ])
    );
}

#[test]
fn conflicting_types_are_rejected() {
    assert_eq!(parse("{0:u8} {0:u16}"), Err(ParseError::TypeConflict(0)));
    assert_eq!(parse("{0:u8} {0:0..4}"), Err(ParseError::TypeConflict(0)));
    assert_eq!(parse("{0:[u8; 2]} {0:[u8; 3]}"), Err(ParseError::TypeConflict(0)));
    assert!(parse("{0:[u8; 2]} {0:[u8; 2]}").is_ok());
}

#[test]
fn bitfields_share_an_index() {
    assert_eq!(
        parse("{0:0..4} {0:2..6}"),
        Ok(vec![
            Parameter {
                index: 0,
                ty: Type::BitField(0..4),
                span: 0..8,
            },
            Parameter {
                index: 0,
                ty: Type::BitField(2..6),
                span: 9..17,
            }
        ])
    );
}

#[test]
fn gaps_are_rejected() {
    assert_eq!(parse("{2:u8} {1:u16}"), Err(ParseError::UnusedPositions));
    assert_eq!(parse("{1:u8}"), Err(ParseError::UnusedPositions));
}

#[test]
fn bit_ranges_are_checked() {
    assert_eq!(parse("{:0..0}"), Err(ParseError::InvalidArgument));
    assert_eq!(parse("{:1..0}"), Err(ParseError::InvalidArgument));
    assert_eq!(parse("{:0..32}"), Err(ParseError::InvalidArgument));
    assert_eq!(parse("{:0..256}"), Err(ParseError::InvalidArgument));
    assert_eq!(parse("{:0..31}").unwrap()[0].ty, Type::BitField(0..31));
    assert_eq!(parse("{:007..010}").unwrap()[0].ty, Type::BitField(7..10));
    assert_eq!(parse("{:0..4"), Err(ParseError::BitFieldCloseMissing));
    assert_eq!(parse("{:0..4]"), Err(ParseError::BitFieldCloseMissing));
}

#[test]
fn array_spaces_only() {
    assert_eq!(parse("{:[u8; 3]}").unwrap()[0].ty, Type::Array(3));
    assert_eq!(parse("{:[u8; \t3]}"), Err(ParseError::ArrayLengthExpected));
    assert_eq!(parse("{:[u8;   "), Err(ParseError::InvalidArraySpecifier));
    assert_eq!(parse("{:[u8; 3"), Err(ParseError::Unterminated));
    assert_eq!(parse("{:[u8; 3}"), Err(ParseError::ArrayCloseMissing));
    assert_eq!(parse("{:[u8; 99999999999999999999999]}"), Err(ParseError::Overflow));
    assert_eq!(
        parse("{:[u8; 18446744073709551615]}").unwrap()[0].ty,
        Type::Array(18446744073709551615)
    );
}

#[test]
fn at_sign_is_forbidden() {
    assert_eq!(parse("a@b{:u8}"), Err(ParseError::ForbiddenAt));
    assert_eq!(parse("{:u8}@"), Err(ParseError::ForbiddenAt));
    assert_eq!(parse("@"), Err(ParseError::ForbiddenAt));
}

#[test]
fn malformed_heads() {
    assert_eq!(parse("{"), Err(ParseError::Unterminated));
    assert_eq!(parse("{12"), Err(ParseError::Unterminated));
    assert_eq!(parse("{x}"), Err(ParseError::MissingColon));
    assert_eq!(parse("{0x}"), Err(ParseError::MissingColon));
    assert_eq!(parse("}"), Err(ParseError::UnmatchedClose));
    assert_eq!(parse("a}b"), Err(ParseError::UnmatchedClose));
    assert_eq!(parse("{99999999999999999999999:u8}"), Err(ParseError::Overflow));
    assert_eq!(parse("{:dunno}"), Err(ParseError::InvalidArgument));
}

#[test]
fn every_catalog_tag() {
    assert_eq!(parse("{:istr}").unwrap()[0].ty, Type::IStr);
    assert_eq!(parse("{:str}").unwrap()[0].ty, Type::Str);
    assert_eq!(parse("{:u8} {:u24}").unwrap()[1].ty, Type::U24);
    assert_eq!(parse("{:isize}").unwrap()[0].span, 0..8);
}

#[test]
fn leading_number_is_read() {
    assert_eq!(parser::parse_usize("x"), Ok(None));
    assert_eq!(parser::parse_usize(""), Ok(None));
    assert_eq!(parser::parse_usize("42"), Err(ParseError::Unterminated));
    assert_eq!(
        parser::parse_usize("99999999999999999999999:"),
        Err(ParseError::Overflow)
    );
}

#[test]
fn error_messages() {
    assert_eq!(
        ParseError::UnusedPositions.message(),
        "the format string contains unused positions"
    );
    assert_eq!(
        ParseError::ForbiddenAt.message(),
        "format string cannot contain the `@` character"
    );
}

#[test]
fn error_texts_per_kind() {
    assert_eq!(ParseError::Overflow.message(), "position index must fit in `usize`");
    assert_eq!(parse("{").map_err(|e| e.message()), Err("expected `}` but string was terminated"));
    assert_eq!(
        parse("{0:u8} {0:i8}").map_err(|e| e.message()),
        Err("argument assigned more than one type")
    );
}

#[test]
fn parameters_clone() {
    let params = parse("{:0..4} {:[u8; 2]}").unwrap();
    assert_eq!(params.clone(), params);
    assert_eq!(params[0].ty.clone(), Type::BitField(0..4));
}
