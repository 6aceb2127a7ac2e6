use parser::{parse, Parameter, Type};

#[test]
fn parse_usize() {
    assert_eq!(parser::parse_usize("2}"), Ok(Some((2, 1))));
    assert_eq!(parser::parse_usize("12}"), Ok(Some((12, 2))));
    assert_eq!(parser::parse_usize("001}"), Ok(Some((1, 3))));
}

#[test]
fn ty() {
    let fmt = "{:bool}";
    assert_eq!(
        parse(fmt),
        Ok(vec![Parameter {
            index: 0,
            ty: Type::Bool,
            span: 0..fmt.len(),
        }])
    );

    let fmt = "{:?}";
    assert_eq!(
        parse(fmt),
        Ok(vec![Parameter {
            index: 0,
            ty: Type::Format,
            span: 0..fmt.len(),
        }])
    );

    let fmt = "{:i16}";
    assert_eq!(
        parse(fmt),
        Ok(vec![Parameter {
            index: 0,
            ty: Type::I16,
            span: 0..fmt.len(),
        }])
    );

    let fmt = "{:i32}";
    assert_eq!(
        parse(fmt),
        Ok(vec![Parameter {
            index: 0,
            ty: Type::I32,
            span: 0..fmt.len(),
        }])
    );

    let fmt = "{:i8}";
    assert_eq!(
        parse(fmt),
        Ok(vec![Parameter {
            index: 0,
            ty: Type::I8,
            span: 0..fmt.len(),
        }])
    );

    let fmt = "{:str}";
    assert_eq!(
        parse(fmt),
        Ok(vec![Parameter {
            index: 0,
            ty: Type::Str,
            span: 0..fmt.len(),
        }])
    );

    let fmt = "{:u16}";
    assert_eq!(
        parse(fmt),
        Ok(vec![Parameter {
            index: 0,
            ty: Type::U16,
            span: 0..fmt.len(),
        }])
    );

    let fmt = "{:u24}";
    assert_eq!(
        parse(fmt),
        Ok(vec![Parameter {
            index: 0,
            ty: Type::U24,
            span: 0..fmt.len(),
        }])
    );

    let fmt = "{:u32}";
    assert_eq!(
        parse(fmt),
        Ok(vec![Parameter {
            index: 0,
            ty: Type::U32,
            span: 0..fmt.len(),
        }])
    );

    let fmt = "{:f32}";
    assert_eq!(
        parse(fmt),
        Ok(vec![Parameter {
            index: 0,
            ty: Type::F32,
            span: 0..fmt.len(),
        }])
    );

    let fmt = "{:u8}";
    assert_eq!(
        parse(fmt),
        Ok(vec![Parameter {
            index: 0,
            ty: Type::U8,
            span: 0..fmt.len(),
        }])
    );

    let fmt = "{:[u8]}";
    assert_eq!(
        parse(fmt),
        Ok(vec![Parameter {
            index: 0,
            ty: Type::Slice,
            span: 0..fmt.len(),
        }])
    );

    let fmt = "{:usize}";
    assert_eq!(
        parse(fmt),
        Ok(vec![Parameter {
            index: 0,
            ty: Type::Usize,
            span: 0..fmt.len(),
        }])
    );

    let fmt = "{:isize}";
    assert_eq!(
        parse(fmt),
        Ok(vec![Parameter {
            index: 0,
            ty: Type::Isize,
            span: 0..fmt.len(),
        }])
    );

}

#[test]
fn index() {
    // implicit
    let a = "{:u8}";
    let b = "{:u16}";
    assert_eq!(
        parse(&format!("{} {}", a, b)),
        Ok(vec![
            Parameter {
                index: 0,
                ty: Type::U8,
                span: 0..a.len(),
            },
            Parameter {
                index: 1,
                ty: Type::U16,
                span: a.len() + 1..a.len() + b.len() + 1,
            }
        ])
    );

    // single parameter formatted twice
    let a = "{:u8}";
    let b = "{0:u8}";
    assert_eq!(
        parse(&format!("{} {}", a, b)),
        Ok(vec![
            Parameter {
                index: 0,
                ty: Type::U8,
                span: 0..a.len(),
            },
            Parameter {
                index: 0,
                ty: Type::U8,
                span: a.len() + 1..a.len() + b.len() + 1,
            }
        ])
    );

    // explicit index
    let a = "{:u8}";
    let b = "{1:u16}";
    assert_eq!(
        parse(&format!("{} {}", a, b)),
        Ok(vec![
            Parameter {
                index: 0,
                ty: Type::U8,
                span: 0..a.len(),
            },
            Parameter {
                index: 1,
                ty: Type::U16,
                span: a.len() + 1..a.len() + b.len() + 1,
            }
        ])
    );

    // reversed order
    let a = "{1:u8}";
    let b = "{0:u16}";
    assert_eq!(
        parse(&format!("{} {}", a, b)),
        Ok(vec![
            Parameter {
                index: 1,
                ty: Type::U8,
                span: 0..a.len(),
            },
            Parameter {
                index: 0,
                ty: Type::U16,
                span: a.len() + 1..a.len() + b.len() + 1,
            }
        ])
    );

    // two different types for the same index
    assert!(parse("{0:u8} {0:u16}").is_err());

    // omitted index 0
    assert!(parse("{1:u8}").is_err());

    // index 1 is missing
    assert!(parse("{2:u8} {:u16}").is_err());

    // index 0 is missing
    assert!(parse("{2:u8} {1:u16}").is_err());
}

#[test]
fn range() {
    let fmt = "{:0..4}";
    assert_eq!(
        parse(fmt),
        Ok(vec![Parameter {
            index: 0,
            ty: Type::BitField(0..4),
            span: 0..fmt.len(),
        }])
    );

    let a = "{0:30..31}";
    let b = "{1:0..4}";
    let c = "{1:2..6}";
    assert_eq!(
        parse(&format!("{} {} {}", a, b, c)),
        Ok(vec![
            Parameter {
                index: 0,
                ty: Type::BitField(30..31),
                span: 0..a.len(),
            },
            Parameter {
                index: 1,
                ty: Type::BitField(0..4),
                span: a.len() + 1..a.len() + 1 + b.len(),
            },
            Parameter {
                index: 1,
                ty: Type::BitField(2..6),
                span: a.len() + 1 + b.len() + 1..a.len() + 1 + b.len() + 1 + c.len(),
            }
        ])
    );

    // empty range
    assert!(parse("{:0..0}").is_err());
    // start > end
    assert!(parse("{:1..0}").is_err());
    // out of 32-bit range
    assert!(parse("{:0..32}").is_err());
    // just inside 32-bit range
    assert!(parse("{:0..31}").is_ok());

    // missing parts
    assert!(parse("{:0..4").is_err());
    assert!(parse("{:0..}").is_err());
    assert!(parse("{:..4}").is_err());
    assert!(parse("{:0.4}").is_err());
    assert!(parse("{:0...4}").is_err());
}

#[test]
fn arrays() {
    let fmt = "{:[u8; 0]}";
    assert_eq!(
        parse(fmt),
        Ok(vec![Parameter {
            index: 0,
            ty: Type::Array(0),
            span: 0..fmt.len(),
        }])
    );

    // Space is optional.
    let fmt = "{:[u8;42]}";
    assert_eq!(
        parse(fmt),
        Ok(vec![Parameter {
            index: 0,
            ty: Type::Array(42),
            span: 0..fmt.len(),
        }])
    );

    // Multiple spaces are ok.
    let fmt = "{:[u8;    257]}";
    assert_eq!(
        parse(fmt),
        Ok(vec![Parameter {
            index: 0,
            ty: Type::Array(257),
            span: 0..fmt.len(),
        }])
    );

    // No tabs or other whitespace.
    assert!(parse("{:[u8; \t 3]}").is_err());
    assert!(parse("{:[u8; \n 3]}").is_err());
    // Too large.
    assert!(parse("{:[u8; 9999999999999999999999999]}").is_err());
}

#[test]
fn error_msg() {
    assert_eq!(
        parse("{:dunno}").map_err(|e| e.message()),
        Err("invalid format argument")
    );
}
