use std::convert::TryFrom;
use tscn_parser::{Decimal, StrHelper, TscnHelper, VarType, Vector2};

fn value(d: &Decimal) -> f64 {
    d.mantissa as f64 * 10f64.powi(d.exponent as i32)
}

fn rhs(s: &str) -> VarType {
    TscnHelper::parse_rhs(s, "")
}

#[test]
fn vector_literal_round_trip() {
    match rhs("Vector2( 1.5, -2 )") {
        VarType::Vector(v) => {
            assert_eq!(v.x, Decimal { mantissa: 15, exponent: -1 });
            assert_eq!(v.y, Decimal { mantissa: -2, exponent: 0 });
            assert_eq!(value(&v.x), 1.5);
            assert_eq!(value(&v.y), -2.0);
        }
        other => panic!("not a vector: {:?}", other),
    }
}

#[test]
fn vector_needs_plain_components() {
    assert!(matches!(rhs("Vector2( 1e5, 2 )"), VarType::Raw(_)));
    assert!(matches!(rhs("Vector2(1, 2)"), VarType::Raw(_)));
}

#[test]
fn resource_references() {
    assert!(matches!(rhs("SubResource( 7 )"), VarType::SubResource(7)));
    assert!(matches!(rhs("ExtResource( 3 )"), VarType::ExtResource(3)));
    assert!(matches!(rhs("ExtResource(12)"), VarType::ExtResource(12)));
    assert!(matches!(rhs("SubResource(  7 )"), VarType::Raw(_)));
}

#[test]
fn quoted_string() {
    assert!(matches!(rhs("\"hello world\""), VarType::Str(s) if s == "hello world"));
    assert!(matches!(rhs("\"\""), VarType::Str(s) if s.is_empty()));
}

#[test]
fn booleans() {
    assert!(matches!(rhs("true"), VarType::Bool(true)));
    assert!(matches!(rhs("false"), VarType::Bool(false)));
    assert!(matches!(rhs("True"), VarType::Raw(_)));
}

#[test]
fn integers_and_decimals() {
    assert!(matches!(rhs("42"), VarType::Num(42)));
    assert!(matches!(rhs("-7"), VarType::Num(-7)));
    assert!(matches!(rhs("+3"), VarType::Num(3)));
    assert!(matches!(rhs("9223372036854775807"), VarType::Num(9223372036854775807)));
    assert!(matches!(rhs("-9223372036854775808"), VarType::Num(n) if n == isize::MIN));
    match rhs("0.25") {
        VarType::Float(d) => assert_eq!(d, Decimal { mantissa: 25, exponent: -2 }),
        other => panic!("{:?}", other),
    }
    match rhs("1e-05") {
        VarType::Float(d) => assert_eq!(d, Decimal { mantissa: 1, exponent: -5 }),
        other => panic!("{:?}", other),
    }
    match rhs("-.5E2") {
        VarType::Float(d) => assert_eq!(d, Decimal { mantissa: -5, exponent: 1 }),
        other => panic!("{:?}", other),
    }
    match rhs("9223372036854775808") {
        VarType::Float(d) => panic!("{:?}", d),
        VarType::Raw(_) => {}
        other => panic!("{:?}", other),
    }
}

#[test]
fn raw_fallback_keeps_text() {
    assert!(matches!(rhs("Color( 1, 1, 1, 1 )"), VarType::Raw(s) if s == "Color( 1, 1, 1, 1 )"));
    assert!(matches!(rhs("."), VarType::Raw(s) if s == "."));
    assert!(matches!(rhs(""), VarType::Raw(s) if s.is_empty()));
    assert!(matches!(rhs("[ 1, 2 ]"), VarType::Raw(_)));
}

#[test]
fn pools() {
    assert!(matches!(rhs("PoolIntArray( 1, -2, 3 )"), VarType::IntArr(v) if v == vec![1, -2, 3]));
    assert!(matches!(rhs("PoolIntArray(  )"), VarType::Raw(_)));
    match rhs("PoolRealArray( 0.5, 2 )") {
        VarType::FloatArr(v) => assert_eq!(
            v,
            vec![Decimal { mantissa: 5, exponent: -1 }, Decimal { mantissa: 2, exponent: 0 }]
        ),
        other => panic!("{:?}", other),
    }
    match rhs("PoolVector2Array( 1, 2, 3, 4, 5 )") {
        VarType::VectorArr(v) => {
            assert_eq!(v.len(), 2);
            assert_eq!(value(&v[1].x), 3.0);
            assert_eq!(value(&v[1].y), 4.0);
        }
        other => panic!("{:?}", other),
    }
    assert!(matches!(rhs("PoolIntArray( 1, x )"), VarType::Raw(_)));
}

#[test]
fn rectangle() {
    match rhs("Rect2( 0, 16, 32.5, 64 )") {
        VarType::Rect2(r) => {
            assert_eq!(r[0], Vector2 { x: Decimal { mantissa: 0, exponent: 0 }, y: Decimal { mantissa: 16, exponent: 0 } });
            assert_eq!(value(&r[1].x), 32.5);
            assert_eq!(value(&r[1].y), 64.0);
        }
        other => panic!("{:?}", other),
    }
    assert!(matches!(rhs("Rect2( 0, 16, 32 )"), VarType::Raw(_)));
}

#[test]
fn map_seeds() {
    assert!(matches!(rhs("{"), VarType::Dict(m) if m.entries.is_empty()));
    assert!(matches!(rhs("[ {"), VarType::ArrMap(v) if v.len() == 1 && v[0].entries.is_empty()));
}

#[test]
fn curve_in_curve_block() {
    let s = "[ Vector2( 0, 0 ), 0.0, 1.5, 0, 0, Vector2( 1, 1 ), -1.5, 0.0, 0, 0 ]";
    match TscnHelper::parse_rhs(s, "Curve") {
        VarType::Curve(c) => {
            let p = c.points();
            assert_eq!(p.len(), 2);
            assert_eq!(value(&p[0].right_tangent), 1.5);
            assert_eq!(value(&p[1].pos.x), 1.0);
            assert_eq!(value(&p[1].left_tangent), -1.5);
        }
        other => panic!("{:?}", other),
    }
    assert!(matches!(TscnHelper::parse_rhs(s, "Sprite"), VarType::Raw(_)));
    match TscnHelper::parse_rhs("[ Vector2( 0, 0 ), 0, 1.5 ]", "Curve") {
        VarType::Curve(c) => assert_eq!(c.points().len(), 0),
        other => panic!("{:?}", other),
    }
}

#[test]
fn parsing_is_deterministic() {
    let inputs = [
        "Vector2( 1.5, -2 )", "\"a, b\"", "12", "1.0e3", "PoolIntArray( 1, 2 )", "{", "[{",
        "junk ( )", "", "\u{3000}", "ExtResource( 1 )", "Rect2( 1, 2, 3, 4 )",
    ];
    for s in inputs.iter() {
        for t in ["", "Curve"].iter() {
            let a = format!("{:?}", TscnHelper::parse_rhs(s, t));
            let b = format!("{:?}", TscnHelper::parse_rhs(s, t));
            assert_eq!(a, b);
        }
    }
}

#[test]
fn check_borders() {
    assert!("[a]".check_borders('[', ']'));
    assert!("[]".check_borders('[', ']'));
    assert!(!"]".check_borders(']', ']'));
    assert!(!"".check_borders('[', ']'));
    assert!(!"[a".check_borders('[', ']'));
}

#[test]
fn element_splitting_respects_quotes_and_parens() {
    let data: Vec<char> = "\"a, b\", Vector2( 1, 2 ), 3".chars().collect();
    let v = TscnHelper::get_splitted(&data);
    assert_eq!(v.len(), 3);
    assert!(matches!(&v[0], VarType::Str(s) if s == "a, b"));
    assert!(matches!(v[1], VarType::Vector(_)));
    assert!(matches!(v[2], VarType::Num(3)));
}

#[test]
fn try_from_takes_the_matching_variant() {
    assert_eq!(isize::try_from(VarType::Num(3)), Ok(3));
    assert_eq!(isize::try_from(VarType::Bool(true)), Err(()));
    assert_eq!(bool::try_from(&VarType::Bool(true)), Ok(true));
    assert_eq!(bool::try_from(&VarType::Num(1)), Err(()));
    assert_eq!(String::try_from(VarType::Str("x".to_string())), Ok("x".to_string()));
    assert_eq!(String::try_from(VarType::Raw("x".to_string())), Err(()));
    assert_eq!(
        Decimal::try_from(&VarType::Float(Decimal { mantissa: 5, exponent: -1 })),
        Ok(Decimal { mantissa: 5, exponent: -1 })
    );
    assert!(tscn_parser::Curve::try_from(VarType::Num(0)).is_err());
    assert!(tscn_parser::Curve::try_from(TscnHelper::parse_rhs("[ ]", "Curve")).is_ok());
}
