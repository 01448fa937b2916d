use rlox::environment::Environment;
use rlox::error::RuntimeError;
use rlox::expr::LiteralValue;
use rlox::num::Num;
use rlox::scanner::{self, Token, TokenType};

#[test]
fn num_text_forms() {
    let four = Num::Finite {
        neg: false,
        mag: 4_000_000,
    };
    assert_eq!(four.to_text(), "4");
    let frac = Num::Finite {
        neg: false,
        mag: 45_670_000,
    };
    assert_eq!(frac.to_text(), "45.67");
    let neg = Num::Finite {
        neg: true,
        mag: 1_500_000,
    };
    assert_eq!(neg.to_text(), "-1.5");
    assert_eq!(Num::PosInf.to_text(), "inf");
    assert_eq!(Num::NegInf.to_text(), "-inf");
    assert_eq!(Num::NaN.to_text(), "NaN");
}

#[test]
fn num_arithmetic_is_exact_decimal() {
    let a = Num::Finite {
        neg: false,
        mag: 100_000,
    }; // 0.1
    let b = Num::Finite {
        neg: false,
        mag: 200_000,
    }; // 0.2
    assert_eq!(a.add(b).to_text(), "0.3");
    assert_eq!(b.sub(a).to_text(), "0.1");
    assert_eq!(a.mul(b).to_text(), "0.02");
    assert_eq!(a.div(b).to_text(), "0.5");
}

#[test]
fn nan_compares_false_with_everything() {
    let one = Num::Finite {
        neg: false,
        mag: 1_000_000,
    };
    assert!(!Num::NaN.eq_val(Num::NaN));
    assert!(!Num::NaN.lt_val(one));
    assert!(!one.lt_val(Num::NaN));
    assert!(Num::NegInf.lt_val(one));
    assert!(one.lt_val(Num::PosInf));
}

#[test]
fn from_bool_and_is_falsy() {
    assert!(matches!(LiteralValue::from_bool(true), LiteralValue::True));
    assert!(matches!(
        LiteralValue::from_bool(false),
        LiteralValue::False
    ));
    assert!(matches!(LiteralValue::Nil.is_falsy(), LiteralValue::True));
    assert!(matches!(
        LiteralValue::Number(Num::Finite { neg: false, mag: 0 }).is_falsy(),
        LiteralValue::True
    ));
    assert!(matches!(
        LiteralValue::StringValue(String::new()).is_falsy(),
        LiteralValue::True
    ));
    assert!(matches!(LiteralValue::True.is_falsy(), LiteralValue::False));
}

#[test]
fn value_to_string_forms() {
    assert_eq!(LiteralValue::True.to_string(), "true");
    assert_eq!(LiteralValue::False.to_string(), "false");
    assert_eq!(LiteralValue::Nil.to_string(), "nil");
    assert_eq!(
        LiteralValue::StringValue("hi".to_string()).to_string(),
        "hi"
    );
    assert_eq!(
        LiteralValue::Number(Num::Finite {
            neg: false,
            mag: 123_000_000
        })
        .to_string(),
        "123"
    );
}

#[test]
fn from_token_reads_payloads() {
    let t = Token::new(
        TokenType::Number,
        "2".to_string(),
        Some(scanner::LiteralValue::NumberValue { mag: 2_000_000 }),
        1,
    );
    match LiteralValue::from_token(t) {
        LiteralValue::Number(Num::Finite { neg, mag }) => {
            assert!(!neg);
            assert_eq!(mag, 2_000_000);
        }
        _ => panic!("expected a number"),
    }
    let s = Token::new(
        TokenType::StringLit,
        "\"hi\"".to_string(),
        Some(scanner::LiteralValue::StringValue("hi".to_string())),
        1,
    );
    match LiteralValue::from_token(s) {
        LiteralValue::StringValue(text) => assert_eq!(text, "hi"),
        _ => panic!("expected a string"),
    }
}

#[test]
fn unwrap_as_string_reads_both_payloads() {
    let s = rlox::expr::unwrap_as_string(Some(scanner::LiteralValue::StringValue(
        "abc".to_string(),
    )));
    assert_eq!(s, "abc");
    let i = rlox::expr::unwrap_as_string(Some(scanner::LiteralValue::IdentifierValue(
        "name".to_string(),
    )));
    assert_eq!(i, "name");
}

#[test]
fn environment_define_get_assign() {
    let mut env = Environment::new();
    assert!(matches!(
        env.get("x"),
        Err(RuntimeError::UndefinedVariable { .. })
    ));
    env.define("x".to_string(), LiteralValue::True);
    assert!(matches!(env.get("x"), Ok(LiteralValue::True)));
    env.define("x".to_string(), LiteralValue::Nil);
    assert!(matches!(env.get("x"), Ok(LiteralValue::Nil)));
    assert!(env.assign("x", LiteralValue::False).is_ok());
    assert!(matches!(env.get("x"), Ok(LiteralValue::False)));
    assert!(matches!(
        env.assign("y", LiteralValue::True),
        Err(RuntimeError::UndefinedVariable { .. })
    ));
}
