//! Doubles and their texts.
use polygraph::ast::cypher::{Clause, Expression, Literal, ReturnItems};
use polygraph::number::big::{Big, Side};
use polygraph::number::decimal::{read_magnitude, Magnitude};
use polygraph::number::double::nearest_double;
use polygraph::number::forms::{
    number_bits, number_text, opposite_of, read_number, Form, Number,
};
use polygraph::number::shortest::shortest;
use polygraph::number::Float;
use polygraph::parser::{parse_cypher, parse_gql};

const TEXTS: [&str; 46] = [
    "0.0",
    "0e999999999999999999999999999999999999999999",
    "1.0",
    "1.50",
    "0.1",
    "0.2",
    "0.30000000000000004",
    "1e3",
    "1E3",
    "1.e3",
    ".5",
    "123.456",
    "100.0",
    "1e15",
    "1e16",
    "1.5e16",
    "1e17",
    "123456789012345680.0",
    "1e21",
    "1e22",
    "1e23",
    "1e300",
    "1.7976931348623157e308",
    "1.7976931348623158e308",
    "179769313486231580793728971405303415079934132710037826936173778980444968292764750946649017977587207096330286416692887910946555547851940402630657488671505820681908902000708383676273854845817711531764475730270069855571366959622842914819860834936475292719074168444365510704342711559699508093042880177904174497791.0",
    "5e-324",
    "2.4703282292062328e-324",
    "2.4703282292062327e-324",
    "2.2250738585072014e-308",
    "2.225073858507201e-308",
    "1e-400",
    "1e-99999999999999999999999999999999999999999999",
    "0.001",
    "0.0001",
    "0.00001",
    "1.5e-4",
    "1.5e-5",
    "1e-7",
    "9007199254740993.0",
    "9007199254740992.5",
    "1125899906842624.25",
    "1125899906842624.75",
    "3.141592653589793",
    "2.718281828459045",
    "9.999999999999999e22",
    "000000000000000000000000000000000000000012.500000000000000000",
];

fn number(text: &str) -> Number {
    read_number(text).unwrap()
}

fn literal(text: &str, gql: bool) -> String {
    let query = format!("MATCH (n) RETURN {text} AS x");
    let clauses = if gql {
        parse_gql(&query).unwrap().clauses
    } else {
        parse_cypher(&query).unwrap().clauses
    };
    match clauses.last() {
        Some(Clause::Return(r)) => match &r.items {
            ReturnItems::Explicit(items) => match &items[0].expression {
                Expression::Literal(Literal::Float(f)) => f.text.clone(),
                other => panic!("{other:?}"),
            },
            other => panic!("{other:?}"),
        },
        other => panic!("{other:?}"),
    }
}

#[test]
fn texts_are_those_of_the_nearest_doubles() {
    for t in TEXTS {
        let f: f64 = t.parse().unwrap();
        assert_eq!(number_text(number(t), Form::Display), f.to_string(), "{t}");
        assert_eq!(number_text(number(t), Form::Debug), format!("{f:?}"), "{t}");
        let minus = opposite_of(number(t));
        assert_eq!(number_text(minus, Form::Display), (-f).to_string(), "{t}");
        assert_eq!(number_text(minus, Form::Debug), format!("{:?}", -f), "{t}");
    }
}

#[test]
fn texts_of_many_doubles() {
    let mut bits: u64 = 0x9e37_79b9_7f4a_7c15;
    for _ in 0..60 {
        bits = bits.wrapping_mul(6_364_136_223_846_793_005).wrapping_add(1_442_695_040_888_963_407);
        let f = f64::from_bits(bits);
        if f.is_finite() {
            let t = format!("{f:e}");
            assert_eq!(number_text(number(&t), Form::Display), f.to_string());
            assert_eq!(number_text(number(&t), Form::Debug), format!("{f:?}"));
        }
    }
}

#[test]
fn texts_are_read_as_doubles() {
    for t in TEXTS {
        let f: f64 = t.parse().unwrap();
        match read_magnitude(t) {
            Magnitude::Finite(b) => {
                let bits = if b.mantissa < 1 << 52 {
                    b.mantissa
                } else {
                    ((b.exponent as u64 + 1) << 52) | (b.mantissa & ((1 << 52) - 1))
                };
                assert_eq!(bits, f.to_bits(), "{t}");
            }
            other => panic!("{t}: {other:?}"),
        }
    }
    for t in ["1e309", "1e400", "1e99999999999999999999999999999999999999999999", "1.8e308"] {
        assert!(matches!(read_magnitude(t), Magnitude::TooLarge), "{t}");
    }
    for t in ["", ".", "e5", "1e", "1.5.2", "x", "-1", "1_000"] {
        assert!(matches!(read_magnitude(t), Magnitude::NotANumber), "{t}");
    }
}

#[test]
fn shortest_numbers_are_read_back() {
    for t in TEXTS {
        let shown = number_text(number(t), Form::Display);
        let cypher = number_text(number(t), Form::Cypher);
        assert_eq!(number_bits(number(&shown)), number_bits(number(t)), "{t}");
        assert_eq!(number_bits(number(&cypher)), number_bits(number(t)), "{t}");
    }
}

#[test]
fn words_and_signs_are_read() {
    for t in [
        "NaN", "nan", "inf", "-inf", "+inf", "Infinity", "-INFINITY", "1e309", "-1e309", "+1.5",
        "-1.5", "-0.0",
    ] {
        let f: f64 = t.parse().unwrap();
        assert_eq!(number_text(number(t), Form::Display), f.to_string(), "{t}");
        assert_eq!(number_text(number(t), Form::Debug), format!("{f:?}"), "{t}");
    }
    for t in ["", "-", "+", "+-1", "--1", "one", "in", "1e"] {
        assert!(t.parse::<f64>().is_err());
        assert!(read_number(t).is_none(), "{t}");
    }
}

#[test]
fn cypher_texts_have_exponents_out_of_the_range() {
    let cases = [
        ("0", "0.0"),
        ("1", "1.0"),
        ("1.50", "1.5"),
        ("9999999999", "9999999999.0"),
        ("10000000000", "1.0E10"),
        ("12345678901.5", "1.23456789015E10"),
        ("0.000001", "0.000001"),
        ("0.00000025", "2.5E-7"),
        ("1e-7", "1.0E-7"),
        ("-1e300", "-1.0E300"),
    ];
    for (t, expected) in cases {
        let f = Float { text: t.to_string() };
        assert_eq!(f.in_form(Form::Cypher), expected);
    }
}

#[test]
fn floats_change_their_form() {
    let f = Float { text: "100".to_string() };
    assert_eq!(f.in_form(Form::Display), "100");
    assert_eq!(f.in_form(Form::Debug), "100.0");
    assert_eq!(f.negated(), "-100");
    assert_eq!(f.negated_with_point(), "-100.0");
    let f = Float { text: "-0.00001".to_string() };
    assert_eq!(f.negated_with_point(), "1e-5");
    let f = Float { text: "none".to_string() };
    assert_eq!(f.in_form(Form::Debug), "none");
    assert_eq!(f.negated_with_point(), "-none");
    let f = Float { text: "NaN".to_string() };
    assert_eq!(f.negated_with_point(), "NaN");
}

#[test]
fn parsed_floats_are_canonical() {
    for t in ["1.50", "1.5", "1.5e0", "0.15e1", "15e-1"] {
        assert_eq!(literal(t, false), "1.5");
        assert_eq!(literal(t, true), "1.5");
    }
    assert_eq!(literal("1e3", false), "1000");
    assert_eq!(literal("0.1", false), "0.1");
    assert_eq!(literal("1e-7", false), "0.0000001");
    assert_eq!(literal("1e400", true), "inf");
    assert!(parse_cypher("MATCH (n) RETURN 1e400 AS x").is_err());
}

#[test]
fn big_numbers_are_multiplied_and_compared() {
    let max = Big::small(u64::MAX);
    let square = max.times(u64::MAX, u64::MAX);
    assert_eq!(square.limbs, [0, u64::MAX]);
    assert_eq!(Big::small(1).times_power(2, 130).limbs, [0, 0, 4]);
    let a = Big::small(10).times_power(10, 40);
    let b = Big::small(1).times_power(10, 41);
    assert_eq!(a.against(&b), Side::Same);
    assert_eq!(a.times(1, 1).against(&b), Side::Above);
    assert_eq!(max.against(&b), Side::Below);
    assert!(max.is_below(&b));
    assert!(!b.is_below(&a));
}

#[test]
fn nearest_doubles_of_fractions() {
    let third = nearest_double(&Big::small(1), &Big::small(3)).unwrap();
    assert_eq!((third.mantissa, third.exponent), (6_004_799_503_160_661, 1020));
    let zero = nearest_double(&Big::small(0), &Big::small(7)).unwrap();
    assert_eq!((zero.mantissa, zero.exponent), (0, 0));
    let large = Big::small(1).times_power(2, 1024);
    assert!(nearest_double(&large, &Big::small(1)).is_none());
    let (digits, place) = shortest(third);
    assert_eq!((digits, place), (3_333_333_333_333_333, 384));
}
