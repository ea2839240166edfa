use rson::parser::number::{to_num, Number};
use rson::parser::token::{EnumTokenType, TokenTrait};
use rson::parser::token_double::TokenDouble;

/// The floating-point value of a number: its digits are added up one by
/// one, then the power of ten and the sign are applied.
fn token_number_value(n: &Number) -> f64 {
    let mut result = 0.0;
    for ch in n.int_part.chars() {
        result *= 10.0;
        result += ch.to_digit(10).unwrap() as f64;
    }
    let mut multicand = 0.1;
    for ch in n.frac_part.chars() {
        result += (ch.to_digit(10).unwrap() as f64) * multicand;
        multicand /= 10.0;
    }
    if let Some(e) = &n.exponent {
        const EXP: f64 = 10.0;
        result *= EXP.powf(token_number_value(e));
    }
    if n.negative {
        result = -result;
    }
    result
}

fn number_of(value: f64) -> Number {
    to_num(&format!("{:?}", value)).unwrap()
}

#[test]
fn create_token_double()
{
    let mut in_value = 42.0;
    let mut token = TokenDouble::new(number_of(in_value));
    assert_eq!(token.get_type(), EnumTokenType::DOUBLE);
    assert_eq!(token_number_value(token.get_value()), in_value);

    in_value = 101.0;
    token.set_value(number_of(in_value));
    assert_eq!(token_number_value(token.get_value()), in_value);
}
