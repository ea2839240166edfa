use rson::parser::lexer::{decode_char, LexError, Lexer};
use rson::parser::number::{to_num, Number};
use rson::parser::token::{EnumTokenType, TokenTrait};

/// The floating-point value of a number: its digits are added up one by
/// one, then the power of ten and the sign are applied.
fn number_value(n: &Number) -> f64 {
    let mut result = 0.0;
    for ch in n.int_part.chars() {
        result *= 10.0;
        result += ch.to_digit(10).unwrap() as f64;
    }
    let mut multicand = 0.1;
    for ch in n.frac_part.chars() {
        result += (ch.to_digit(10).unwrap() as f64) * multicand;
        multicand /= 10.0;
    }
    if let Some(e) = &n.exponent {
        const EXP: f64 = 10.0;
        result *= EXP.powf(number_value(e));
    }
    if n.negative {
        result = -result;
    }
    result
}

#[test]
fn lex_accepts_empty_input()
{
    let input = String::from("");
    let mut lexer = Lexer::new_copy(&input, false);

    let token_result = lexer.next_token();
    assert!(token_result.is_err());
}

#[test]
fn lex_accepts_curly_brackets()
{
    let input = String::from(" { } ");
    let first_token = String::from("{");
    let second_token = String::from("}");
    let mut lexer = Lexer::new_copy(&input, false);

    let mut token_result = lexer.next_token();
    assert!(token_result.is_ok());

    {
        let token = token_result.unwrap();
        assert!(token.is_symbol());
        assert_eq!(token.as_symbol().unwrap(), &first_token);
    }

    token_result = lexer.next_token();
    assert!(token_result.is_ok());

    {
        let token = token_result.unwrap();
        assert!(token.is_symbol());
        assert_eq!(token.as_symbol().unwrap(), &second_token);
    }

    token_result = lexer.next_token();
    assert!(token_result.is_err());
}

#[test]
fn lex_token_bool_true()
{
    let first_token = String::from("{");
    let second_token = true;
    let third_token = String::from("}");
    let input = String::from("{ true }");
    let mut lexer = Lexer::new_copy(&input, false);

    let mut token_result = lexer.next_token();
    assert!(token_result.is_ok());

    {
        let token = token_result.unwrap();
        assert_eq!(token.get_type(), EnumTokenType::SYMBOL);
        assert!(token.is_symbol());
        assert_eq!(token.as_symbol().unwrap(), &first_token);
    }

    token_result = lexer.next_token();
    assert!(token_result.is_ok());

    {
        let token = token_result.unwrap();
        assert_eq!(token.get_type(), EnumTokenType::BOOL);
        assert!(token.is_bool());
        assert_eq!(token.as_bool().unwrap(), second_token);
    }

    token_result = lexer.next_token();
    assert!(token_result.is_ok());

    {
        let token = token_result.unwrap();
        assert_eq!(token.get_type(), EnumTokenType::SYMBOL);
        assert!(token.is_symbol());
        assert_eq!(token.as_symbol().unwrap(), &third_token);
    }

    token_result = lexer.next_token();
    assert!(token_result.is_err());
}

#[test]
fn lex_token_bool_false()
{
    let first_token = String::from("{");
    let second_token = false;
    let third_token = String::from("}");
    let input = String::from("{ false }");
    let mut lexer = Lexer::new_copy(&input, false);

    let mut token_result = lexer.next_token();
    assert!(token_result.is_ok());

    {
        let token = token_result.unwrap();
        assert_eq!(token.get_type(), EnumTokenType::SYMBOL);
        assert!(token.is_symbol());
        assert_eq!(token.as_symbol().unwrap(), &first_token);
    }

    token_result = lexer.next_token();
    assert!(token_result.is_ok());

    {
        let token = token_result.unwrap();
        assert_eq!(token.get_type(), EnumTokenType::BOOL);
        assert!(token.is_bool());
        assert_eq!(token.as_bool().unwrap(), second_token);
    }

    token_result = lexer.next_token();
    assert!(token_result.is_ok());

    {
        let token = token_result.unwrap();
        assert_eq!(token.get_type(), EnumTokenType::SYMBOL);
        assert!(token.is_symbol());
        assert_eq!(token.as_symbol().unwrap(), &third_token);
    }
}

#[test]
fn lex_token_double()
{
    let first_token = String::from("{");
    let second_token = 123.45;
    let third_token = String::from("}");
    let input = String::from("{ 123.45 }");
    let mut lexer = Lexer::new_copy(&input, false);

    let mut token_result = lexer.next_token();
    assert!(token_result.is_ok());

    {
        let token = token_result.unwrap();
        assert_eq!(token.get_type(), EnumTokenType::SYMBOL);
        assert!(token.is_symbol());
        assert_eq!(token.as_symbol().unwrap(), &first_token);
    }

    token_result = lexer.next_token();
    assert!(token_result.is_ok());

    {
        let token = token_result.unwrap();
        assert_eq!(token.get_type(), EnumTokenType::DOUBLE);
        assert!(token.is_double());
        assert_eq!(number_value(token.as_double().unwrap()), second_token);
    }

    token_result = lexer.next_token();
    assert!(token_result.is_ok());

    {
        let token = token_result.unwrap();
        assert_eq!(token.get_type(), EnumTokenType::SYMBOL);
        assert!(token.is_symbol());
        assert_eq!(token.as_symbol().unwrap(), &third_token);
    }

    token_result = lexer.next_token();
    assert!(token_result.is_err());
}

#[test]
fn lex_token_neg_double()
{
    let first_token = String::from("{");
    let second_token = -123.45;
    let third_token = String::from("}");
    let input = String::from("{ -123.45 }");
    let mut lexer = Lexer::new_copy(&input, false);

    let mut token_result = lexer.next_token();
    assert!(token_result.is_ok());

    {
        let token = token_result.unwrap();
        assert_eq!(token.get_type(), EnumTokenType::SYMBOL);
        assert!(token.is_symbol());
        assert_eq!(token.as_symbol().unwrap(), &first_token);
    }

    token_result = lexer.next_token();
    assert!(token_result.is_ok());

    {
        let token = token_result.unwrap();
        assert_eq!(token.get_type(), EnumTokenType::DOUBLE);
        assert!(token.is_double());
        assert_eq!(number_value(token.as_double().unwrap()), second_token);
    }

    token_result = lexer.next_token();
    assert!(token_result.is_ok());

    {
        let token = token_result.unwrap();
        assert_eq!(token.get_type(), EnumTokenType::SYMBOL);
        assert!(token.is_symbol());
        assert_eq!(token.as_symbol().unwrap(), &third_token);
    }

    token_result = lexer.next_token();
    assert!(token_result.is_err());
}

#[test]
fn lex_token_explicit_pos_double_fails()
{
    let first_token = String::from("{");
    let input = String::from("{ +123.45 }");
    let mut lexer = Lexer::new_copy(&input, false);

    let mut token_result = lexer.next_token();
    assert!(token_result.is_ok());

    {
        let token = token_result.unwrap();
        assert_eq!(token.get_type(), EnumTokenType::SYMBOL);
        assert!(token.is_symbol());
        assert_eq!(token.as_symbol().unwrap(), &first_token);
    }

    token_result = lexer.next_token();
    assert!(token_result.is_err());
}



#[test]
fn lex_token_double_neg_double_fails()
{
    let input = String::from("--123.45");
    let mut lexer = Lexer::new_copy(&input, false);
    let token_result = lexer.next_token();
    assert!(token_result.is_err());
}

#[test]
fn lex_token_double_big_e_10()
{
    let first_token = String::from("{");
    let second_token = 123.45E10;
    let third_token = String::from("}");
    let input = String::from("{ 123.45E10 }");
    let mut lexer = Lexer::new_copy(&input, false);

    let mut token_result = lexer.next_token();
    assert!(token_result.is_ok());

    {
        let token = token_result.unwrap();
        assert_eq!(token.get_type(), EnumTokenType::SYMBOL);
        assert!(token.is_symbol());
        assert_eq!(token.as_symbol().unwrap(), &first_token);
    }

    token_result = lexer.next_token();
    assert!(token_result.is_ok());

    {
        let token = token_result.unwrap();
        assert_eq!(token.get_type(), EnumTokenType::DOUBLE);
        assert!(token.is_double());
        assert_eq!(number_value(token.as_double().unwrap()), second_token);
    }

    token_result = lexer.next_token();
    assert!(token_result.is_ok());

    {
        let token = token_result.unwrap();
        assert_eq!(token.get_type(), EnumTokenType::SYMBOL);
        assert!(token.is_symbol());
        assert_eq!(token.as_symbol().unwrap(), &third_token);
    }

    token_result = lexer.next_token();
    assert!(token_result.is_err());
}

#[test]
fn lex_token_neg_double_big_e_10()
{
    let first_token = String::from("{");
    let second_token = -123.45E10;
    let third_token = String::from("}");
    let input = String::from("{ -123.45E10 }");
    let mut lexer = Lexer::new_copy(&input, false);

    let mut token_result = lexer.next_token();
    assert!(token_result.is_ok());

    {
        let token = token_result.unwrap();
        assert_eq!(token.get_type(), EnumTokenType::SYMBOL);
        assert!(token.is_symbol());
        assert_eq!(token.as_symbol().unwrap(), &first_token);
    }

    token_result = lexer.next_token();
    assert!(token_result.is_ok());

    {
        let token = token_result.unwrap();
        assert_eq!(token.get_type(), EnumTokenType::DOUBLE);
        assert!(token.is_double());
        assert_eq!(number_value(token.as_double().unwrap()), second_token);
    }

    token_result = lexer.next_token();
    assert!(token_result.is_ok());

    {
        let token = token_result.unwrap();
        assert_eq!(token.get_type(), EnumTokenType::SYMBOL);
        assert!(token.is_symbol());
        assert_eq!(token.as_symbol().unwrap(), &third_token);
    }

    token_result = lexer.next_token();
    assert!(token_result.is_err());
}

#[test]
fn lex_token_neg_zero_zero_one_double()
{
    let first_token = String::from("{");
    let second_token = -0.01;
    let third_token = String::from("}");
    let input = String::from("{ -0.01 }");
    let mut lexer = Lexer::new_copy(&input, false);

    let mut token_result = lexer.next_token();
    assert!(token_result.is_ok());

    {
        let token = token_result.unwrap();
        assert_eq!(token.get_type(), EnumTokenType::SYMBOL);
        assert!(token.is_symbol());
        assert_eq!(token.as_symbol().unwrap(), &first_token);
    }

    token_result = lexer.next_token();
    assert!(token_result.is_ok());

    {
        let token = token_result.unwrap();
        assert_eq!(token.get_type(), EnumTokenType::DOUBLE);
        assert!(token.is_double());
        assert_eq!(number_value(token.as_double().unwrap()), second_token);
    }

    token_result = lexer.next_token();
    assert!(token_result.is_ok());

    {
        let token = token_result.unwrap();
        assert_eq!(token.get_type(), EnumTokenType::SYMBOL);
        assert!(token.is_symbol());
        assert_eq!(token.as_symbol().unwrap(), &third_token);
    }

    token_result = lexer.next_token();
    assert!(token_result.is_err());
}

#[test]
fn lex_token_one_e_ten_double()
{
    let first_token = String::from("{");
    let second_token = 1.0e10;
    let third_token = String::from("}");
    let input = String::from("{ 1.0e10 }");
    let mut lexer = Lexer::new_copy(&input, false);

    let mut token_result = lexer.next_token();
    assert!(token_result.is_ok());

    {
        let token = token_result.unwrap();
        assert_eq!(token.get_type(), EnumTokenType::SYMBOL);
        assert!(token.is_symbol());
        assert_eq!(token.as_symbol().unwrap(), &first_token);
    }

    token_result = lexer.next_token();
    assert!(token_result.is_ok());

    {
        let token = token_result.unwrap();
        assert_eq!(token.get_type(), EnumTokenType::DOUBLE);
        assert!(token.is_double());
        assert_eq!(number_value(token.as_double().unwrap()), second_token);
    }

    token_result = lexer.next_token();
    assert!(token_result.is_ok());

    {
        let token = token_result.unwrap();
        assert_eq!(token.get_type(), EnumTokenType::SYMBOL);
        assert!(token.is_symbol());
        assert_eq!(token.as_symbol().unwrap(), &third_token);
    }

    token_result = lexer.next_token();
    assert!(token_result.is_err());
}

#[test]
fn lex_token_one_e_negative_ten_double()
{
    let first_token = String::from("{");
    let second_token = 1.5e-10;
    let third_token = String::from("}");
    let input = String::from("{ 1.5e-10 }");
    let mut lexer = Lexer::new_copy(&input, false);

    let mut token_result = lexer.next_token();
    assert!(token_result.is_ok());

    {
        let token = token_result.unwrap();
        assert_eq!(token.get_type(), EnumTokenType::SYMBOL);
        assert!(token.is_symbol());
        assert_eq!(token.as_symbol().unwrap(), &first_token);
    }

    token_result = lexer.next_token();
    assert!(token_result.is_ok());

    {
        let token = token_result.unwrap();
        assert_eq!(token.get_type(), EnumTokenType::DOUBLE);
        assert!(token.is_double());
        assert_eq!(number_value(token.as_double().unwrap()), second_token);
    }

    token_result = lexer.next_token();
    assert!(token_result.is_ok());

    {
        let token = token_result.unwrap();
        assert_eq!(token.get_type(), EnumTokenType::SYMBOL);
        assert!(token.is_symbol());
        assert_eq!(token.as_symbol().unwrap(), &third_token);
    }

    token_result = lexer.next_token();
    assert!(token_result.is_err());
}

#[test]
fn lex_token_one_e_ten_point_five_double_fails()
{
    let first_token = String::from("{");
    let input = String::from("{ 1.0e10.5 }");
    let mut lexer = Lexer::new_copy(&input, false);

    let mut token_result = lexer.next_token();
    assert!(token_result.is_ok());

    {
        let token = token_result.unwrap();
        assert_eq!(token.get_type(), EnumTokenType::SYMBOL);
        assert!(token.is_symbol());
        assert_eq!(token.as_symbol().unwrap(), &first_token);
    }

    token_result = lexer.next_token();
    assert!(token_result.is_err());
}



#[test]
fn lex_token_one_e_neg_neg_ten_double_fails()
{
    let first_token = String::from("{");
    let input = String::from("{ 1.0e--10 }");
    let mut lexer = Lexer::new_copy(&input, false);

    let mut token_result = lexer.next_token();
    assert!(token_result.is_ok());

    {
        let token = token_result.unwrap();
        assert_eq!(token.get_type(), EnumTokenType::SYMBOL);
        assert!(token.is_symbol());
        assert_eq!(token.as_symbol().unwrap(), &first_token);
    }

    token_result = lexer.next_token();
    assert!(token_result.is_err());
}



#[test]
fn lex_token_neg_dot_neg_double_fails()
{
    let first_token = String::from("{");
    let input = String::from("{ -.- }");
    let mut lexer = Lexer::new_copy(&input, false);

    let mut token_result = lexer.next_token();
    assert!(token_result.is_ok());

    {
        let token = token_result.unwrap();
        assert_eq!(token.get_type(), EnumTokenType::SYMBOL);
        assert!(token.is_symbol());
        assert_eq!(token.as_symbol().unwrap(), &first_token);
    }

    token_result = lexer.next_token();
    assert!(token_result.is_err());
}



#[test]
fn lex_token_neg_five_dot_neg_five_double_fails()
{
    let first_token = String::from("{");
    let input = String::from("{ -5.-5 }");
    let mut lexer = Lexer::new_copy(&input, false);

    let mut token_result = lexer.next_token();
    assert!(token_result.is_ok());

    {
        let token = token_result.unwrap();
        assert_eq!(token.get_type(), EnumTokenType::SYMBOL);
        assert!(token.is_symbol());
        assert_eq!(token.as_symbol().unwrap(), &first_token);
    }

    token_result = lexer.next_token();
    assert!(token_result.is_err());
}



#[test]
fn lex_token_neg_only_double_fails()
{
    let first_token = String::from("{");
    let input = String::from("{ - }");
    let mut lexer = Lexer::new_copy(&input, false);

    let mut token_result = lexer.next_token();
    assert!(token_result.is_ok());

    {
        let token = token_result.unwrap();
        assert_eq!(token.get_type(), EnumTokenType::SYMBOL);
        assert!(token.is_symbol());
        assert_eq!(token.as_symbol().unwrap(), &first_token);
    }

    token_result = lexer.next_token();
    assert!(token_result.is_err());
}



#[test]
fn lex_token_double_leading_dot()
{
    let first_token = String::from("{");
    let second_token = 0.45;
    let third_token = String::from("}");
    let input = String::from("{ .45 }");
    let mut lexer = Lexer::new_copy(&input, false);

    let mut token_result = lexer.next_token();
    assert!(token_result.is_ok());

    {
        let token = token_result.unwrap();
        assert_eq!(token.get_type(), EnumTokenType::SYMBOL);
        assert!(token.is_symbol());
        assert_eq!(token.as_symbol().unwrap(), &first_token);
    }

    token_result = lexer.next_token();
    assert!(token_result.is_ok());

    {
        let token = token_result.unwrap();
        assert_eq!(token.get_type(), EnumTokenType::DOUBLE);
        assert!(token.is_double());
        assert_eq!(number_value(token.as_double().unwrap()), second_token);
    }

    token_result = lexer.next_token();
    assert!(token_result.is_ok());

    {
        let token = token_result.unwrap();
        assert_eq!(token.get_type(), EnumTokenType::SYMBOL);
        assert!(token.is_symbol());
        assert_eq!(token.as_symbol().unwrap(), &third_token);
    }

    token_result = lexer.next_token();
    assert!(token_result.is_err());
}

#[test]
fn lex_token_double_leading_negative()
{
    let first_token = String::from("{");
    let second_token = -123.45;
    let third_token = String::from("}");
    let input = String::from("{ -123.45 }");
    let mut lexer = Lexer::new_copy(&input, false);

    let mut token_result = lexer.next_token();
    assert!(token_result.is_ok());

    {
        let token = token_result.unwrap();
        assert_eq!(token.get_type(), EnumTokenType::SYMBOL);
        assert!(token.is_symbol());
        assert_eq!(token.as_symbol().unwrap(), &first_token);
    }

    token_result = lexer.next_token();
    assert!(token_result.is_ok());

    {
        let token = token_result.unwrap();
        assert_eq!(token.get_type(), EnumTokenType::DOUBLE);
        assert!(token.is_double());
        assert_eq!(number_value(token.as_double().unwrap()), second_token);
    }

    token_result = lexer.next_token();
    assert!(token_result.is_ok());

    {
        let token = token_result.unwrap();
        assert_eq!(token.get_type(), EnumTokenType::SYMBOL);
        assert!(token.is_symbol());
        assert_eq!(token.as_symbol().unwrap(), &third_token);
    }

    token_result = lexer.next_token();
    assert!(token_result.is_err());
}

#[test]
fn lex_token_null()
{
    let first_token = String::from("{");
    let third_token = String::from("}");
    let input = String::from("{ null }");
    let mut lexer = Lexer::new_move(input, false);

    let mut token_result = lexer.next_token();
    assert!(token_result.is_ok());

    {
        let token = token_result.unwrap();
        assert_eq!(token.get_type(), EnumTokenType::SYMBOL);
        assert!(token.is_symbol());
        assert_eq!(token.as_symbol().unwrap(), &first_token);
    }

    token_result = lexer.next_token();
    assert!(token_result.is_ok());

    {
        let token = token_result.unwrap();
        assert_eq!(token.get_type(), EnumTokenType::NULL);
        assert!(token.is_null());
    }

    token_result = lexer.next_token();
    assert!(token_result.is_ok());

    {
        let token = token_result.unwrap();
        assert_eq!(token.get_type(), EnumTokenType::SYMBOL);
        assert!(token.is_symbol());
        assert_eq!(token.as_symbol().unwrap(), &third_token);
    }

    token_result = lexer.next_token();
    assert!(token_result.is_err());
}

#[test]
fn lex_string()
{
    let first_token = String::from("{");
    let second_token = String::from("Hi");
    let third_token = String::from("}");
    let input = String::from("{ \"Hi\" }");
    let mut lexer = Lexer::new_move(input, false);

    let mut token_result = lexer.next_token();
    assert!(token_result.is_ok());

    {
        let token = token_result.unwrap();
        assert_eq!(token.get_type(), EnumTokenType::SYMBOL);
        assert!(token.is_symbol());
        assert_eq!(token.as_symbol().unwrap(), &first_token);
    }

    token_result = lexer.next_token();
    assert!(token_result.is_ok());

    {
        let token = token_result.unwrap();
        assert_eq!(token.get_type(), EnumTokenType::STRING);
        assert!(token.is_string());
        assert_eq!(token.as_string().unwrap(), &second_token);
    }

    token_result = lexer.next_token();
    assert!(token_result.is_ok());

    {
        let token = token_result.unwrap();
        assert_eq!(token.get_type(), EnumTokenType::SYMBOL);
        assert!(token.is_symbol());
        assert_eq!(token.as_symbol().unwrap(), &third_token);
    }

    token_result = lexer.next_token();
    assert!(token_result.is_err());
}

#[test]
fn lex_escape_double_quote()
{
    let first_token = "\"";
    let input = String::from("\"\\\"\"");
    let mut lexer = Lexer::new_copy(&input, false);

    let mut token_result = lexer.next_token();
    assert!(token_result.is_ok());

    {
        let token = token_result.unwrap();
        assert_eq!(token.get_type(), EnumTokenType::STRING);
        assert!(token.is_string());
        assert_eq!(token.as_string().unwrap(), first_token);
    }

    token_result = lexer.next_token();
    assert!(token_result.is_err());
}

#[test]
fn lex_escape_forward_slash()
{
    let first_token = "/";
    let input = String::from("\"\\/\"");
    let mut lexer = Lexer::new_copy(&input, false);

    let mut token_result = lexer.next_token();
    assert!(token_result.is_ok());

    {
        let token = token_result.unwrap();
        assert_eq!(token.get_type(), EnumTokenType::STRING);
        assert!(token.is_string());
        assert_eq!(token.as_string().unwrap(), first_token);
    }

    token_result = lexer.next_token();
    assert!(token_result.is_err());
}

#[test]
fn lex_escape_multi_backslash_characters()
{
    let first_token = String::from("{");
    let second_token = String::from("\"Hi\"");
    let third_token = String::from("}");
    let input = String::from("{ \"\\\"Hi\\\"\" }");
    let mut lexer = Lexer::new_copy(&input, false);

    let mut token_result = lexer.next_token();
    assert!(token_result.is_ok());

    {
        let token = token_result.unwrap();
        assert_eq!(token.get_type(), EnumTokenType::SYMBOL);
        assert!(token.is_symbol());
        assert_eq!(token.as_symbol().unwrap(), &first_token);
    }

    token_result = lexer.next_token();
    assert!(token_result.is_ok());

    {
        let token = token_result.unwrap();
        assert_eq!(token.get_type(), EnumTokenType::STRING);
        assert!(token.is_string());
        assert_eq!(token.as_string().unwrap(), &second_token);
    }

    token_result = lexer.next_token();
    assert!(token_result.is_ok());

    {
        let token = token_result.unwrap();
        assert_eq!(token.get_type(), EnumTokenType::SYMBOL);
        assert!(token.is_symbol());
        assert_eq!(token.as_symbol().unwrap(), &third_token);
    }

    token_result = lexer.next_token();
    assert!(token_result.is_err());
}

#[test]
fn lex_escape_backspace()
{
    let first_token = "\x08";
    let input = String::from("\"\\b\"");
    let mut lexer = Lexer::new_copy(&input, false);

    let mut token_result = lexer.next_token();
    assert!(token_result.is_ok());

    {
        let token = token_result.unwrap();
        assert_eq!(token.get_type(), EnumTokenType::STRING);
        assert!(token.is_string());
        assert_eq!(token.as_string().unwrap(), first_token);
    }

    token_result = lexer.next_token();
    assert!(token_result.is_err());
}

#[test]
fn lex_escape_form_feed()
{
    let first_token = "\x0C";
    let input = String::from("\"\\f\"");
    let mut lexer = Lexer::new_copy(&input, false);

    let mut token_result = lexer.next_token();
    assert!(token_result.is_ok());

    {
        let token = token_result.unwrap();
        assert_eq!(token.get_type(), EnumTokenType::STRING);
        assert!(token.is_string());
        assert_eq!(token.as_string().unwrap(), first_token);
    }

    token_result = lexer.next_token();
    assert!(token_result.is_err());
}

#[test]
fn lex_escape_newline()
{
    let first_token = "\n";
    let input = String::from("\"\\n\"");
    let mut lexer = Lexer::new_copy(&input, false);

    let mut token_result = lexer.next_token();
    assert!(token_result.is_ok());

    {
        let token = token_result.unwrap();
        assert_eq!(token.get_type(), EnumTokenType::STRING);
        assert!(token.is_string());
        assert_eq!(token.as_string().unwrap(), first_token);
    }

    token_result = lexer.next_token();
    assert!(token_result.is_err());
}

#[test]
fn lex_escape_carriage_return()
{
    let first_token = "\r";
    let input = String::from("\"\\r\"");
    let mut lexer = Lexer::new_copy(&input, false);

    let mut token_result = lexer.next_token();
    assert!(token_result.is_ok());

    {
        let token = token_result.unwrap();
        assert_eq!(token.get_type(), EnumTokenType::STRING);
        assert!(token.is_string());
        assert_eq!(token.as_string().unwrap(), first_token);
    }

    token_result = lexer.next_token();
    assert!(token_result.is_err());
}

#[test]
fn lex_escape_tab()
{
    let first_token = "\t";
    let input = String::from("\"\\t\"");
    let mut lexer = Lexer::new_copy(&input, false);

    let mut token_result = lexer.next_token();
    assert!(token_result.is_ok());

    {
        let token = token_result.unwrap();
        assert_eq!(token.get_type(), EnumTokenType::STRING);
        assert!(token.is_string());
        assert_eq!(token.as_string().unwrap(), first_token);
    }

    token_result = lexer.next_token();
    assert!(token_result.is_err());
}

#[test]
fn lex_escape_single_quote_invalid()
{
    let input = String::from("\\'");
    let mut lexer = Lexer::new_copy(&input, false);

    let token_result = lexer.next_token();
    assert!(token_result.is_err());
}

#[test]
fn lex_escape_unicode_checkmark_min_value_valid()
{
    let first_token = "\\u0000";
    let input = String::from("\"\\u0000\"");
    let mut lexer = Lexer::new_copy(&input, false);

    let mut token_result = lexer.next_token();
    assert!(token_result.is_ok());

    {
        let token = token_result.unwrap();
        assert_eq!(token.get_type(), EnumTokenType::STRING);
        assert!(token.is_string());
        assert_eq!(token.as_string().unwrap(), first_token);
    }

    token_result = lexer.next_token();
    assert!(token_result.is_err());
}

#[test]
fn lex_escape_unicode_checkmark_max_value_valid()
{
    let first_token = "\\uFFFF";
    let input = String::from("\"\\uFFFF\"");
    let mut lexer = Lexer::new_copy(&input, false);

    let mut token_result = lexer.next_token();
    assert!(token_result.is_ok());

    {
        let token = token_result.unwrap();
        assert_eq!(token.get_type(), EnumTokenType::STRING);
        assert!(token.is_string());
        assert_eq!(token.as_string().unwrap(), first_token);
    }

    token_result = lexer.next_token();
    assert!(token_result.is_err());
}

#[test]
fn lex_escape_unicode_checkmark_valid()
{
    let first_token = "\\u2713";
    let input = String::from("\"\\u2713\"");
    let mut lexer = Lexer::new_copy(&input, false);

    let mut token_result = lexer.next_token();
    assert!(token_result.is_ok());

    {
        let token = token_result.unwrap();
        assert_eq!(token.get_type(), EnumTokenType::STRING);
        assert!(token.is_string());
        assert_eq!(token.as_string().unwrap(), first_token);
    }

    token_result = lexer.next_token();
    assert!(token_result.is_err());
}

#[test]
fn lex_escape_unicode_mix_casing_does_to_upper_and_is_valid()
{
    let first_token = "\\uBEEF";
    let input = String::from("\"\\uBeeF\"");
    let mut lexer = Lexer::new_copy(&input, false);

    let mut token_result = lexer.next_token();
    assert!(token_result.is_ok());

    {
        let token = token_result.unwrap();
        assert_eq!(token.get_type(), EnumTokenType::STRING);
        assert!(token.is_string());
        assert_eq!(token.as_string().unwrap(), first_token);
    }

    token_result = lexer.next_token();
    assert!(token_result.is_err());
}

#[test]
fn lex_escape_unicode_not_enough_hex_digits_invalid()
{
    let input = String::from("\"\\u271\"");
    let mut lexer = Lexer::new_copy(&input, false);

    let token_result = lexer.next_token();
    assert!(token_result.is_err());
}

#[test]
fn lex_simple_key_value_pair()
{
    let first_token = String::from("{");
    let second_token = String::from("key");
    let third_token = String::from(":");
    let fourth_token = String::from("value");
    let fifth_token = String::from("}");
    let input = String::from("{ \"key\": \"value\" }");
    let mut lexer = Lexer::new_copy(&input, false);

    let mut token_result = lexer.next_token();
    assert!(token_result.is_ok());

    {
        let token = token_result.unwrap();
        assert_eq!(token.get_type(), EnumTokenType::SYMBOL);
        assert!(token.is_symbol());
        assert_eq!(token.as_symbol().unwrap(), &first_token);
    }

    token_result = lexer.next_token();
    assert!(token_result.is_ok());

    {
        let token = token_result.unwrap();
        assert_eq!(token.get_type(), EnumTokenType::STRING);
        assert!(token.is_string());
        assert_eq!(token.as_string().unwrap(), &second_token);
    }

    token_result = lexer.next_token();
    assert!(token_result.is_ok());

    {
        let token = token_result.unwrap();
        assert_eq!(token.get_type(), EnumTokenType::SYMBOL);
        assert!(token.is_symbol());
        assert_eq!(token.as_symbol().unwrap(), &third_token);
    }

    token_result = lexer.next_token();
    assert!(token_result.is_ok());

    {
        let token = token_result.unwrap();
        assert_eq!(token.get_type(), EnumTokenType::STRING);
        assert!(token.is_string());
        assert_eq!(token.as_string().unwrap(), &fourth_token);
    }

    token_result = lexer.next_token();
    assert!(token_result.is_ok());

    {
        let token = token_result.unwrap();
        assert_eq!(token.get_type(), EnumTokenType::SYMBOL);
        assert!(token.is_symbol());
        assert_eq!(token.as_symbol().unwrap(), &fifth_token);
    }

    token_result = lexer.next_token();
    assert!(token_result.is_err());
}

#[test]
fn lex_multi_field_object()
{
    let first_token = String::from("{");
    let second_token = String::from("1");
    let third_token = String::from(":");
    let fourth_token: f64 = 123.0;
    let fifth_token = String::from(",");
    let sixth_token = String::from("2");
    let seventh_token = &third_token;
    let eighth_token: f64 = 456.0;
    let ninth_token = String::from("}");
    let input = String::from("{ \"1\": 123, \"2\": 456 }");
    let mut lexer = Lexer::new_copy(&input, false);

    let mut token_result = lexer.next_token();
    assert!(token_result.is_ok());

    {
        let token = token_result.unwrap();
        assert_eq!(token.get_type(), EnumTokenType::SYMBOL);
        assert!(token.is_symbol());
        assert_eq!(token.as_symbol().unwrap(), &first_token);
    }

    token_result = lexer.next_token();
    assert!(token_result.is_ok());

    {
        let token = token_result.unwrap();
        assert_eq!(token.get_type(), EnumTokenType::STRING);
        assert!(token.is_string());
        assert_eq!(token.as_string().unwrap(), &second_token);
    }

    token_result = lexer.next_token();
    assert!(token_result.is_ok());

    {
        let token = token_result.unwrap();
        assert_eq!(token.get_type(), EnumTokenType::SYMBOL);
        assert!(token.is_symbol());
        assert_eq!(token.as_symbol().unwrap(), &third_token);
    }

    token_result = lexer.next_token();
    assert!(token_result.is_ok());

    {
        let token = token_result.unwrap();
        assert_eq!(token.get_type(), EnumTokenType::DOUBLE);
        assert!(token.is_double());
        assert_eq!(number_value(token.as_double().unwrap()), fourth_token);
    }

    token_result = lexer.next_token();
    assert!(token_result.is_ok());

    {
        let token = token_result.unwrap();
        assert_eq!(token.get_type(), EnumTokenType::SYMBOL);
        assert!(token.is_symbol());
        assert_eq!(token.as_symbol().unwrap(), &fifth_token);
    }

    token_result = lexer.next_token();
    assert!(token_result.is_ok());

    {
        let token = token_result.unwrap();
        assert_eq!(token.get_type(), EnumTokenType::STRING);
        assert!(token.is_string());
        assert_eq!(token.as_string().unwrap(), &sixth_token);
    }

    token_result = lexer.next_token();
    assert!(token_result.is_ok());

    {
        let token = token_result.unwrap();
        assert_eq!(token.get_type(), EnumTokenType::SYMBOL);
        assert!(token.is_symbol());
        assert_eq!(token.as_symbol().unwrap(), seventh_token);
    }

    token_result = lexer.next_token();
    assert!(token_result.is_ok());

    {
        let token = token_result.unwrap();
        assert_eq!(token.get_type(), EnumTokenType::DOUBLE);
        assert!(token.is_double());
        assert_eq!(number_value(token.as_double().unwrap()), eighth_token);
    }

    token_result = lexer.next_token();
    assert!(token_result.is_ok());

    {
        let token = token_result.unwrap();
        assert_eq!(token.get_type(), EnumTokenType::SYMBOL);
        assert!(token.is_symbol());
        assert_eq!(token.as_symbol().unwrap(), &ninth_token);
    }

    token_result = lexer.next_token();
    assert!(token_result.is_err());
}

#[test]
fn lex_unicode_escape_decodes_to_the_character_with_stringify()
{
    let input = String::from("\"\\u2713 \\u00a3\"");
    let mut lexer = Lexer::new_copy(&input, true);
    let token = lexer.next_token().unwrap();
    assert_eq!(token.get_type(), EnumTokenType::STRING);
    assert_eq!(token.as_string().unwrap(), "\u{2713} \u{a3}");
    assert_eq!(lexer.next_token().err(), Some(LexError::EndOfInput));
}

#[test]
fn lex_unicode_escape_stays_an_escape_without_stringify()
{
    let input = String::from("\"\\u27aF\"");
    let mut lexer = Lexer::new_copy(&input, false);
    let token = lexer.next_token().unwrap();
    assert_eq!(token.as_string().unwrap(), "\\u27AF");
}

#[test]
fn lex_unicode_escape_of_a_surrogate_fails()
{
    let input = String::from("\"\\uD800\"");
    let mut lexer = Lexer::new_copy(&input, true);
    assert_eq!(lexer.next_token().err(), Some(LexError::InvalidUnicode));
    let mut kept = Lexer::new_copy(&input, false);
    assert_eq!(kept.next_token().unwrap().as_string().unwrap(), "\\uD800");
}

#[test]
fn lex_errors_name_their_cause()
{
    let cases: Vec<(&str, LexError)> = vec![
        ("", LexError::EndOfInput),
        ("  \t\r\n", LexError::EndOfInput),
        ("+1", LexError::UnexpectedCharacter),
        ("1.2.3", LexError::SecondPoint),
        ("1e2E3", LexError::SecondExponent),
        ("1-2", LexError::MisplacedMinus),
        ("1e5-3", LexError::MisplacedMinus),
        ("-.", LexError::NoDigits),
        ("1e", LexError::MalformedNumber),
        ("\"abc", LexError::UnterminatedString),
        ("\"abc\\", LexError::UnterminatedString),
        ("\"\\q\"", LexError::UnsupportedEscape),
        ("\"\\u12\"", LexError::InvalidUnicode),
        ("\"\\u12G4\"", LexError::InvalidUnicode),
    ];
    for (text, error) in cases {
        let mut lexer = Lexer::new_move(String::from(text), true);
        assert_eq!(lexer.next_token().err(), Some(error), "{:?}", text);
        assert_eq!(lexer.snap().get_start_pos(), 0);
        assert!(!error.message().is_empty());
    }
}

#[test]
fn lex_failure_leaves_the_cursor_and_restore_rewinds()
{
    let input = String::from("[ 1 +");
    let mut lexer = Lexer::new_copy(&input, false);
    assert!(lexer.next_token().unwrap().is_symbol());
    let snapshot = lexer.snap();
    assert_eq!(snapshot.get_start_pos(), 1);
    assert_eq!(snapshot.to_string(), "1");
    assert_eq!(number_value(lexer.next_token().unwrap().as_double().unwrap()), 1.0);
    assert_eq!(lexer.snap().get_start_pos(), 3);
    assert_eq!(lexer.next_token().err(), Some(LexError::UnexpectedCharacter));
    assert_eq!(lexer.snap().get_start_pos(), 3);
    lexer.restore(&snapshot);
    assert_eq!(number_value(lexer.next_token().unwrap().as_double().unwrap()), 1.0);
    assert_eq!(lexer.get_input(), &input);
}

#[test]
fn lex_words_and_numbers_end_at_the_first_other_character()
{
    let mut lexer = Lexer::new_move(String::from("nullx true,zed9:1e-2]-.5e1"), false);
    assert_eq!(lexer.next_token().unwrap().as_symbol().unwrap(), "nullx");
    assert_eq!(lexer.next_token().unwrap().as_bool(), Ok(true));
    assert_eq!(lexer.next_token().unwrap().as_symbol().unwrap(), ",");
    assert_eq!(lexer.next_token().unwrap().as_symbol().unwrap(), "zed9");
    assert_eq!(lexer.next_token().unwrap().as_symbol().unwrap(), ":");
    assert_eq!(number_value(lexer.next_token().unwrap().as_double().unwrap()), 0.01);
    assert_eq!(lexer.next_token().unwrap().as_symbol().unwrap(), "]");
    assert_eq!(number_value(lexer.next_token().unwrap().as_double().unwrap()), -5.0);
    assert_eq!(lexer.next_token().err(), Some(LexError::EndOfInput));
}

#[test]
fn lex_reads_bytes_as_characters()
{
    let mut lexer = Lexer::new_move(String::from("\"\u{e9}\""), false);
    assert_eq!(lexer.next_token().unwrap().as_string().unwrap(), "\u{c3}\u{a9}");
}

#[test]
fn token_accessors_fail_on_another_kind()
{
    let mut lexer = Lexer::new_move(String::from("true"), false);
    let token = lexer.next_token().unwrap();
    assert_eq!(token.as_double().err(), Some(String::from("TokenBool is not a TokenDouble")));
    assert_eq!(token.as_string(), Err(String::from("TokenBool is not a TokenString")));
    assert_eq!(token.as_symbol(), Err(String::from("TokenBool is not a TokenSymbol")));
    assert_eq!(token.as_char(), Err(String::from("TokenBool is not a TokenChar")));
    assert!(!token.is_null() && !token.is_char() && !token.is_double());
}

#[test]
fn decode_char_gives_the_value_of_a_hex_digit()
{
    assert_eq!(decode_char('0'), 0);
    assert_eq!(decode_char('9'), 9);
    assert_eq!(decode_char('a'), 10);
    assert_eq!(decode_char('F'), 15);
}

#[test]
fn to_num_decodes_the_parts_of_a_literal()
{
    let n = to_num(&String::from("-12.50E-3")).unwrap();
    assert!(n.negative);
    assert_eq!(n.int_part, "12");
    assert_eq!(n.frac_part, "50");
    let e = n.exponent.as_ref().unwrap();
    assert!(e.negative);
    assert_eq!(e.int_part, "3");
    assert_eq!(e.frac_part, "");
    assert!(e.exponent.is_none());
    assert_eq!(number_value(&n), -0.0125);
    assert!(to_num(&String::from("")).is_none());
    assert!(to_num(&String::from("1e")).is_none());
    assert!(to_num(&String::from("1x")).is_none());
    assert!(to_num(&String::from("1.2.3")).is_none());
    assert!(to_num(&String::from("1-2")).is_none());
    assert_eq!(number_value(&to_num(&String::from("1e2e1")).unwrap()), 1e20);
}

#[test]
fn lex_braces_then_end_of_input()
{
    let mut lexer = Lexer::new_move(String::from("{ }"), false);
    assert_eq!(lexer.next_token().unwrap().as_symbol().unwrap(), "{");
    assert_eq!(lexer.next_token().unwrap().as_symbol().unwrap(), "}");
    assert_eq!(lexer.next_token().err(), Some(LexError::EndOfInput));
    assert_eq!(LexError::EndOfInput.message(), "End of input (EOF)");
}

#[test]
fn lex_words_may_start_with_any_letter()
{
    let mut lexer = Lexer::new_move(String::from("zeta Zed"), false);
    assert_eq!(lexer.next_token().unwrap().as_symbol().unwrap(), "zeta");
    assert_eq!(lexer.next_token().unwrap().as_symbol().unwrap(), "Zed");
}
