use rson::parser::token::{EnumTokenType, TokenTrait};
use rson::parser::token_bool::TokenBool;
use rson::parser::token_char::TokenChar;
use rson::parser::token_null::TokenNull;
use rson::parser::token_string::TokenString;
use rson::parser::token_symbol::TokenSymbol;

#[test]
fn create_token_bool()
{
    let mut in_value = true;
    let mut token = TokenBool::new(in_value);
    assert_eq!(token.get_type(), EnumTokenType::BOOL);
    assert_eq!(token.get_value(), in_value);

    in_value = false;
    token.set_value(in_value);
    assert_eq!(token.get_value(), in_value);
}

#[test]
fn create_token_char()
{
    let mut in_value = 'a';
    let mut token = TokenChar::new(in_value);
    assert_eq!(token.get_type(), EnumTokenType::CHAR);
    assert_eq!(token.get_value(), in_value);

    in_value = 'A';
    token.set_value(in_value);
    assert_eq!(token.get_value(), in_value);
}

#[test]
fn create_token_null()
{
    let token = TokenNull::new();
    assert_eq!(token.get_type(), EnumTokenType::NULL);
}

#[test]
fn create_token_string()
{
    let mut in_value = String::from("\"Hello, world!\"");
    let mut token = TokenString::new(in_value.clone());
    assert_eq!(token.get_type(), EnumTokenType::STRING);
    assert_eq!(token.get_value(), &in_value);

    in_value += " \"Hello, again, world!\"";
    token.set_value_copy(&in_value);
    assert_eq!(token.get_value(), &in_value);
}

#[test]
fn create_token_symbol()
{
    let mut in_value = String::from("Hello, world!");
    let mut token = TokenSymbol::new(in_value.clone());
    assert_eq!(token.get_type(), EnumTokenType::SYMBOL);
    assert_eq!(token.get_symbol(), &in_value);

    in_value += " Hello, again, world!";
    token.set_symbol_copy(&in_value);
    assert_eq!(token.get_symbol(), &in_value);
}

#[test]
fn token_text_can_be_changed_in_place()
{
    let mut token = TokenString::new(String::from("a"));
    token.get_value_mut().push('b');
    assert_eq!(token.get_value(), "ab");
    token.set_value_move(String::from("c"));
    assert_eq!(token.as_string().unwrap(), "c");
    assert!(token.is_string() && !token.is_symbol());
    let mut symbol = TokenSymbol::new(String::from("x"));
    symbol.get_sybmol_mut().push('y');
    symbol.set_symbol_move(String::from("z"));
    assert_eq!(symbol.as_symbol().unwrap(), "z");
    assert_eq!(symbol.as_bool(), Err(String::from("TokenSymbol is not a TokenBool")));
    assert_eq!(TokenNull::new().as_char(), Err(String::from("TokenNull is not a TokenChar")));
    assert_eq!(TokenChar::new('q').as_char(), Ok('q'));
}
