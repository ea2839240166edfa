//! A token that holds one decoded character.

use vstd::prelude::*;
use crate::parser::number::Number;
use crate::parser::token::EnumTokenType;
use crate::parser::token::TokenTrait;

verus! {

#[derive(Debug)]
pub struct TokenChar {
    value: char,
}

impl View for TokenChar {
    type V = char;

    closed spec fn view(&self) -> char {
        self.value
    }
}

impl TokenChar {
    pub fn new(value: char) -> (r: Self)
        ensures
            r@ == value,
    {
        Self { value }
    }

    pub fn get_value(&self) -> (r: char)
        ensures
            r == self@,
    {
        self.value
    }

    pub fn set_value(&mut self, value: char)
        ensures
            final(self)@ == value,
    {
        self.value = value;
    }
}

impl TokenTrait for TokenChar {
    open spec fn kind(&self) -> EnumTokenType {
        EnumTokenType::CHAR
    }

    fn get_type(&self) -> (r: EnumTokenType) {
        EnumTokenType::CHAR
    }

    fn as_bool(&self) -> (r: Result<bool, String>)
        ensures
            r matches Err(m) && m@ == "TokenChar is not a TokenBool"@,
    {
        Err("TokenChar is not a TokenBool".to_string())
    }

    fn as_char(&self) -> (r: Result<char, String>)
        ensures
            r == Ok::<char, String>(self@),
    {
        Ok(self.value)
    }

    fn as_double(&self) -> (r: Result<&Number, String>)
        ensures
            r matches Err(m) && m@ == "TokenChar is not a TokenDouble"@,
    {
        Err("TokenChar is not a TokenDouble".to_string())
    }

    fn as_string(&self) -> (r: Result<&String, String>)
        ensures
            r matches Err(m) && m@ == "TokenChar is not a TokenString"@,
    {
        Err("TokenChar is not a TokenString".to_string())
    }

    fn as_symbol(&self) -> (r: Result<&String, String>)
        ensures
            r matches Err(m) && m@ == "TokenChar is not a TokenSymbol"@,
    {
        Err("TokenChar is not a TokenSymbol".to_string())
    }

    fn is_bool(&self) -> (r: bool) {
        false
    }

    fn is_char(&self) -> (r: bool) {
        true
    }

    fn is_double(&self) -> (r: bool) {
        false
    }

    fn is_null(&self) -> (r: bool) {
        false
    }

    fn is_string(&self) -> (r: bool) {
        false
    }

    fn is_symbol(&self) -> (r: bool) {
        false
    }
}

} // verus!
