//! A token that holds a boolean.

use vstd::prelude::*;
use crate::parser::number::Number;
use crate::parser::token::EnumTokenType;
use crate::parser::token::TokenTrait;

verus! {

#[derive(Debug)]
pub struct TokenBool {
    value: bool,
}

impl View for TokenBool {
    type V = bool;

    closed spec fn view(&self) -> bool {
        self.value
    }
}

impl TokenBool {
    pub fn new(value: bool) -> (r: Self)
        ensures
            r@ == value,
    {
        Self { value }
    }

    pub fn get_value(&self) -> (r: bool)
        ensures
            r == self@,
    {
        self.value
    }

    pub fn set_value(&mut self, value: bool)
        ensures
            final(self)@ == value,
    {
        self.value = value;
    }
}

impl TokenTrait for TokenBool {
    open spec fn kind(&self) -> EnumTokenType {
        EnumTokenType::BOOL
    }

    fn get_type(&self) -> (r: EnumTokenType) {
        EnumTokenType::BOOL
    }

    fn as_bool(&self) -> (r: Result<bool, String>)
        ensures
            r == Ok::<bool, String>(self@),
    {
        Ok(self.value)
    }

    fn as_char(&self) -> (r: Result<char, String>)
        ensures
            r matches Err(m) && m@ == "TokenBool is not a TokenChar"@,
    {
        Err("TokenBool is not a TokenChar".to_string())
    }

    fn as_double(&self) -> (r: Result<&Number, String>)
        ensures
            r matches Err(m) && m@ == "TokenBool is not a TokenDouble"@,
    {
        Err("TokenBool is not a TokenDouble".to_string())
    }

    fn as_string(&self) -> (r: Result<&String, String>)
        ensures
            r matches Err(m) && m@ == "TokenBool is not a TokenString"@,
    {
        Err("TokenBool is not a TokenString".to_string())
    }

    fn as_symbol(&self) -> (r: Result<&String, String>)
        ensures
            r matches Err(m) && m@ == "TokenBool is not a TokenSymbol"@,
    {
        Err("TokenBool is not a TokenSymbol".to_string())
    }

    fn is_bool(&self) -> (r: bool) {
        true
    }

    fn is_char(&self) -> (r: bool) {
        false
    }

    fn is_double(&self) -> (r: bool) {
        false
    }

    fn is_null(&self) -> (r: bool) {
        false
    }

    fn is_string(&self) -> (r: bool) {
        false
    }

    fn is_symbol(&self) -> (r: bool) {
        false
    }
}

} // verus!
