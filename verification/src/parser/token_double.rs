//! A token that holds a number.

use vstd::prelude::*;
use crate::parser::number::Number;
use crate::parser::number::NumberView;
use crate::parser::token::EnumTokenType;
use crate::parser::token::TokenTrait;

verus! {

#[derive(Debug)]
pub struct TokenDouble {
    value: Number,
}

impl View for TokenDouble {
    type V = NumberView;

    closed spec fn view(&self) -> NumberView {
        self.value@
    }
}

impl TokenDouble {
    pub fn new(value: Number) -> (r: Self)
        ensures
            r@ == value@,
    {
        Self { value }
    }

    pub fn get_value(&self) -> (r: &Number)
        ensures
            r@ == self@,
    {
        &self.value
    }

    pub fn set_value(&mut self, value: Number)
        ensures
            final(self)@ == value@,
    {
        self.value = value;
    }

    /// Gives up the token for the number it holds.
    pub fn into_value(self) -> (r: Number)
        ensures
            r@ == self@,
    {
        self.value
    }
}

impl TokenTrait for TokenDouble {
    open spec fn kind(&self) -> EnumTokenType {
        EnumTokenType::DOUBLE
    }

    fn get_type(&self) -> (r: EnumTokenType) {
        EnumTokenType::DOUBLE
    }

    fn as_bool(&self) -> (r: Result<bool, String>)
        ensures
            r matches Err(m) && m@ == "TokenDouble is not a TokenBool"@,
    {
        Err("TokenDouble is not a TokenBool".to_string())
    }

    fn as_char(&self) -> (r: Result<char, String>)
        ensures
            r matches Err(m) && m@ == "TokenDouble is not a TokenChar"@,
    {
        Err("TokenDouble is not a TokenChar".to_string())
    }

    fn as_double(&self) -> (r: Result<&Number, String>)
        ensures
            r matches Ok(v) && v@ == self@,
    {
        Ok(&self.value)
    }

    fn as_string(&self) -> (r: Result<&String, String>)
        ensures
            r matches Err(m) && m@ == "TokenDouble is not a TokenString"@,
    {
        Err("TokenDouble is not a TokenString".to_string())
    }

    fn as_symbol(&self) -> (r: Result<&String, String>)
        ensures
            r matches Err(m) && m@ == "TokenDouble is not a TokenSymbol"@,
    {
        Err("TokenDouble is not a TokenSymbol".to_string())
    }

    fn is_bool(&self) -> (r: bool) {
        false
    }

    fn is_char(&self) -> (r: bool) {
        false
    }

    fn is_double(&self) -> (r: bool) {
        true
    }

    fn is_null(&self) -> (r: bool) {
        false
    }

    fn is_string(&self) -> (r: bool) {
        false
    }

    fn is_symbol(&self) -> (r: bool) {
        false
    }
}

} // verus!
