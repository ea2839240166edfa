//! The token of the word `null`; it holds nothing.

use vstd::prelude::*;
use crate::parser::number::Number;
use crate::parser::token::EnumTokenType;
use crate::parser::token::TokenTrait;

verus! {

#[derive(Debug)]
pub struct TokenNull {}

impl TokenNull {
    pub fn new() -> (r: Self) {
        Self {  }
    }
}

impl TokenTrait for TokenNull {
    open spec fn kind(&self) -> EnumTokenType {
        EnumTokenType::NULL
    }

    fn get_type(&self) -> (r: EnumTokenType) {
        EnumTokenType::NULL
    }

    fn as_bool(&self) -> (r: Result<bool, String>)
        ensures
            r matches Err(m) && m@ == "TokenNull is not a TokenBool"@,
    {
        Err("TokenNull is not a TokenBool".to_string())
    }

    fn as_char(&self) -> (r: Result<char, String>)
        ensures
            r matches Err(m) && m@ == "TokenNull is not a TokenChar"@,
    {
        Err("TokenNull is not a TokenChar".to_string())
    }

    fn as_double(&self) -> (r: Result<&Number, String>)
        ensures
            r matches Err(m) && m@ == "TokenNull is not a TokenDouble"@,
    {
        Err("TokenNull is not a TokenDouble".to_string())
    }

    fn as_string(&self) -> (r: Result<&String, String>)
        ensures
            r matches Err(m) && m@ == "TokenNull is not a TokenString"@,
    {
        Err("TokenNull is not a TokenString".to_string())
    }

    fn as_symbol(&self) -> (r: Result<&String, String>)
        ensures
            r matches Err(m) && m@ == "TokenNull is not a TokenSymbol"@,
    {
        Err("TokenNull is not a TokenSymbol".to_string())
    }

    fn is_bool(&self) -> (r: bool) {
        false
    }

    fn is_char(&self) -> (r: bool) {
        false
    }

    fn is_double(&self) -> (r: bool) {
        false
    }

    fn is_null(&self) -> (r: bool) {
        true
    }

    fn is_string(&self) -> (r: bool) {
        false
    }

    fn is_symbol(&self) -> (r: bool) {
        false
    }
}

} // verus!
