//! A token that holds the decoded text of a quoted string.

use vstd::prelude::*;
use crate::parser::number::Number;
use crate::parser::token::EnumTokenType;
use crate::parser::token::TokenTrait;

verus! {

#[derive(Debug)]
pub struct TokenString {
    value: String,
}

impl View for TokenString {
    type V = Seq<char>;

    closed spec fn view(&self) -> Seq<char> {
        self.value@
    }
}

impl TokenString {
    pub fn new(value: String) -> (r: Self)
        ensures
            r@ == value@,
    {
        Self { value }
    }

    pub fn get_value(&self) -> (r: &String)
        ensures
            r@ == self@,
    {
        &self.value
    }

    pub fn get_value_mut(&mut self) -> (r: &mut String)
        ensures
            r@ == old(self)@,
            final(self)@ == final(r)@,
    {
        &mut self.value
    }

    pub fn set_value_copy(&mut self, value: &String)
        ensures
            final(self)@ == value@,
    {
        self.value = value.clone();
    }

    pub fn set_value_move(&mut self, value: String)
        ensures
            final(self)@ == value@,
    {
        self.value = value;
    }

    /// Gives up the token for the text it holds.
    pub fn into_value(self) -> (r: String)
        ensures
            r@ == self@,
    {
        self.value
    }
}

impl TokenTrait for TokenString {
    open spec fn kind(&self) -> EnumTokenType {
        EnumTokenType::STRING
    }

    fn get_type(&self) -> (r: EnumTokenType) {
        EnumTokenType::STRING
    }

    fn as_bool(&self) -> (r: Result<bool, String>)
        ensures
            r matches Err(m) && m@ == "TokenString is not a TokenBool"@,
    {
        Err("TokenString is not a TokenBool".to_string())
    }

    fn as_char(&self) -> (r: Result<char, String>)
        ensures
            r matches Err(m) && m@ == "TokenString is not a TokenChar"@,
    {
        Err("TokenString is not a TokenChar".to_string())
    }

    fn as_double(&self) -> (r: Result<&Number, String>)
        ensures
            r matches Err(m) && m@ == "TokenString is not a TokenDouble"@,
    {
        Err("TokenString is not a TokenDouble".to_string())
    }

    fn as_string(&self) -> (r: Result<&String, String>)
        ensures
            r matches Ok(v) && v@ == self@,
    {
        Ok(&self.value)
    }

    fn as_symbol(&self) -> (r: Result<&String, String>)
        ensures
            r matches Err(m) && m@ == "TokenString is not a TokenSymbol"@,
    {
        Err("TokenString is not a TokenSymbol".to_string())
    }

    fn is_bool(&self) -> (r: bool) {
        false
    }

    fn is_char(&self) -> (r: bool) {
        false
    }

    fn is_double(&self) -> (r: bool) {
        false
    }

    fn is_null(&self) -> (r: bool) {
        false
    }

    fn is_string(&self) -> (r: bool) {
        true
    }

    fn is_symbol(&self) -> (r: bool) {
        false
    }
}

} // verus!
