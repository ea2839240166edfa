//! A token that holds punctuation or a bare word.

use vstd::prelude::*;
use crate::parser::number::Number;
use crate::parser::token::EnumTokenType;
use crate::parser::token::TokenTrait;

verus! {

#[derive(Debug)]
pub struct TokenSymbol {
    symbol: String,
}

impl View for TokenSymbol {
    type V = Seq<char>;

    closed spec fn view(&self) -> Seq<char> {
        self.symbol@
    }
}

impl TokenSymbol {
    pub fn new(symbol: String) -> (r: Self)
        ensures
            r@ == symbol@,
    {
        Self { symbol }
    }

    pub fn get_symbol(&self) -> (r: &String)
        ensures
            r@ == self@,
    {
        &self.symbol
    }

    pub fn get_sybmol_mut(&mut self) -> (r: &mut String)
        ensures
            r@ == old(self)@,
            final(self)@ == final(r)@,
    {
        &mut self.symbol
    }

    pub fn set_symbol_copy(&mut self, symbol: &String)
        ensures
            final(self)@ == symbol@,
    {
        self.symbol = symbol.clone();
    }

    pub fn set_symbol_move(&mut self, symbol: String)
        ensures
            final(self)@ == symbol@,
    {
        self.symbol = symbol;
    }
}

impl TokenTrait for TokenSymbol {
    open spec fn kind(&self) -> EnumTokenType {
        EnumTokenType::SYMBOL
    }

    fn get_type(&self) -> (r: EnumTokenType) {
        EnumTokenType::SYMBOL
    }

    fn as_bool(&self) -> (r: Result<bool, String>)
        ensures
            r matches Err(m) && m@ == "TokenSymbol is not a TokenBool"@,
    {
        Err("TokenSymbol is not a TokenBool".to_string())
    }

    fn as_char(&self) -> (r: Result<char, String>)
        ensures
            r matches Err(m) && m@ == "TokenSymbol is not a TokenChar"@,
    {
        Err("TokenSymbol is not a TokenChar".to_string())
    }

    fn as_double(&self) -> (r: Result<&Number, String>)
        ensures
            r matches Err(m) && m@ == "TokenSymbol is not a TokenDouble"@,
    {
        Err("TokenSymbol is not a TokenDouble".to_string())
    }

    fn as_string(&self) -> (r: Result<&String, String>)
        ensures
            r matches Err(m) && m@ == "TokenSymbol is not a TokenString"@,
    {
        Err("TokenSymbol is not a TokenString".to_string())
    }

    fn as_symbol(&self) -> (r: Result<&String, String>)
        ensures
            r matches Ok(v) && v@ == self@,
    {
        Ok(&self.symbol)
    }

    fn is_bool(&self) -> (r: bool) {
        false
    }

    fn is_char(&self) -> (r: bool) {
        false
    }

    fn is_double(&self) -> (r: bool) {
        false
    }

    fn is_null(&self) -> (r: bool) {
        false
    }

    fn is_string(&self) -> (r: bool) {
        false
    }

    fn is_symbol(&self) -> (r: bool) {
        true
    }
}

} // verus!
