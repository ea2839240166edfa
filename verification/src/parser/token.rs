//! The token model: the kinds of lexical token, the accessors that every
//! token offers, and the sum of the six token types.

use vstd::prelude::*;
use crate::parser::number::Number;
use crate::parser::number::NumberView;
use crate::parser::token_bool::TokenBool;
use crate::parser::token_char::TokenChar;
use crate::parser::token_double::TokenDouble;
use crate::parser::token_null::TokenNull;
use crate::parser::token_string::TokenString;
use crate::parser::token_symbol::TokenSymbol;

verus! {

#[derive(Debug, PartialEq, Eq, Structural, Clone, Copy)]
pub enum EnumTokenType {
    BOOL,
    CHAR,
    DOUBLE,
    NULL,
    STRING,
    SYMBOL,
}

/// What every token offers: its kind, a test for each kind, and an accessor
/// for each payload that fails with a message on a token of another kind.
pub trait TokenTrait {
    /// The kind of this token.
    spec fn kind(&self) -> EnumTokenType;

    fn get_type(&self) -> (r: EnumTokenType)
        ensures
            r == self.kind(),
    ;

    fn as_bool(&self) -> (r: Result<bool, String>)
        ensures
            r is Ok <==> self.kind() == EnumTokenType::BOOL,
    ;

    fn as_char(&self) -> (r: Result<char, String>)
        ensures
            r is Ok <==> self.kind() == EnumTokenType::CHAR,
    ;

    fn as_double(&self) -> (r: Result<&Number, String>)
        ensures
            r is Ok <==> self.kind() == EnumTokenType::DOUBLE,
    ;

    fn as_string(&self) -> (r: Result<&String, String>)
        ensures
            r is Ok <==> self.kind() == EnumTokenType::STRING,
    ;

    fn as_symbol(&self) -> (r: Result<&String, String>)
        ensures
            r is Ok <==> self.kind() == EnumTokenType::SYMBOL,
    ;

    fn is_bool(&self) -> (r: bool)
        ensures
            r == (self.kind() == EnumTokenType::BOOL),
    ;

    fn is_char(&self) -> (r: bool)
        ensures
            r == (self.kind() == EnumTokenType::CHAR),
    ;

    fn is_double(&self) -> (r: bool)
        ensures
            r == (self.kind() == EnumTokenType::DOUBLE),
    ;

    fn is_null(&self) -> (r: bool)
        ensures
            r == (self.kind() == EnumTokenType::NULL),
    ;

    fn is_string(&self) -> (r: bool)
        ensures
            r == (self.kind() == EnumTokenType::STRING),
    ;

    fn is_symbol(&self) -> (r: bool)
        ensures
            r == (self.kind() == EnumTokenType::SYMBOL),
    ;
}

/// The message with which a token of the kind `kind` refuses to be read as
/// one of the kind `wanted`.
pub open spec fn mismatch_message(kind: EnumTokenType, wanted: EnumTokenType) -> Seq<char> {
    match (kind, wanted) {
        (EnumTokenType::BOOL, EnumTokenType::CHAR) => "TokenBool is not a TokenChar"@,
        (EnumTokenType::BOOL, EnumTokenType::DOUBLE) => "TokenBool is not a TokenDouble"@,
        (EnumTokenType::BOOL, EnumTokenType::STRING) => "TokenBool is not a TokenString"@,
        (EnumTokenType::BOOL, EnumTokenType::SYMBOL) => "TokenBool is not a TokenSymbol"@,
        (EnumTokenType::CHAR, EnumTokenType::BOOL) => "TokenChar is not a TokenBool"@,
        (EnumTokenType::CHAR, EnumTokenType::DOUBLE) => "TokenChar is not a TokenDouble"@,
        (EnumTokenType::CHAR, EnumTokenType::STRING) => "TokenChar is not a TokenString"@,
        (EnumTokenType::CHAR, EnumTokenType::SYMBOL) => "TokenChar is not a TokenSymbol"@,
        (EnumTokenType::DOUBLE, EnumTokenType::BOOL) => "TokenDouble is not a TokenBool"@,
        (EnumTokenType::DOUBLE, EnumTokenType::CHAR) => "TokenDouble is not a TokenChar"@,
        (EnumTokenType::DOUBLE, EnumTokenType::STRING) => "TokenDouble is not a TokenString"@,
        (EnumTokenType::DOUBLE, EnumTokenType::SYMBOL) => "TokenDouble is not a TokenSymbol"@,
        (EnumTokenType::NULL, EnumTokenType::BOOL) => "TokenNull is not a TokenBool"@,
        (EnumTokenType::NULL, EnumTokenType::CHAR) => "TokenNull is not a TokenChar"@,
        (EnumTokenType::NULL, EnumTokenType::DOUBLE) => "TokenNull is not a TokenDouble"@,
        (EnumTokenType::NULL, EnumTokenType::STRING) => "TokenNull is not a TokenString"@,
        (EnumTokenType::NULL, EnumTokenType::SYMBOL) => "TokenNull is not a TokenSymbol"@,
        (EnumTokenType::STRING, EnumTokenType::BOOL) => "TokenString is not a TokenBool"@,
        (EnumTokenType::STRING, EnumTokenType::CHAR) => "TokenString is not a TokenChar"@,
        (EnumTokenType::STRING, EnumTokenType::DOUBLE) => "TokenString is not a TokenDouble"@,
        (EnumTokenType::STRING, EnumTokenType::SYMBOL) => "TokenString is not a TokenSymbol"@,
        (EnumTokenType::SYMBOL, EnumTokenType::BOOL) => "TokenSymbol is not a TokenBool"@,
        (EnumTokenType::SYMBOL, EnumTokenType::CHAR) => "TokenSymbol is not a TokenChar"@,
        (EnumTokenType::SYMBOL, EnumTokenType::DOUBLE) => "TokenSymbol is not a TokenDouble"@,
        (EnumTokenType::SYMBOL, EnumTokenType::STRING) => "TokenSymbol is not a TokenString"@,
        _ => Seq::<char>::empty(),
    }
}

/// A token of any kind.
#[derive(Debug)]
pub enum Token {
    Bool(TokenBool),
    Char(TokenChar),
    Double(TokenDouble),
    Null(TokenNull),
    String(TokenString),
    Symbol(TokenSymbol),
}

/// The mathematical value of a [`Token`]: its kind with its payload.
pub ghost enum TokenView {
    Bool(bool),
    Char(char),
    Double(NumberView),
    Null,
    String(Seq<char>),
    Symbol(Seq<char>),
}

impl View for Token {
    type V = TokenView;

    open spec fn view(&self) -> TokenView {
        match self {
            Token::Bool(t) => TokenView::Bool(t@),
            Token::Char(t) => TokenView::Char(t@),
            Token::Double(t) => TokenView::Double(t@),
            Token::Null(_) => TokenView::Null,
            Token::String(t) => TokenView::String(t@),
            Token::Symbol(t) => TokenView::Symbol(t@),
        }
    }
}

impl TokenTrait for Token {
    open spec fn kind(&self) -> EnumTokenType {
        match self {
            Token::Bool(_) => EnumTokenType::BOOL,
            Token::Char(_) => EnumTokenType::CHAR,
            Token::Double(_) => EnumTokenType::DOUBLE,
            Token::Null(_) => EnumTokenType::NULL,
            Token::String(_) => EnumTokenType::STRING,
            Token::Symbol(_) => EnumTokenType::SYMBOL,
        }
    }

    fn get_type(&self) -> (r: EnumTokenType) {
        match self {
            Token::Bool(_) => EnumTokenType::BOOL,
            Token::Char(_) => EnumTokenType::CHAR,
            Token::Double(_) => EnumTokenType::DOUBLE,
            Token::Null(_) => EnumTokenType::NULL,
            Token::String(_) => EnumTokenType::STRING,
            Token::Symbol(_) => EnumTokenType::SYMBOL,
        }
    }

    fn as_bool(&self) -> (r: Result<bool, String>)
        ensures
            r matches Ok(v) ==> self@ == TokenView::Bool(v),
            r matches Err(m) ==> m@ == mismatch_message(self.kind(), EnumTokenType::BOOL),
    {
        match self {
            Token::Bool(t) => t.as_bool(),
            Token::Char(t) => t.as_bool(),
            Token::Double(t) => t.as_bool(),
            Token::Null(t) => t.as_bool(),
            Token::String(t) => t.as_bool(),
            Token::Symbol(t) => t.as_bool(),
        }
    }

    fn as_char(&self) -> (r: Result<char, String>)
        ensures
            r matches Ok(v) ==> self@ == TokenView::Char(v),
            r matches Err(m) ==> m@ == mismatch_message(self.kind(), EnumTokenType::CHAR),
    {
        match self {
            Token::Bool(t) => t.as_char(),
            Token::Char(t) => t.as_char(),
            Token::Double(t) => t.as_char(),
            Token::Null(t) => t.as_char(),
            Token::String(t) => t.as_char(),
            Token::Symbol(t) => t.as_char(),
        }
    }

    fn as_double(&self) -> (r: Result<&Number, String>)
        ensures
            r matches Ok(v) ==> self@ == TokenView::Double(v@),
            r matches Err(m) ==> m@ == mismatch_message(self.kind(), EnumTokenType::DOUBLE),
    {
        match self {
            Token::Bool(t) => t.as_double(),
            Token::Char(t) => t.as_double(),
            Token::Double(t) => t.as_double(),
            Token::Null(t) => t.as_double(),
            Token::String(t) => t.as_double(),
            Token::Symbol(t) => t.as_double(),
        }
    }

    fn as_string(&self) -> (r: Result<&String, String>)
        ensures
            r matches Ok(v) ==> self@ == TokenView::String(v@),
            r matches Err(m) ==> m@ == mismatch_message(self.kind(), EnumTokenType::STRING),
    {
        match self {
            Token::Bool(t) => t.as_string(),
            Token::Char(t) => t.as_string(),
            Token::Double(t) => t.as_string(),
            Token::Null(t) => t.as_string(),
            Token::String(t) => t.as_string(),
            Token::Symbol(t) => t.as_string(),
        }
    }

    fn as_symbol(&self) -> (r: Result<&String, String>)
        ensures
            r matches Ok(v) ==> self@ == TokenView::Symbol(v@),
            r matches Err(m) ==> m@ == mismatch_message(self.kind(), EnumTokenType::SYMBOL),
    {
        match self {
            Token::Bool(t) => t.as_symbol(),
            Token::Char(t) => t.as_symbol(),
            Token::Double(t) => t.as_symbol(),
            Token::Null(t) => t.as_symbol(),
            Token::String(t) => t.as_symbol(),
            Token::Symbol(t) => t.as_symbol(),
        }
    }

    fn is_bool(&self) -> (r: bool) {
        matches!(self, Token::Bool(_))
    }

    fn is_char(&self) -> (r: bool) {
        matches!(self, Token::Char(_))
    }

    fn is_double(&self) -> (r: bool) {
        matches!(self, Token::Double(_))
    }

    fn is_null(&self) -> (r: bool) {
        matches!(self, Token::Null(_))
    }

    fn is_string(&self) -> (r: bool) {
        matches!(self, Token::String(_))
    }

    fn is_symbol(&self) -> (r: bool) {
        matches!(self, Token::Symbol(_))
    }
}

} // verus!
