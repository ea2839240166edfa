//! The parser: reads tokens from a lexer and builds the document tree.
//!
//! A value is a scalar token, or an array that `[` opens, or an object that
//! `{` opens. What the parser accepts is specified by [`parse_value`],
//! [`parse_array`] and [`parse_object`] over the lexer's text.

use vstd::prelude::*;
use crate::parser::lexer::LexError;
use crate::parser::lexer::Lexer;
use crate::parser::lexer::lex_at;
use crate::parser::token::Token;
use crate::parser::token::TokenView;
use crate::rnodes::rnode::RNode;
use crate::rnodes::rnode::RNodeView;
use crate::rnodes::rnode::entries_view;
use crate::rnodes::rnode::lemma_entries_ordered;
use crate::rnodes::rnode::lemma_nodes_ordered;
use crate::rnodes::rnode::node_ordered;
use crate::rnodes::rnode::lemma_array_view;
use crate::rnodes::rnode::lemma_object_view;
use crate::rnodes::rnode::nodes_view;
use crate::rnodes::rnode_array::RNodeArray;
use crate::rnodes::rnode_bool::RNodeBool;
use crate::rnodes::rnode_double::RNodeDouble;
use crate::rnodes::rnode_null::RNodeNull;
use crate::rnodes::rnode_object::RNodeObject;
use crate::rnodes::rnode_object::lemma_insert_position;
use crate::rnodes::rnode_object::lemma_put_entry_view;
use crate::rnodes::rnode_object::put_entry_view;
use crate::rnodes::rnode_string::RNodeString;
use crate::utils::string_utils::StringBuilder;

verus! {

/// The value that starts at `pos`, with the position after it.
pub open spec fn parse_value(t: Seq<char>, pos: int, stringify: bool) -> Option<(RNodeView, int)>
    decreases t.len() - pos, 0nat,
{
    match lex_at(t, pos, stringify) {
        Err(_) => None,
        Ok((token, next)) => if !(pos < next <= t.len()) {
            None
        } else {
            match token {
                TokenView::Bool(b) => Some((RNodeView::Bool(b), next)),
                TokenView::Double(d) => Some((RNodeView::Double(d), next)),
                TokenView::Null => Some((RNodeView::Null, next)),
                TokenView::String(text) => Some((RNodeView::String(text), next)),
                TokenView::Symbol(symbol) => if symbol == seq!['['] {
                    parse_array(t, next, stringify, false, Seq::empty())
                } else if symbol == seq!['{'] {
                    parse_object(t, next, stringify, true, Seq::empty())
                } else {
                    None
                },
                TokenView::Char(_) => None,
            }
        },
    }
}

/// The array whose first `items` are read and whose rest starts at `pos`,
/// with the position after its `]`. After a comma a whole value must
/// follow. Otherwise `]` ends the array, a comma is noted, a scalar or an
/// array that `[` opens is the next item, and anything else fails.
pub open spec fn parse_array(
    t: Seq<char>,
    pos: int,
    stringify: bool,
    last_was_comma: bool,
    items: Seq<RNodeView>,
) -> Option<(RNodeView, int)>
    decreases t.len() - pos, 1nat,
{
    match lex_at(t, pos, stringify) {
        Err(_) => None,
        Ok((token, next)) => if !(pos < next <= t.len()) {
            None
        } else if last_was_comma {
            match parse_value(t, pos, stringify) {
                None => None,
                Some((item, after)) => if !(pos < after <= t.len()) {
                    None
                } else {
                    parse_array(t, after, stringify, false, items.push(item))
                },
            }
        } else {
            match token {
                TokenView::Symbol(symbol) => if symbol == seq![']'] {
                    Some((RNodeView::Array(items), next))
                } else if symbol == seq![','] {
                    parse_array(t, next, stringify, true, items)
                } else if symbol == seq!['['] {
                    match parse_array(t, next, stringify, false, Seq::empty()) {
                        None => None,
                        Some((item, after)) => if !(next <= after <= t.len()) {
                            None
                        } else {
                            parse_array(t, after, stringify, false, items.push(item))
                        },
                    }
                } else {
                    None
                },
                TokenView::Bool(b) => parse_array(
                    t,
                    next,
                    stringify,
                    false,
                    items.push(RNodeView::Bool(b)),
                ),
                TokenView::Double(d) => parse_array(
                    t,
                    next,
                    stringify,
                    false,
                    items.push(RNodeView::Double(d)),
                ),
                TokenView::Null => parse_array(t, next, stringify, false, items.push(RNodeView::Null)),
                TokenView::String(text) => parse_array(
                    t,
                    next,
                    stringify,
                    false,
                    items.push(RNodeView::String(text)),
                ),
                TokenView::Char(_) => None,
            }
        },
    }
}

/// The object whose first `entries` are read and whose rest starts at
/// `pos`, with the position after its `}`. Where a key is due, a string, a
/// `:` and a value must follow, or `}` ends the object; the value goes
/// under the key, in place of an earlier value of the same key. Where a
/// separator is due, `}` ends the object and a comma makes a key due.
pub open spec fn parse_object(
    t: Seq<char>,
    pos: int,
    stringify: bool,
    last_was_comma: bool,
    entries: Seq<(Seq<char>, RNodeView)>,
) -> Option<(RNodeView, int)>
    decreases t.len() - pos, 1nat,
{
    match lex_at(t, pos, stringify) {
        Err(_) => None,
        Ok((token, next)) => if !(pos < next <= t.len()) {
            None
        } else if !last_was_comma {
            match token {
                TokenView::Symbol(symbol) => if symbol == seq!['}'] {
                    Some((RNodeView::Object(entries), next))
                } else if symbol == seq![','] {
                    parse_object(t, next, stringify, true, entries)
                } else {
                    None
                },
                _ => None,
            }
        } else {
            match token {
                TokenView::String(key) => match lex_at(t, next, stringify) {
                    Ok((TokenView::Symbol(colon), value_at)) => if colon != seq![':'] || !(next
                        < value_at <= t.len()) {
                        None
                    } else {
                        match parse_value(t, value_at, stringify) {
                            None => None,
                            Some((value, after)) => if !(value_at < after <= t.len()) {
                                None
                            } else {
                                parse_object(
                                    t,
                                    after,
                                    stringify,
                                    false,
                                    put_entry_view(entries, key, value),
                                )
                            },
                        }
                    },
                    _ => None,
                },
                TokenView::Symbol(symbol) => if symbol == seq!['}'] {
                    Some((RNodeView::Object(entries), next))
                } else {
                    None
                },
                _ => None,
            }
        },
    }
}

/// The message for an input that holds a token but no value.
pub open spec fn no_value_message() -> Seq<char> {
    "Failed to parse token into an AST RNode"@
}

/// The document that starts at `pos` with the position after it, or the
/// message that says why there is none.
pub open spec fn parse_document(t: Seq<char>, pos: int, stringify: bool) -> Result<
    (RNodeView, int),
    Seq<char>,
> {
    match lex_at(t, pos, stringify) {
        Err(e) => Err(e.message_text()),
        Ok(_) => match parse_value(t, pos, stringify) {
            Some(found) => Ok(found),
            None => Err(no_value_message()),
        },
    }
}

/// Whether `token` is the symbol that consists of the character `ch`.
fn is_symbol_char(symbol: &String, ch: char) -> (r: bool)
    ensures
        r == (symbol@ == seq![ch]),
{
    let mut builder = StringBuilder::new(1);
    builder.append_char(ch);
    assert(builder@ =~= seq![ch]);
    *symbol == builder.to_string()
}

/// The parser: a lexer over the input.
pub struct Parser {
    lexer: Lexer,
}

impl Parser {
    /// The characters that the parser's lexer reads.
    pub closed spec fn text(&self) -> Seq<char> {
        self.lexer.text()
    }

    /// The input as it was given.
    pub closed spec fn input(&self) -> Seq<char> {
        self.lexer.input()
    }

    /// The position of the lexer's cursor.
    pub closed spec fn position(&self) -> nat {
        self.lexer.position()
    }

    /// Whether `\u` escapes are decoded.
    pub closed spec fn stringify(&self) -> bool {
        self.lexer.stringify()
    }

    pub fn new_copy(input: &String, stringify: bool) -> (r: Self)
        ensures
            r.input() == input@,
            r.text() == crate::parser::lexer::latin1(vstd::utf8::encode_utf8(input@)),
            r.position() == 0,
            r.stringify() == stringify,
    {
        Self { lexer: Lexer::new_copy(input, stringify) }
    }

    pub fn new_move(input: String, stringify: bool) -> (r: Self)
        ensures
            r.input() == input@,
            r.text() == crate::parser::lexer::latin1(vstd::utf8::encode_utf8(input@)),
            r.position() == 0,
            r.stringify() == stringify,
    {
        Self { lexer: Lexer::new_move(input, stringify) }
    }

    /// Parses one document from the cursor on. On success the cursor
    /// stands after the document; on failure it stays where it was.
    pub fn parse(&mut self) -> (r: Result<RNode, String>)
        ensures
            final(self).input() == old(self).input(),
            final(self).text() == old(self).text(),
            final(self).stringify() == old(self).stringify(),
            match parse_document(old(self).text(), old(self).position() as int, old(self).stringify()) {
                Ok((document, next)) => r matches Ok(node) && node@ == document && node.wf()
                    && final(self).position() == next,
                Err(message) => r matches Err(m) && m@ == message && final(self).position() == old(self).position(),
            },
    {
        let snapshot = self.lexer.snap();
        let token_result = self.lexer.next_token();
        match token_result {
            Ok(_token) => {
                self.lexer.restore(&snapshot);
                let opt_node_type = self.try_parse_type();
                match opt_node_type {
                    Some(node_type) => Ok(node_type),
                    None => {
                        self.lexer.restore(&snapshot);
                        Err("Failed to parse token into an AST RNode".to_string())
                    },
                }
            },
            Err(e) => Err(e.message()),
        }
    }

    /// Reads one value: a scalar token gives its node, `[` and `{` give
    /// an array and an object.
    fn try_parse_type(&mut self) -> (r: Option<RNode>)
        ensures
            final(self).lexer.input() == old(self).lexer.input(),
            final(self).lexer.text() == old(self).lexer.text(),
            final(self).lexer.stringify() == old(self).lexer.stringify(),
            match parse_value(
                old(self).lexer.text(),
                old(self).lexer.position() as int,
                old(self).lexer.stringify(),
            ) {
                Some((value, next)) => r matches Some(node) && node@ == value && node.wf() && final(
                    self
                ).lexer.position() == next && old(self).lexer.position() < next <= old(self).lexer.text().len(),
                None => r is None,
            },
        decreases old(self).lexer.text().len() - old(self).lexer.position(), 0nat,
    {
        let token_result = self.lexer.next_token();
        match token_result {
            Ok(token) => {
                match token {
                    Token::Bool(t) => Some(RNode::Bool(RNodeBool::new(t.get_value()))),
                    Token::Double(t) => Some(RNode::Double(RNodeDouble::new(t.into_value()))),
                    Token::Null(_) => Some(RNode::Null(RNodeNull::new())),
                    Token::String(t) => Some(RNode::String(RNodeString::new_move(t.into_value()))),
                    Token::Symbol(t) => {
                        if is_symbol_char(t.get_symbol(), '[') {
                            try_parse_array(self, Token::Symbol(t))
                        } else if is_symbol_char(t.get_symbol(), '{') {
                            try_parse_object(self, Token::Symbol(t))
                        } else {
                            None
                        }
                    },
                    Token::Char(_) => None,
                }
            },
            Err(_) => None,
        }
    }
}

/// Reads the rest of an array whose `[` is `token_in`.
fn try_parse_array(parser: &mut Parser, token_in: Token) -> (r: Option<RNode>)
    ensures
        final(parser).lexer.input() == old(parser).lexer.input(),
        final(parser).lexer.text() == old(parser).lexer.text(),
        final(parser).lexer.stringify() == old(parser).lexer.stringify(),
        token_in@ != TokenView::Symbol(seq!['[']) ==> r is None,
        token_in@ == TokenView::Symbol(seq!['[']) ==> match parse_array(
            old(parser).lexer.text(),
            old(parser).lexer.position() as int,
            old(parser).lexer.stringify(),
            false,
            Seq::empty(),
        ) {
            Some((value, next)) => r matches Some(node) && node@ == value && node.wf() && final(
                parser
            ).lexer.position() == next && old(parser).lexer.position() < next <= old(parser).lexer.text().len(),
            None => r is None,
        },
    decreases old(parser).lexer.text().len() - old(parser).lexer.position(), 1nat,
{
    match token_in {
        Token::Symbol(t) => {
            if !is_symbol_char(t.get_symbol(), '[') {
                return None;
            }
        },
        _ => {
            return None;
        },
    }
    let ghost text = parser.lexer.text();
    let ghost stringify = parser.lexer.stringify();
    let ghost start = parser.lexer.position() as int;
    let mut last_was_comma = false;
    let mut nodes: Vec<RNode> = Vec::new();
    assert(nodes_view(nodes@) =~= Seq::empty());
    loop
        invariant
            parser.lexer.input() == old(parser).lexer.input(),
            parser.lexer.text() == text,
            parser.lexer.stringify() == stringify,
            text == old(parser).lexer.text(),
            stringify == old(parser).lexer.stringify(),
            start == old(parser).lexer.position(),
            start <= parser.lexer.position(),
            token_in@ == TokenView::Symbol(seq!['[']),
            forall|i: int| 0 <= i < nodes@.len() ==> node_ordered(#[trigger] nodes@[i]),
            parse_array(text, start, stringify, false, Seq::empty()) == parse_array(
                text,
                parser.lexer.position() as int,
                stringify,
                last_was_comma,
                nodes_view(nodes@),
            ),
        decreases text.len() - parser.lexer.position(),
    {
        let ghost here = parser.lexer.position() as int;
        let ghost items = nodes_view(nodes@);
        let snapshot = parser.lexer.snap();
        let peek_token_result = parser.lexer.next_token();
        match peek_token_result {
            Ok(peek_token) => {
                if last_was_comma {
                    last_was_comma = false;
                    parser.lexer.restore(&snapshot);
                    let opt_type_node = parser.try_parse_type();
                    match opt_type_node {
                        Some(type_node) => {
                            nodes.push(type_node);
                            assert(nodes_view(nodes@) =~= items.push(type_node@));
                        },
                        None => {
                            return None;
                        },
                    }
                } else {
                    match peek_token {
                        Token::Symbol(t) => {
                            if is_symbol_char(t.get_symbol(), ']') {
                                let node = RNodeArray::new(nodes);
                                proof {
                                    lemma_array_view(node);
                                    lemma_nodes_ordered(node.arr@, node.arr@.len());
                                }
                                return Some(RNode::Array(node));
                            } else if is_symbol_char(t.get_symbol(), ',') {
                                last_was_comma = true;
                            } else if is_symbol_char(t.get_symbol(), '[') {
                                let opt_array_type = try_parse_array(parser, Token::Symbol(t));
                                match opt_array_type {
                                    Some(array_type) => {
                                        nodes.push(array_type);
                                        assert(nodes_view(nodes@) =~= items.push(array_type@));
                                    },
                                    None => {
                                        return None;
                                    },
                                }
                            } else {
                                return None;
                            }
                        },
                        Token::Bool(t) => {
                            let node = RNode::Bool(RNodeBool::new(t.get_value()));
                            nodes.push(node);
                            assert(nodes_view(nodes@) =~= items.push(node@));
                        },
                        Token::Double(t) => {
                            let node = RNode::Double(RNodeDouble::new(t.into_value()));
                            nodes.push(node);
                            assert(nodes_view(nodes@) =~= items.push(node@));
                        },
                        Token::Null(_) => {
                            let node = RNode::Null(RNodeNull::new());
                            nodes.push(node);
                            assert(nodes_view(nodes@) =~= items.push(node@));
                        },
                        Token::String(t) => {
                            let node = RNode::String(RNodeString::new_move(t.into_value()));
                            nodes.push(node);
                            assert(nodes_view(nodes@) =~= items.push(node@));
                        },
                        Token::Char(_) => {
                            return None;
                        },
                    }
                }
            },
            Err(_) => {
                return None;
            },
        }
    }
}

/// Reads the rest of an object whose `{` is `token_in`.
fn try_parse_object(parser: &mut Parser, token_in: Token) -> (r: Option<RNode>)
    ensures
        final(parser).lexer.input() == old(parser).lexer.input(),
        final(parser).lexer.text() == old(parser).lexer.text(),
        final(parser).lexer.stringify() == old(parser).lexer.stringify(),
        token_in@ != TokenView::Symbol(seq!['{']) ==> r is None,
        token_in@ == TokenView::Symbol(seq!['{']) ==> match parse_object(
            old(parser).lexer.text(),
            old(parser).lexer.position() as int,
            old(parser).lexer.stringify(),
            true,
            Seq::empty(),
        ) {
            Some((value, next)) => r matches Some(node) && node@ == value && node.wf() && final(
                parser
            ).lexer.position() == next && old(parser).lexer.position() < next <= old(parser).lexer.text().len(),
            None => r is None,
        },
    decreases old(parser).lexer.text().len() - old(parser).lexer.position(), 1nat,
{
    match token_in {
        Token::Symbol(t) => {
            if !is_symbol_char(t.get_symbol(), '{') {
                return None;
            }
        },
        _ => {
            return None;
        },
    }
    let ghost text = parser.lexer.text();
    let ghost stringify = parser.lexer.stringify();
    let ghost start = parser.lexer.position() as int;
    let mut last_was_comma: bool = true;
    let mut nodes = RNodeObject::new(Vec::new());
    assert(entries_view(nodes.map@) =~= Seq::empty());
    loop
        invariant
            parser.lexer.input() == old(parser).lexer.input(),
            parser.lexer.text() == text,
            parser.lexer.stringify() == stringify,
            text == old(parser).lexer.text(),
            stringify == old(parser).lexer.stringify(),
            start == old(parser).lexer.position(),
            start <= parser.lexer.position(),
            token_in@ == TokenView::Symbol(seq!['{']),
            nodes.wf(),
            forall|i: int| 0 <= i < nodes.map@.len() ==> node_ordered((#[trigger] nodes.map@[i]).1),
            parse_object(text, start, stringify, true, Seq::empty()) == parse_object(
                text,
                parser.lexer.position() as int,
                stringify,
                last_was_comma,
                entries_view(nodes.map@),
            ),
        decreases text.len() - parser.lexer.position(),
    {
        let ghost entries = entries_view(nodes.map@);
        let opt_peek_token = parser.lexer.next_token();
        match opt_peek_token {
            Ok(peek_token) => {
                if !last_was_comma {
                    last_was_comma = true;
                    match peek_token {
                        Token::Symbol(t) => {
                            if is_symbol_char(t.get_symbol(), '}') {
                                proof {
                                    lemma_object_view(nodes);
                                    lemma_entries_ordered(nodes.map@, nodes.map@.len());
                                }
                                return Some(RNode::Object(nodes));
                            } else if !is_symbol_char(t.get_symbol(), ',') {
                                return None;
                            }
                        },
                        _ => {
                            return None;
                        },
                    }
                } else {
                    last_was_comma = false;
                    match peek_token {
                        Token::String(t) => {
                            let key = t.into_value();
                            let colon_result = parser.lexer.next_token();
                            match colon_result {
                                Ok(Token::Symbol(colon)) => {
                                    if !is_symbol_char(colon.get_symbol(), ':') {
                                        return None;
                                    }
                                },
                                _ => {
                                    return None;
                                },
                            }
                            let opt_node_type = parser.try_parse_type();
                            match opt_node_type {
                                Some(node_type) => {
                                    proof {
                                        lemma_put_entry_view(nodes.map@, key, node_type);
                                        lemma_insert_position(nodes.map@, key@, 0);
                                    }
                                    nodes = nodes.add_move(key, node_type);
                                },
                                None => {
                                    return None;
                                },
                            }
                        },
                        Token::Symbol(t) => {
                            if is_symbol_char(t.get_symbol(), '}') {
                                proof {
                                    lemma_object_view(nodes);
                                    lemma_entries_ordered(nodes.map@, nodes.map@.len());
                                }
                                return Some(RNode::Object(nodes));
                            }
                            return None;
                        },
                        _ => {
                            return None;
                        },
                    }
                }
            },
            Err(_) => {
                return None;
            },
        }
    }
}

} // verus!
