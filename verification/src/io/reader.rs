//! The reader: holds a parser over a text and parses it.
//!
//! Reading a file or the standard input is left to the program; the reader
//! takes the text that was read.

use vstd::prelude::*;
use crate::parser::lexer::latin1;
use crate::parser::parser::Parser;
use crate::parser::parser::parse_document;
use crate::rnodes::rnode::RNode;

verus! {

/// A parser over an input, with the path the input came from.
pub struct RsonReader {
    parser: Parser,
    pub file_path: Option<String>,
}

impl RsonReader {
    /// The characters that the reader's parser reads.
    pub closed spec fn text(&self) -> Seq<char> {
        self.parser.text()
    }

    /// The position of the parser's cursor.
    pub closed spec fn position(&self) -> nat {
        self.parser.position()
    }

    /// Whether `\u` escapes are decoded.
    pub closed spec fn stringify(&self) -> bool {
        self.parser.stringify()
    }

    /// The path that the input came from, if it came from a file.
    pub closed spec fn path(&self) -> Option<String> {
        self.file_path
    }

    /// A reader of the text `input`, which was read from the file at `path`.
    pub fn from_text(input: String, path: Option<String>, stringify: bool) -> (r: Self)
        ensures
            r.text() == latin1(vstd::utf8::encode_utf8(input@)),
            r.position() == 0,
            r.stringify() == stringify,
            r.path() == path,
    {
        Self { parser: Parser::new_move(input, stringify), file_path: path }
    }

    /// A reader of a copy of the text `input`.
    pub fn from_literal(input: &String, stringify: bool) -> (r: Self)
        ensures
            r.text() == latin1(vstd::utf8::encode_utf8(input@)),
            r.position() == 0,
            r.stringify() == stringify,
            r.path() is None,
    {
        Self { parser: Parser::new_copy(input, stringify), file_path: None }
    }

    /// Parses one document from the cursor on, see [`Parser::parse`].
    pub fn parse(&mut self) -> (r: Result<RNode, String>)
        ensures
            final(self).text() == old(self).text(),
            final(self).stringify() == old(self).stringify(),
            final(self).path() == old(self).path(),
            match parse_document(old(self).text(), old(self).position() as int, old(self).stringify()) {
                Ok((document, next)) => r matches Ok(node) && node@ == document && node.wf() && final(
                    self
                ).position() == next,
                Err(message) => r matches Err(m) && m@ == message && final(self).position() == old(
                    self
                ).position(),
            },
    {
        self.parser.parse()
    }
}

} // verus!
