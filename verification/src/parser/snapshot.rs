//! A saved lexer position.

use vstd::prelude::*;
use crate::utils::string_utils::push_char;

verus! {

/// The decimal digits of `n`, most significant first.
pub open spec fn decimal_text(n: nat) -> Seq<char>
    decreases n,
{
    if n < 10 {
        seq![(48 + n) as char]
    } else {
        decimal_text(n / 10).push((48 + n % 10) as char)
    }
}

/// Writes `n` in decimal.
pub fn usize_to_string(n: usize) -> (r: String)
    ensures
        r@ == decimal_text(n as nat),
    decreases n,
{
    if n < 10 {
        let mut s = String::new();
        let d: u8 = (48 + n) as u8;
        push_char(&mut s, d as char);
        s
    } else {
        let mut s = usize_to_string(n / 10);
        let d: u8 = (48 + n % 10) as u8;
        push_char(&mut s, d as char);
        s
    }
}

/// A lexer position that the lexer can later be rewound to.
#[derive(Debug, Clone, Copy)]
pub struct Snapshot {
    start: usize,
}

impl View for Snapshot {
    type V = nat;

    closed spec fn view(&self) -> nat {
        self.start as nat
    }
}

impl Snapshot {
    pub fn new(start: usize) -> (r: Self)
        ensures
            r@ == start,
    {
        Self { start }
    }

    pub fn get_start_pos(&self) -> (r: usize)
        ensures
            r == self@,
    {
        self.start
    }

    /// The position in decimal.
    pub fn to_string(&self) -> (r: String)
        ensures
            r@ == decimal_text(self@),
    {
        usize_to_string(self.start)
    }
}

} // verus!
