//! An append-only text buffer of characters.

use vstd::prelude::*;
use vstd::std_specs::iter::IteratorSpec;

verus! {

/// Appends one character to a `String` with `String::push`: the text afterwards
/// is the text before followed by `c`.
#[verifier::external_body]
pub(crate) fn push_char(s: &mut String, c: char)
    ensures
        final(s)@ == old(s)@.push(c),
{
    s.push(c)
}

/// Reads how many characters a vector has room for with `Vec::capacity`; the
/// standard library promises that it is never below the length.
#[verifier::external_body]
fn vec_capacity(v: &Vec<char>) -> (r: usize)
    ensures
        r >= v@.len(),
{
    v.capacity()
}

/// A growable buffer of characters that text is appended to and finally
/// turned into a `String`.
pub struct StringBuilder {
    buffer: Vec<char>,
}

impl View for StringBuilder {
    type V = Seq<char>;

    closed spec fn view(&self) -> Seq<char> {
        self.buffer@
    }
}

impl StringBuilder {
    /// An empty buffer with room for at least `capacity` characters.
    pub fn new(capacity: usize) -> (r: Self)
        ensures
            r@ == Seq::<char>::empty(),
    {
        Self { buffer: Vec::with_capacity(capacity) }
    }

    /// The character at `index`, if there is one.
    #[inline]
    pub fn get(&self, index: usize) -> (r: Option<&char>)
        ensures
            index < self@.len() ==> r == Some(&self@[index as int]),
            index >= self@.len() ==> r is None,
    {
        if index < self.buffer.len() {
            Some(&self.buffer[index])
        } else {
            None
        }
    }

    /// The number of characters the buffer can hold before it grows.
    #[inline]
    pub fn get_capacity(&self) -> (r: usize)
        ensures
            r >= self@.len(),
    {
        vec_capacity(&self.buffer)
    }

    #[inline]
    pub fn empty(&self) -> (r: bool)
        ensures
            r == (self@.len() == 0),
    {
        self.buffer.len() == 0
    }

    #[inline]
    pub fn clear(&mut self)
        ensures
            final(self)@ == Seq::<char>::empty(),
    {
        self.buffer.clear();
    }

    #[inline]
    pub fn len(&self) -> (r: usize)
        ensures
            r == self@.len(),
    {
        self.buffer.len()
    }

    #[inline]
    pub fn append_char(&mut self, value: char)
        ensures
            final(self)@ == old(self)@.push(value),
    {
        self.buffer.push(value);
    }

    pub fn append_chars(&mut self, value: &Vec<char>)
        ensures
            final(self)@ == old(self)@ + value@,
    {
        let mut i: usize = 0;
        while i < value.len()
            invariant
                i <= value@.len(),
                self@ == old(self)@ + value@.subrange(0, i as int),
            decreases value@.len() - i,
        {
            self.buffer.push(value[i]);
            i += 1;
        }
        assert(value@.subrange(0, i as int) == value@);
    }

    pub fn append_str(&mut self, value: &str)
        ensures
            final(self)@ == old(self)@ + value@,
    {
        let ghost start = self@;
        let mut chars = value.chars();
        let ghost mut taken: Seq<char> = Seq::empty();
        loop
            invariant
                self@ == start + taken,
                taken + chars.remaining() == value@,
                chars.obeys_prophetic_iter_laws(),
                chars.decrease() is Some,
            ensures
                taken == value@,
            decreases chars.decrease()->0,
        {
            broadcast use vstd::string::group_string_axioms;
            let ghost before = chars;
            let next = chars.next();
            match next {
                Some(ch) => {
                    self.buffer.push(ch);
                    proof {
                        taken = taken.push(ch);
                        assert(taken + chars.remaining() =~= value@);
                    }
                },
                None => {
                    assert(taken + chars.remaining() =~= taken);
                    break;
                },
            }
        }
    }

    pub fn append_string(&mut self, value: &String)
        ensures
            final(self)@ == old(self)@ + value@,
    {
        self.append_str(value.as_str());
    }

    #[inline]
    pub fn as_slice(&self) -> (r: &[char])
        ensures
            r@ == self@,
    {
        self.buffer.as_slice()
    }

    pub fn to_string(&self) -> (r: String)
        ensures
            r@ == self@,
    {
        let mut string = String::new();
        let mut i: usize = 0;
        while i < self.buffer.len()
            invariant
                i <= self.buffer@.len(),
                string@ == self.buffer@.subrange(0, i as int),
            decreases self.buffer@.len() - i,
        {
            push_char(&mut string, self.buffer[i]);
            i += 1;
        }
        assert(self.buffer@.subrange(0, i as int) == self.buffer@);
        string
    }
}

} // verus!
