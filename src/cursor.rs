//! A forward-only, bounds-checked cursor over a borrowed byte buffer.
use vstd::prelude::*;

use crate::Error;

verus! {

/// Reads a borrowed buffer from front to back. Every read either fails or
/// advances past exactly the bytes it hands out; bytes handed out are views
/// into the underlying buffer, not copies.
pub struct Reader<'a> {
    rest: &'a [u8],
}

impl<'a> View for Reader<'a> {
    type V = Seq<u8>;

    /// The bytes not read yet.
    closed spec fn view(&self) -> Seq<u8> {
        self.rest@
    }
}

impl<'a> Reader<'a> {
    /// A reader positioned at the start of `input`.
    pub fn new(input: &'a [u8]) -> (r: Reader<'a>)
        ensures
            r@ == input@,
    {
        Reader { rest: input }
    }

    /// Whether every byte has been read.
    pub fn at_end(&self) -> (r: bool)
        ensures
            r == (self@.len() == 0),
    {
        self.rest.len() == 0
    }

    /// The bytes not read yet, as a view into the underlying buffer.
    pub fn remaining(&self) -> (r: &'a [u8])
        ensures
            r@ == self@,
    {
        self.rest
    }

    /// Reads one byte; fails with `UnexpectedEnd` when none is left.
    pub fn read_byte(&mut self) -> (r: Result<u8, Error>)
        ensures
            old(self)@.len() == 0 ==> r == Err::<u8, Error>(Error::UnexpectedEnd) && final(self)@
                == old(self)@,
            old(self)@.len() > 0 ==> r == Ok::<u8, Error>(old(self)@[0]) && final(self)@ == old(
                self,
            )@.skip(1),
    {
        if self.rest.len() == 0 {
            return Err(Error::UnexpectedEnd);
        }
        let b = self.rest[0];
        self.rest = vstd::slice::slice_subrange(self.rest, 1, self.rest.len());
        Ok(b)
    }

    /// Hands out the next `n` bytes and moves past them; fails with
    /// `UnexpectedEnd`, reading nothing, when fewer than `n` are left.
    pub fn read_bytes(&mut self, n: usize) -> (r: Result<&'a [u8], Error>)
        ensures
            n > old(self)@.len() ==> r == Err::<&'a [u8], Error>(Error::UnexpectedEnd)
                && final(self)@ == old(self)@,
            n <= old(self)@.len() ==> r is Ok && r->Ok_0@ == old(self)@.take(n as int)
                && final(self)@ == old(self)@.skip(n as int),
    {
        if n > self.rest.len() {
            return Err(Error::UnexpectedEnd);
        }
        let taken = vstd::slice::slice_subrange(self.rest, 0, n);
        self.rest = vstd::slice::slice_subrange(self.rest, n, self.rest.len());
        Ok(taken)
    }

    /// Ends the reading of a buffer or of a nested element: succeeds when
    /// every byte was read, and fails with `incomplete` otherwise.
    pub fn complete(self, incomplete: Error) -> (r: Result<(), Error>)
        ensures
            r == if self@.len() == 0 {
                Ok::<(), Error>(())
            } else {
                Err(incomplete)
            },
    {
        if self.rest.len() == 0 {
            Ok(())
        } else {
            Err(incomplete)
        }
    }
}

} // verus!
