//! Cutting a stream of bytes into lines.

use crate::split::{lemma_first_line, lemma_no_end, split};
use vstd::prelude::*;

verus! {

/// The byte that ends a line.
pub const NEWLINE: u8 = 10;

/// What `String::from_utf8_lossy` makes of bytes.
pub uninterp spec fn lossy_text(bytes: Seq<u8>) -> Seq<char>;

/// `String::from_utf8_lossy`: the text of bytes, with a replacement character
/// for each part that is not UTF-8.
#[verifier::external_body]
pub(crate) fn lossy_string(bytes: &[u8]) -> (r: String)
    ensures
        r@ == lossy_text(bytes@),
{
    String::from_utf8_lossy(bytes).into_owned()
}

/// The text of the bytes of a line. Where there are none it is empty.
pub open spec fn line_text(bytes: Seq<u8>) -> Seq<char> {
    if bytes.len() == 0 {
        Seq::empty()
    } else {
        lossy_text(bytes)
    }
}

/// Bytes that arrive in pieces, and leave in lines. A character whose bytes
/// arrive in two pieces stays whole.
pub struct LineBuffer {
    bytes: Vec<u8>,
}

impl View for LineBuffer {
    type V = Seq<u8>;

    closed spec fn view(&self) -> Seq<u8> {
        self.bytes@
    }
}

impl LineBuffer {
    /// An empty buffer.
    pub fn new() -> (r: Self)
        ensures
            r@ == Seq::<u8>::empty(),
    {
        LineBuffer { bytes: Vec::new() }
    }

    /// Appends a piece.
    pub fn push(&mut self, chunk: &[u8])
        ensures
            final(self)@ == old(self)@ + chunk@,
    {
        let mut i: usize = 0;
        let ghost start = self@;
        while i < chunk.len()
            invariant
                i <= chunk@.len(),
                self@ == start + chunk@.take(i as int),
            decreases chunk@.len() - i,
        {
            let ghost before = self@;
            self.bytes.push(chunk[i]);
            i += 1;
            assert(self@ =~= before.push(chunk@[i - 1]));
            assert(start + chunk@.take(i as int) =~= (start + chunk@.take(i - 1)).push(
                chunk@[i - 1],
            ));
        }
        assert(chunk@.take(i as int) =~= chunk@);
    }

    /// Takes the first complete line, without its end.
    pub fn next_line(&mut self) -> (r: Option<String>)
        ensures
            match r {
                Some(line) => {
                    &&& split(old(self)@, NEWLINE).0.len() > 0
                    &&& line@ == line_text(split(old(self)@, NEWLINE).0[0])
                    &&& split(final(self)@, NEWLINE) == (
                        split(old(self)@, NEWLINE).0.skip(1),
                        split(old(self)@, NEWLINE).1,
                    )
                    &&& final(self)@.len() < old(self)@.len()
                },
                None => split(old(self)@, NEWLINE) == (Seq::<Seq<u8>>::empty(), old(self)@)
                    && final(self)@ == old(self)@,
            },
    {
        let ghost all = self@;
        let mut n: usize = 0;
        while n < self.bytes.len() && self.bytes[n] != NEWLINE
            invariant
                n <= self.bytes@.len(),
                self@ == all,
                forall|i: int| 0 <= i < n ==> all[i] != NEWLINE,
            decreases self.bytes@.len() - n,
        {
            n += 1;
        }
        if n == self.bytes.len() {
            proof {
                lemma_no_end(all, NEWLINE);
            }
            return None;
        }
        let mut rest = self.bytes.split_off(n + 1);
        std::mem::swap(&mut rest, &mut self.bytes);
        let _ = rest.pop();
        proof {
            lemma_first_line(all, n as int, NEWLINE);
            assert(rest@ =~= all.take(n as int));
            assert(self@ =~= all.skip(n + 1));
            let lines = split(all, NEWLINE).0;
            assert(lines[0] == all.take(n as int));
            assert(lines.skip(1) =~= split(self@, NEWLINE).0);
        }
        if rest.len() == 0 {
            Some(String::new())
        } else {
            Some(lossy_string(rest.as_slice()))
        }
    }

    /// Takes what is left behind the last complete line, if anything is.
    pub fn take_remaining(&mut self) -> (r: Option<String>)
        ensures
            final(self)@ == Seq::<u8>::empty(),
            match r {
                Some(text) => old(self)@.len() > 0 && text@ == line_text(old(self)@),
                None => old(self)@.len() == 0,
            },
    {
        if self.bytes.len() == 0 {
            assert(self@ =~= Seq::<u8>::empty());
            return None;
        }
        let mut bytes: Vec<u8> = Vec::new();
        std::mem::swap(&mut bytes, &mut self.bytes);
        Some(lossy_string(bytes.as_slice()))
    }
}

} // verus!
