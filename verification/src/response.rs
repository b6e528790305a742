//! The reply encoder: serializes status and integer replies into an
//! outbound byte sink that the connection layer drains and writes to the
//! transport.

use crate::decimal::dec_digits;
use crate::decimal::format_u64;
use crate::wire::TERM_FIRST;
use crate::wire::TERM_SECOND;
use vstd::prelude::*;

verus! {

/// The two-byte line terminator.
pub open spec fn terminator() -> Seq<u8> {
    seq![TERM_FIRST, TERM_SECOND]
}

/// The fixed status reply `+OK` with its terminator.
pub open spec fn ok_reply() -> Seq<u8> {
    seq![43u8, 79u8, 75u8] + terminator()
}

/// Signed decimal digit bytes: a minus sign before the magnitude for
/// negative values.
pub open spec fn signed_decimal(n: int) -> Seq<u8> {
    if n < 0 {
        seq![45u8] + dec_digits(-n)
    } else {
        dec_digits(n)
    }
}

/// The integer reply `:<signed decimal>` with its terminator.
pub open spec fn integer_reply(n: int) -> Seq<u8> {
    seq![58u8] + signed_decimal(n) + terminator()
}

/// The reply encoder.  `sink` buffers the outbound bytes; `nesting` is
/// reserved for structured replies, which are an unimplemented extension
/// point, and no completed behavior reads it.
pub struct Response {
    sink: Vec<u8>,
    nesting: Vec<i32>,
}

impl Response {
    /// Everything written since the encoder was created or last drained.
    pub closed spec fn written(self) -> Seq<u8> {
        self.sink@
    }

    pub fn new() -> (r: Response)
        ensures
            r.written() == Seq::<u8>::empty(),
    {
        Response { sink: Vec::new(), nesting: Vec::new() }
    }

    /// Append the status reply for success.
    pub fn ok(&mut self)
        ensures
            final(self).written() == old(self).written() + ok_reply(),
    {
        self.sink.push(43);
        self.sink.push(79);
        self.sink.push(75);
        self.sink.push(TERM_FIRST);
        self.sink.push(TERM_SECOND);
        proof {
            assert(self.sink@ =~= old(self).sink@ + ok_reply());
        }
    }

    /// Append the integer reply for zero.
    pub fn zero(&mut self)
        ensures
            final(self).written() == old(self).written() + integer_reply(0),
    {
        self.sink.push(58);
        self.sink.push(48);
        self.sink.push(TERM_FIRST);
        self.sink.push(TERM_SECOND);
        proof {
            assert(self.sink@ =~= old(self).sink@ + integer_reply(0));
        }
    }

    /// Append the integer reply for one.
    pub fn one(&mut self)
        ensures
            final(self).written() == old(self).written() + integer_reply(1),
    {
        self.sink.push(58);
        self.sink.push(49);
        self.sink.push(TERM_FIRST);
        self.sink.push(TERM_SECOND);
        proof {
            assert(self.sink@ =~= old(self).sink@ + integer_reply(1));
        }
    }

    /// Append the decimal digits of `val` and the terminator.
    fn write_decimal(&mut self, val: u64)
        ensures
            final(self).written() == old(self).written() + dec_digits(val as int) + terminator(),
    {
        let mut digits = format_u64(val);
        self.sink.append(&mut digits);
        self.sink.push(TERM_FIRST);
        self.sink.push(TERM_SECOND);
        proof {
            assert(self.sink@ =~= old(self).sink@ + dec_digits(val as int) + terminator());
        }
    }

    /// Append the integer reply for `number`: zero and one take the fixed
    /// fast paths, every other value the general decimal path, with
    /// byte-identical output either way.
    pub fn number(&mut self, number: i32)
        ensures
            final(self).written() == old(self).written() + integer_reply(number as int),
    {
        if number == 0 {
            self.zero();
        } else if number == 1 {
            self.one();
        } else {
            self.sink.push(58);
            if number < 0 {
                self.sink.push(45);
                let magnitude: u64 = (-(number as i64)) as u64;
                self.write_decimal(magnitude);
                proof {
                    assert(self.sink@ =~= old(self).sink@ + integer_reply(number as int));
                }
            } else {
                self.write_decimal(number as u64);
                proof {
                    assert(self.sink@ =~= old(self).sink@ + integer_reply(number as int));
                }
            }
        }
    }

    /// Hand the buffered reply bytes out and leave the sink empty.
    pub fn take_output(&mut self) -> (r: Vec<u8>)
        ensures
            r@ == old(self).written(),
            final(self).written() == Seq::<u8>::empty(),
    {
        let mut out: Vec<u8> = Vec::new();
        core::mem::swap(&mut out, &mut self.sink);
        out
    }
}

} // verus!
