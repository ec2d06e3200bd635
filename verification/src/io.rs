//! Byte I/O capability traits.
//!
//! These traits describe the smallest surface a byte source or sink
//! must offer.  Beyond the bound that a transfer never claims more
//! bytes than the buffer holds, what a concrete stream does is that
//! stream's business.

use vstd::prelude::*;

use vstd::math::min;
use vstd::slice::slice_subrange;

verus! {

/// Read bytes from a source.
pub trait Read {
    type Error;

    /// Pulls some bytes into `buf`, returning how many were read.
    fn read(&mut self, buf: &mut [u8]) -> (r: Result<usize, Self::Error>)
        ensures
            r matches Ok(n) ==> n <= final(buf)@.len(),
    ;
}

/// Write bytes to a sink.
pub trait Write {
    type Error;

    /// Writes some prefix of `buf`, returning how many bytes were taken.
    fn write(&mut self, buf: &[u8]) -> (r: Result<usize, Self::Error>)
        ensures
            r matches Ok(n) ==> n <= buf@.len(),
    ;

    /// Flushes buffered data, if any.
    fn flush(&mut self) -> Result<(), Self::Error>;

    /// Writes the whole of `buf`, or reports the first error.
    fn write_all(&mut self, buf: &[u8]) -> Result<(), Self::Error>;
}

impl Read for &[u8] {
    type Error = core::convert::Infallible;

    /// Reads from the front of the slice and advances it past the
    /// bytes read.  Never fails; bytes of `buf` past the count are
    /// untouched.
    fn read(&mut self, buf: &mut [u8]) -> (r: Result<usize, Self::Error>)
        ensures
            r is Ok,
            r matches Ok(n) ==> {
                &&& n == min(old(buf)@.len() as int, old(self)@.len() as int)
                &&& final(buf)@.len() == old(buf)@.len()
                &&& final(buf)@.take(n as int) == old(self)@.take(n as int)
                &&& final(buf)@.skip(n as int) == old(buf)@.skip(n as int)
                &&& final(self)@ == old(self)@.skip(n as int)
            },
    {
        let amt: usize = if buf.len() < self.len() {
            buf.len()
        } else {
            self.len()
        };
        let mut k: usize = 0;
        while k < amt
            invariant
                k <= amt,
                amt <= buf@.len(),
                amt <= self@.len(),
                buf@.len() == old(buf)@.len(),
                self@ == old(self)@,
                forall|i: int| 0 <= i < k ==> buf@[i] == self@[i],
                forall|i: int| k <= i < buf@.len() ==> buf@[i] == old(buf)@[i],
            decreases amt - k,
        {
            let b = self[k];
            buf[k] = b;
            k += 1;
        }
        let rest = slice_subrange(*self, amt, self.len());
        *self = rest;
        proof {
            assert(buf@.take(amt as int) =~= old(self)@.take(amt as int));
            assert(buf@.skip(amt as int) =~= old(buf)@.skip(amt as int));
        }
        Ok(amt)
    }
}

/// Copies the longest prefix of `data` that fits into the front of
/// `dest` and advances `dest` past it, returning how many bytes moved.
fn slice_write(dest: &mut &mut [u8], data: &[u8]) -> (n: usize)
    ensures
        n == min(old(dest)@.len() as int, data@.len() as int),
        final(dest)@ == old(dest)@.skip(n as int),
{
    let amt: usize = if data.len() < dest.len() {
        data.len()
    } else {
        dest.len()
    };
    let mut tmp: &mut [u8] = &mut [];
    core::mem::swap(dest, &mut tmp);
    let (a, b) = <[u8]>::split_at_mut(tmp, amt);
    let mut k: usize = 0;
    while k < amt
        invariant
            k <= amt,
            amt <= data@.len(),
            a@.len() == amt,
        decreases amt - k,
    {
        let x = data[k];
        a[k] = x;
        k += 1;
    }
    *dest = b;
    amt
}

impl Write for &mut [u8] {
    type Error = core::convert::Infallible;

    /// Writes into the front of the slice and advances it past the
    /// bytes written.  Never fails; a full slice takes zero bytes.
    fn write(&mut self, buf: &[u8]) -> (r: Result<usize, Self::Error>)
        ensures
            r is Ok,
            r matches Ok(n) ==> {
                &&& n <= buf@.len()
                &&& n == min(old(self)@.len() as int, buf@.len() as int)
                &&& final(self)@ == old(self)@.skip(n as int)
            },
    {
        Ok(slice_write(self, buf))
    }

    fn flush(&mut self) -> (r: Result<(), Self::Error>)
        ensures
            r is Ok,
            final(self)@ == old(self)@,
    {
        Ok(())
    }

    /// Writes as much of `buf` as fits and reports success either way:
    /// bytes beyond the remaining room are dropped, not reported.
    fn write_all(&mut self, buf: &[u8]) -> (r: Result<(), Self::Error>)
        ensures
            r is Ok,
            final(self)@ == old(self)@.skip(min(buf@.len() as int, old(self)@.len() as int)),
    {
        let _taken = slice_write(self, buf);
        Ok(())
    }
}

} // verus!
