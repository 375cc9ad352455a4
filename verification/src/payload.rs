//! The payload of one datagram, held in a buffer of fixed capacity.

use vstd::prelude::*;
use crate::cursor::overwrite;
use crate::error::{LfcError, LfcRes};

verus! {

/// The largest number of payload bytes that one datagram carries.
pub const MAX_PAY_LEN: usize = 128;

/// At most [`MAX_PAY_LEN`] bytes of payload, together with their number.
///
/// The bytes are kept in a buffer of full capacity; only the first `len` of
/// them are the payload, and the rest is zero.
#[derive(Debug)]
pub struct Payload {
    len: usize,
    bytes: [u8; 128],
}

impl View for Payload {
    type V = Seq<u8>;

    /// The payload bytes, without the unused rest of the buffer.
    closed spec fn view(&self) -> Seq<u8> {
        self.bytes@.subrange(0, self.len as int)
    }
}

impl Payload {
    #[verifier::type_invariant]
    spec fn inv(self) -> bool {
        &&& self.len <= MAX_PAY_LEN
        &&& forall|i: int| self.len <= i < MAX_PAY_LEN ==> self.bytes@[i] == 0
    }

    /// Copies `src` into a payload, if it is short enough.
    pub fn from_slice(src: &[u8]) -> (res: Result<Payload, LfcError>)
        ensures
            match res {
                Ok(p) => src@.len() <= MAX_PAY_LEN && p@ == src@,
                Err(e) => src@.len() > MAX_PAY_LEN && e == LfcError(LfcRes::ErrNomem),
            },
    {
        let n: usize = src.len();
        if n > MAX_PAY_LEN {
            return Err(LfcError(LfcRes::ErrNomem));
        }
        let mut bytes: [u8; 128] = [0u8; 128];
        let mut i: usize = 0;
        while i < n
            invariant
                i <= n,
                n == src@.len(),
                n <= MAX_PAY_LEN,
                bytes@.subrange(0, i as int) == src@.subrange(0, i as int),
                forall|k: int| i <= k < MAX_PAY_LEN ==> bytes@[k] == 0,
            decreases n - i,
        {
            bytes[i] = src[i];
            i = i + 1;
            proof {
                assert(bytes@.subrange(0, i as int) =~= src@.subrange(0, i as int));
            }
        }
        proof {
            assert(src@.subrange(0, n as int) =~= src@);
        }
        Ok(Payload { len: n, bytes })
    }

    /// Returns the number of payload bytes.
    pub fn len(&self) -> (n: usize)
        ensures
            n == self@.len(),
            n <= MAX_PAY_LEN,
    {
        proof {
            use_type_invariant(self);
        }
        self.len
    }

    /// Returns the payload bytes.
    pub fn as_slice(&self) -> (bytes: &[u8])
        ensures
            bytes@ == self@,
    {
        proof {
            use_type_invariant(self);
        }
        vstd::slice::slice_subrange(self.bytes.as_slice(), 0, self.len)
    }

    /// Copies the payload to the front of `out`, if it fits there, and
    /// returns its length. The bytes of `out` behind it stay as they were.
    pub fn copy_to(&self, out: &mut [u8]) -> (res: Result<usize, LfcError>)
        ensures
            match res {
                Ok(n) => n == self@.len() && n <= old(out)@.len() && final(out)@ == overwrite(
                    old(out)@,
                    0,
                    self@,
                ),
                Err(e) => self@.len() > old(out)@.len() && e == LfcError(LfcRes::ErrNomem)
                    && final(out)@ == old(out)@,
            },
    {
        proof {
            use_type_invariant(self);
        }
        let n: usize = self.len;
        if n > out.len() {
            return Err(LfcError(LfcRes::ErrNomem));
        }
        let mut i: usize = 0;
        while i < n
            invariant
                i <= n,
                n == self.len,
                n <= MAX_PAY_LEN,
                n <= out.len(),
                out@ == overwrite(old(out)@, 0, self@.subrange(0, i as int)),
            decreases n - i,
        {
            out[i] = self.bytes[i];
            i = i + 1;
            proof {
                assert(out@ =~= overwrite(old(out)@, 0, self@.subrange(0, i as int)));
            }
        }
        proof {
            assert(self@.subrange(0, n as int) =~= self@);
        }
        Ok(n)
    }
}

impl Clone for Payload {
    /// The copy holds the same payload.
    fn clone(&self) -> (copy: Payload)
        ensures
            copy@ == self@,
    {
        proof {
            use_type_invariant(self);
        }
        Payload { len: self.len, bytes: self.bytes }
    }
}

} // verus!
