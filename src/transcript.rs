//! The Fiat–Shamir transcript: reads field elements from the proof bytes,
//! absorbs them, and squeezes challenges from a SHA-256 digest of what was
//! absorbed.
use crate::error::Error;
use crate::field::{p, MODULUS};
use sha2::Digest;
use vstd::prelude::*;

verus! {

/// The byte appended to the absorbed bytes before each squeeze.
pub const SQUEEZE_TAG: u8 = 0x5c;

/// The SHA-256 digest of `data`.
pub uninterp spec fn sha256_of(data: Seq<u8>) -> Seq<u8>;

/// Relies on `sha2::Sha256::digest`: the 32-byte SHA-256 digest of `data`,
/// a function of `data` alone.
#[verifier::external_body]
fn sha256(data: &Vec<u8>) -> (r: Vec<u8>)
    ensures
        r@ == sha256_of(data@),
        r@.len() == 32,
{
    sha2::Sha256::digest(data.as_slice()).to_vec()
}

/// The little-endian integer held in `b[off..off + 8]`.
pub open spec fn le_u64_at(b: Seq<u8>, off: int) -> int {
    b[off] as int + 0x100 * b[off + 1] as int + 0x10000 * b[off + 2] as int + 0x1000000 * b[off
        + 3] as int + 0x100000000 * b[off + 4] as int + 0x10000000000 * b[off + 5] as int
        + 0x1000000000000 * b[off + 6] as int + 0x100000000000000 * b[off + 7] as int
}

/// The eight little-endian bytes of `x`.
pub open spec fn le_bytes(x: u64) -> Seq<u8> {
    seq![
        (x % 0x100) as u8,
        ((x / 0x100) % 0x100) as u8,
        ((x / 0x10000) % 0x100) as u8,
        ((x / 0x1000000) % 0x100) as u8,
        ((x / 0x100000000) % 0x100) as u8,
        ((x / 0x10000000000) % 0x100) as u8,
        ((x / 0x1000000000000) % 0x100) as u8,
        ((x / 0x100000000000000) % 0x100) as u8,
    ]
}

/// The next `count` elements from `pos` are present and canonical.
pub open spec fn elements_ok(data: Seq<u8>, pos: int, count: int) -> bool {
    &&& 0 <= pos
    &&& pos + 8 * count <= data.len()
    &&& forall|j: int| 0 <= j < count ==> #[trigger] le_u64_at(data, pos + 8 * j) < p()
}

/// The digest that a squeeze on `state` produces; it becomes the next state.
pub open spec fn squeeze_digest(state: Seq<u8>) -> Seq<u8> {
    sha256_of(state.push(SQUEEZE_TAG))
}

/// The challenge that a squeeze on `state` produces.
pub open spec fn challenge_spec(state: Seq<u8>) -> int {
    le_u64_at(squeeze_digest(state), 0) % p()
}

/// A reader over proof bytes with its absorbed state.
pub struct Transcript {
    /// The proof bytes.
    pub data: Vec<u8>,
    /// How many of them were read.
    pub pos: usize,
    /// What was absorbed since the last squeeze, after that squeeze's digest.
    pub state: Vec<u8>,
}

impl Transcript {
    /// A transcript at the start of `data`, with nothing absorbed.
    pub fn new(data: Vec<u8>) -> (r: Transcript)
        ensures
            r.data@ == data@,
            r.pos == 0,
            r.state@ == Seq::<u8>::empty(),
    {
        Transcript { data, pos: 0, state: Vec::new() }
    }

    /// Absorbs a scalar that the verifier knows, without reading it.
    pub fn common_scalar(&mut self, s: u64)
        ensures
            final(self).data@ == old(self).data@,
            final(self).pos == old(self).pos,
            final(self).state@ == old(self).state@ + le_bytes(s),
    {
        self.state.push((s % 0x100) as u8);
        self.state.push(((s / 0x100) % 0x100) as u8);
        self.state.push(((s / 0x10000) % 0x100) as u8);
        self.state.push(((s / 0x1000000) % 0x100) as u8);
        self.state.push(((s / 0x100000000) % 0x100) as u8);
        self.state.push(((s / 0x10000000000) % 0x100) as u8);
        self.state.push(((s / 0x1000000000000) % 0x100) as u8);
        self.state.push(((s / 0x100000000000000) % 0x100) as u8);
        assert(self.state@ =~= old(self).state@ + le_bytes(s));
    }

    /// Reads the next `count` elements, absorbing their bytes; fails, with
    /// the transcript unchanged, where they are missing or not canonical.
    pub fn read_n_scalars(&mut self, count: usize) -> (r: Result<Vec<u64>, Error>)
        ensures
            final(self).data@ == old(self).data@,
            r.is_ok() <==> elements_ok(old(self).data@, old(self).pos as int, count as int),
            r.is_ok() ==> {
                &&& r.unwrap().len() == count
                &&& forall|j: int| 0 <= j < count ==> #[trigger] r.unwrap()[j] < MODULUS
                &&& forall|j: int|
                    0 <= j < count ==> #[trigger] r.unwrap()[j] as int == le_u64_at(
                        old(self).data@,
                        old(self).pos + 8 * j,
                    )
                &&& final(self).pos == old(self).pos + 8 * count
                &&& final(self).state@ == old(self).state@ + old(self).data@.subrange(
                    old(self).pos as int,
                    old(self).pos + 8 * count,
                )
            },
            r.is_err() ==> r == Err::<Vec<u64>, Error>(Error::TranscriptError) && *final(self) == *old(
                self,
            ),
    {
        let pos = self.pos;
        let len = self.data.len();
        if pos > len || (len - pos) / 8 < count {
            return Err(Error::TranscriptError);
        }
        let mut out: Vec<u64> = Vec::new();
        let mut i: usize = 0;
        while i < count
            invariant
                pos + 8 * count <= len == self.data.len(),
                self.data@ == old(self).data@,
                self.pos == pos,
                self.state@ == old(self).state@,
                i <= count,
                out.len() == i,
                forall|j: int| 0 <= j < i ==> #[trigger] out[j] as int == le_u64_at(self.data@, pos + 8 * j),
                forall|j: int| 0 <= j < i ==> #[trigger] le_u64_at(self.data@, pos + 8 * j) < p(),
                forall|j: int| 0 <= j < i ==> #[trigger] out[j] < MODULUS,
            decreases count - i,
        {
            let off = pos + 8 * i;
            let v = self.data[off] as u64 + 0x100 * self.data[off + 1] as u64 + 0x10000
                * self.data[off + 2] as u64 + 0x1000000 * self.data[off + 3] as u64 + 0x100000000
                * self.data[off + 4] as u64 + 0x10000000000 * self.data[off + 5] as u64
                + 0x1000000000000 * self.data[off + 6] as u64 + 0x100000000000000 * self.data[off
                + 7] as u64;
            assert(v as int == le_u64_at(self.data@, pos + 8 * i));
            if v >= MODULUS {
                assert(!elements_ok(old(self).data@, pos as int, count as int)) by {
                    assert(le_u64_at(self.data@, pos + 8 * i) >= p());
                }
                return Err(Error::TranscriptError);
            }
            out.push(v);
            i = i + 1;
        }
        let end = pos + 8 * count;
        let mut k: usize = pos;
        while k < end
            invariant
                pos <= k <= end <= self.data.len(),
                self.data@ == old(self).data@,
                self.state@ == old(self).state@ + self.data@.subrange(pos as int, k as int),
            decreases end - k,
        {
            let b = self.data[k];
            self.state.push(b);
            k = k + 1;
            assert(self.state@ =~= old(self).state@ + self.data@.subrange(pos as int, k as int));
        }
        self.pos = end;
        Ok(out)
    }

    /// Reads the next scalar, absorbing its bytes.
    pub fn read_scalar(&mut self) -> (r: Result<u64, Error>)
        ensures
            final(self).data@ == old(self).data@,
            r.is_ok() <==> elements_ok(old(self).data@, old(self).pos as int, 1),
            r.is_ok() ==> {
                &&& r.unwrap() < MODULUS
                &&& r.unwrap() as int == le_u64_at(old(self).data@, old(self).pos as int)
                &&& final(self).pos == old(self).pos + 8
                &&& final(self).state@ == old(self).state@ + old(self).data@.subrange(
                    old(self).pos as int,
                    old(self).pos + 8,
                )
            },
            r.is_err() ==> r == Err::<u64, Error>(Error::TranscriptError) && *final(self) == *old(self),
    {
        match self.read_n_scalars(1) {
            Ok(v) => {
                assert(v[0] as int == le_u64_at(old(self).data@, old(self).pos + 8 * 0));
                Ok(v[0])
            },
            Err(e) => Err(e),
        }
    }

    /// Reads the next curve point, absorbing its bytes. A point is encoded
    /// by its discrete logarithm, as a canonical scalar.
    pub fn read_ec_point(&mut self) -> (r: Result<u64, Error>)
        ensures
            final(self).data@ == old(self).data@,
            r.is_ok() <==> elements_ok(old(self).data@, old(self).pos as int, 1),
            r.is_ok() ==> {
                &&& r.unwrap() < MODULUS
                &&& r.unwrap() as int == le_u64_at(old(self).data@, old(self).pos as int)
                &&& final(self).pos == old(self).pos + 8
                &&& final(self).state@ == old(self).state@ + old(self).data@.subrange(
                    old(self).pos as int,
                    old(self).pos + 8,
                )
            },
            r.is_err() ==> r == Err::<u64, Error>(Error::TranscriptError) && *final(self) == *old(self),
    {
        self.read_scalar()
    }

    /// Derives a challenge from everything absorbed; the digest becomes the
    /// new state, so every later challenge binds all earlier values.
    pub fn squeeze_challenge(&mut self) -> (r: u64)
        ensures
            final(self).data@ == old(self).data@,
            final(self).pos == old(self).pos,
            final(self).state@ == squeeze_digest(old(self).state@),
            r as int == challenge_spec(old(self).state@),
            r < MODULUS,
    {
        self.state.push(SQUEEZE_TAG);
        let d = sha256(&self.state);
        let v = d[0] as u64 + 0x100 * d[1] as u64 + 0x10000 * d[2] as u64 + 0x1000000 * d[3] as u64
            + 0x100000000 * d[4] as u64 + 0x10000000000 * d[5] as u64 + 0x1000000000000
            * d[6] as u64 + 0x100000000000000 * d[7] as u64;
        self.state = d;
        v % MODULUS
    }
}

} // verus!
