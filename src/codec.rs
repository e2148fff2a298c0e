//! Lossless compression of byte buffers, through the Snappy raw format.
use vstd::prelude::*;

verus! {

/// What the Snappy raw encoder produces for the given bytes.
pub uninterp spec fn snappy_of(b: Seq<u8>) -> Seq<u8>;

/// Whether `n` bytes are few enough for the raw encoder: its bound on the
/// compressed size, `32 + n + n / 6`, must stay within `u32`.
pub open spec fn fits_snappy(n: int) -> bool {
    32 + n + n / 6 <= 0xffff_ffff
}

/// Relies on `snap::Encoder::compress_vec`: it fails only when
/// `max_compress_len` of the input length is zero, and its output depends on
/// the input alone.
#[verifier::external_body]
fn snappy_compress(input: &[u8]) -> (r: Option<Vec<u8>>)
    requires
        fits_snappy(input@.len() as int),
    ensures
        r is Some,
        r is Some ==> r->0@ == snappy_of(input@),
{
    snap::Encoder::new().compress_vec(input).ok()
}

/// Relies on `snap::Decoder::decompress_vec`: what the raw encoder produced
/// decompresses to the bytes it was given.
#[verifier::external_body]
fn snappy_decompress(input: &[u8]) -> (r: Option<Vec<u8>>)
    ensures
        forall|b: Seq<u8>| #[trigger] snappy_of(b) == input@ ==> (r is Some && r->0@ == b),
{
    snap::Decoder::new().decompress_vec(input).ok()
}

/// A byte buffer held in compressed form only.
pub struct Compressed {
    bytes: Vec<u8>,
    raw: Ghost<Seq<u8>>,
}

impl Compressed {
    #[verifier::type_invariant]
    spec fn inv(&self) -> bool {
        self.bytes@ == snappy_of(self.raw@)
    }

    /// The bytes this buffer decompresses to.
    pub closed spec fn raw(&self) -> Seq<u8> {
        self.raw@
    }

    /// Compresses a copy of `input`.
    pub fn from(input: &[u8]) -> (r: Compressed)
        requires
            fits_snappy(input@.len() as int),
        ensures
            r.raw() == input@,
    {
        match snappy_compress(input) {
            Some(bytes) => Compressed { bytes, raw: Ghost(input@) },
            None => {
                proof {
                    assert(false);
                }
                Compressed { bytes: Vec::new(), raw: Ghost(snappy_of(Seq::empty())) }
            },
        }
    }

    /// The bytes that were compressed, restored exactly.
    pub fn decompress(&self) -> (r: Vec<u8>)
        ensures
            r@ == self.raw(),
    {
        proof {
            use_type_invariant(self);
        }
        match snappy_decompress(self.bytes.as_slice()) {
            Some(v) => v,
            None => {
                proof {
                    assert(snappy_of(self.raw@) == self.bytes@);
                }
                Vec::new()
            },
        }
    }

    /// The size of the compressed form, in bytes.
    pub fn compressed_len(&self) -> (r: usize)
        ensures
            r == snappy_of(self.raw()).len(),
    {
        proof {
            use_type_invariant(self);
        }
        self.bytes.len()
    }
}

} // verus!
