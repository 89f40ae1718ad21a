//! Content fingerprints: streaming SHA-256 with a lowercase-hex digest, used
//! as the cross-run identity key of an image, and a small stable hash used
//! for ETag values.

use crate::strutil::push_char;
use sha2::Digest;
use vstd::prelude::*;
use vstd::slice::slice_subrange;

verus! {

/// What sha2's SHA-256 returns: the digest is a function of the input bytes
/// alone.
pub uninterp spec fn sha256_of(data: Seq<u8>) -> Seq<u8>;

/// Relies on sha2::Sha256 (through the Digest trait): the digest depends on
/// the input bytes alone and is 32 bytes long.
#[verifier::external_body]
fn sha256_digest(data: &[u8]) -> (r: Vec<u8>)
    ensures
        r@ == sha256_of(data@),
        r@.len() == 32,
{
    sha2::Sha256::digest(data).to_vec()
}

/// The lowercase hex digit for a value below 16.
pub open spec fn hex_digit(n: u8) -> char
    recommends
        n < 16,
{
    if n < 10 {
        (('0' as u8) + n) as char
    } else {
        (('a' as u8) + (n - 10)) as char
    }
}

/// The two lowercase hex digits of one byte, high nibble first.
pub open spec fn hex_byte(b: u8) -> Seq<char> {
    seq![hex_digit(b / 16), hex_digit(b % 16)]
}

/// The lowercase hex rendering of a byte sequence, two digits per byte.
pub open spec fn hex_of(data: Seq<u8>) -> Seq<char>
    decreases data.len(),
{
    if data.len() == 0 {
        Seq::empty()
    } else {
        hex_of(data.drop_last()) + hex_byte(data.last())
    }
}

/// The hex digest that the content hasher produces for the given bytes.
pub open spec fn sha256_hex_of(data: Seq<u8>) -> Seq<char> {
    hex_of(sha256_of(data))
}

/// Whether the character is a lowercase hex digit.
pub open spec fn is_hex_char(c: char) -> bool {
    ('0' <= c && c <= '9') || ('a' <= c && c <= 'f')
}

/// A hex rendering is two digits per byte, all of them lowercase hex.
pub proof fn lemma_hex_of_props(data: Seq<u8>)
    ensures
        hex_of(data).len() == 2 * data.len(),
        forall|i: int| 0 <= i < hex_of(data).len() ==> is_hex_char(#[trigger] hex_of(data)[i]),
    decreases data.len(),
{
    if data.len() > 0 {
        lemma_hex_of_props(data.drop_last());
        assert(is_hex_char(hex_digit(data.last() / 16)));
        assert(is_hex_char(hex_digit(data.last() % 16)));
        assert forall|i: int| 0 <= i < hex_of(data).len() implies is_hex_char(
            #[trigger] hex_of(data)[i],
        ) by {
            if i < hex_of(data.drop_last()).len() {
                assert(hex_of(data)[i] == hex_of(data.drop_last())[i]);
            }
        }
    }
}

fn hex_digit_exec(n: u8) -> (c: char)
    requires
        n < 16,
    ensures
        c == hex_digit(n),
{
    if n < 10 {
        (('0' as u8) + n) as char
    } else {
        (('a' as u8) + (n - 10)) as char
    }
}

/// Renders bytes as lowercase hex, two digits per byte.
pub fn to_hex(data: &[u8]) -> (r: String)
    ensures
        r@ == hex_of(data@),
{
    let mut out = String::new();
    let mut i: usize = 0;
    while i < data.len()
        invariant
            i <= data@.len(),
            out@ == hex_of(data@.subrange(0, i as int)),
        decreases data@.len() - i,
    {
        let b = data[i];
        push_char(&mut out, hex_digit_exec(b / 16));
        push_char(&mut out, hex_digit_exec(b % 16));
        proof {
            let pre = data@.subrange(0, i + 1 as int);
            assert(pre.drop_last() =~= data@.subrange(0, i as int));
            assert(pre.last() == b);
            assert(out@ =~= hex_of(pre));
        }
        i = i + 1;
    }
    proof {
        assert(data@.subrange(0, data@.len() as int) =~= data@);
    }
    out
}

/// Accumulates file bytes chunk by chunk and produces the hex SHA-256 digest
/// of everything fed so far. Identical bytes always yield the identical
/// digest, whatever path or name the file had.
pub struct ContentHasher {
    buf: Vec<u8>,
}

impl ContentHasher {
    /// The bytes fed so far.
    pub closed spec fn fed(&self) -> Seq<u8> {
        self.buf@
    }

    pub fn new() -> (h: ContentHasher)
        ensures
            h.fed() == Seq::<u8>::empty(),
    {
        let h = ContentHasher { buf: Vec::new() };
        proof {
            assert(h.fed() =~= Seq::<u8>::empty());
        }
        h
    }

    /// Feeds one chunk.
    pub fn update(&mut self, chunk: &[u8])
        ensures
            final(self).fed() == old(self).fed() + chunk@,
    {
        let mut i: usize = 0;
        while i < chunk.len()
            invariant
                i <= chunk@.len(),
                self.buf@ == old(self).buf@ + chunk@.subrange(0, i as int),
            decreases chunk@.len() - i,
        {
            self.buf.push(chunk[i]);
            proof {
                assert(self.buf@ =~= old(self).buf@ + chunk@.subrange(0, i + 1 as int));
            }
            i = i + 1;
        }
        proof {
            assert(chunk@.subrange(0, chunk@.len() as int) =~= chunk@);
        }
    }

    /// The lowercase hex SHA-256 digest of all bytes fed: 64 characters,
    /// each a lowercase hex digit.
    pub fn finalize_hex(self) -> (r: String)
        ensures
            r@ == sha256_hex_of(self.fed()),
            r@.len() == 64,
            forall|i: int| 0 <= i < r@.len() ==> is_hex_char(#[trigger] r@[i]),
    {
        let digest = sha256_digest(self.buf.as_slice());
        proof {
            lemma_hex_of_props(digest@);
        }
        to_hex(digest.as_slice())
    }
}

/// The hex SHA-256 digest of a byte buffer, fed to the hasher in 4096-byte
/// chunks as the scanner does for file contents: 64 characters, each a
/// lowercase hex digit.
pub fn calculate_sha256(data: &Vec<u8>) -> (r: String)
    ensures
        r@ == sha256_hex_of(data@),
        r@.len() == 64,
        forall|i: int| 0 <= i < r@.len() ==> is_hex_char(#[trigger] r@[i]),
{
    let mut hasher = ContentHasher::new();
    let mut start: usize = 0;
    let n = data.len();
    while start < n
        invariant
            n == data@.len(),
            start <= n,
            hasher.fed() == data@.subrange(0, start as int),
        decreases n - start,
    {
        let end = if n - start < 4096 {
            n
        } else {
            start + 4096
        };
        hasher.update(slice_subrange(data.as_slice(), start, end));
        proof {
            assert(hasher.fed() =~= data@.subrange(0, end as int));
        }
        start = end;
    }
    proof {
        assert(data@.subrange(0, n as int) =~= data@);
    }
    hasher.finalize_hex()
}

pub const FNV_OFFSET: u64 = 0xcbf29ce484222325;

pub const FNV_PRIME: u64 = 0x100000001b3;

/// One step of the 64-bit FNV-1a fold.
pub open spec fn fnv1a_step(h: u64, b: u8) -> u64 {
    vstd::wrapping::u64_specs::wrapping_mul(h ^ (b as u64), FNV_PRIME)
}

/// The 64-bit FNV-1a hash of a byte sequence.
pub open spec fn fnv1a(data: Seq<u8>) -> u64
    decreases data.len(),
{
    if data.len() == 0 {
        FNV_OFFSET
    } else {
        fnv1a_step(fnv1a(data.drop_last()), data.last())
    }
}

/// The minimal-width lowercase hex rendering of a 64-bit value, as `{:x}`
/// prints it: no leading zeros, a single `0` for zero.
pub open spec fn hex_u64(x: u64) -> Seq<char>
    decreases x,
{
    if x < 16 {
        seq![hex_digit(x as u8)]
    } else {
        hex_u64(x / 16).push(hex_digit((x % 16) as u8))
    }
}

fn hex_u64_exec(x: u64) -> (r: String)
    ensures
        r@ == hex_u64(x),
    decreases x,
{
    if x < 16 {
        let mut out = String::new();
        push_char(&mut out, hex_digit_exec(x as u8));
        proof {
            assert(out@ =~= hex_u64(x));
        }
        out
    } else {
        let mut out = hex_u64_exec(x / 16);
        push_char(&mut out, hex_digit_exec((x % 16) as u8));
        out
    }
}

/// The decimal digit character for a value below 10.
pub open spec fn dec_digit(n: u8) -> char
    recommends
        n < 10,
{
    (('0' as u8) + n) as char
}

/// The decimal rendering of a 64-bit value, without leading zeros.
pub open spec fn dec_u64(x: u64) -> Seq<char>
    decreases x,
{
    if x < 10 {
        seq![dec_digit(x as u8)]
    } else {
        dec_u64(x / 10).push(dec_digit((x % 10) as u8))
    }
}

/// Renders a 64-bit value in decimal.
pub fn u64_to_dec(x: u64) -> (r: String)
    ensures
        r@ == dec_u64(x),
    decreases x,
{
    if x < 10 {
        let mut out = String::new();
        push_char(&mut out, (('0' as u8) + (x as u8)) as char);
        proof {
            assert(out@ =~= dec_u64(x));
        }
        out
    } else {
        let mut out = u64_to_dec(x / 10);
        push_char(&mut out, (('0' as u8) + ((x % 10) as u8)) as char);
        out
    }
}

/// A stable content tag for a response body: the minimal-width hex of the
/// FNV-1a hash of the bytes.
pub fn calculate_etag(data: &[u8]) -> (r: String)
    ensures
        r@ == hex_u64(fnv1a(data@)),
{
    let mut h: u64 = FNV_OFFSET;
    let mut i: usize = 0;
    proof {
        assert(data@.subrange(0, 0) =~= Seq::<u8>::empty());
    }
    while i < data.len()
        invariant
            i <= data@.len(),
            h == fnv1a(data@.subrange(0, i as int)),
        decreases data@.len() - i,
    {
        h = (h ^ (data[i] as u64)).wrapping_mul(FNV_PRIME);
        proof {
            let pre = data@.subrange(0, i + 1 as int);
            assert(pre.drop_last() =~= data@.subrange(0, i as int));
            assert(pre.last() == data@[i as int]);
        }
        i = i + 1;
    }
    proof {
        assert(data@.subrange(0, data@.len() as int) =~= data@);
    }
    hex_u64_exec(h)
}

} // verus!
