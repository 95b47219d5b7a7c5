//! Content hashing: fingerprints of file content.
//!
//! A fingerprint is the uppercase hexadecimal rendering of a digest of the
//! file's bytes. Two digest algorithms are offered: MD5 (the fast default
//! used for deduplication keys) and SHA-256 (the cryptographic-strength
//! alternative). The digest computations themselves live in outside crates
//! and are trusted at their interface; the hexadecimal rendering and the
//! block-by-block driving of the accumulators are verified here.

use vstd::prelude::*;
use vstd::slice::slice_subrange;

verus! {

/// The block size for feeding content into a digest accumulator: one
/// mebibyte, so peak memory stays bounded whatever the file size.
pub const BLOCK_SIZE: usize = 1024 * 1024;

/// One uppercase hexadecimal digit for a value below sixteen.
pub open spec fn spec_hex_char(n: int) -> char {
    if n == 0 {
        '0'
    } else if n == 1 {
        '1'
    } else if n == 2 {
        '2'
    } else if n == 3 {
        '3'
    } else if n == 4 {
        '4'
    } else if n == 5 {
        '5'
    } else if n == 6 {
        '6'
    } else if n == 7 {
        '7'
    } else if n == 8 {
        '8'
    } else if n == 9 {
        '9'
    } else if n == 10 {
        'A'
    } else if n == 11 {
        'B'
    } else if n == 12 {
        'C'
    } else if n == 13 {
        'D'
    } else if n == 14 {
        'E'
    } else {
        'F'
    }
}

/// The uppercase hexadecimal rendering of a byte sequence: two digits per
/// byte, high nibble first.
pub open spec fn spec_upper_hex(bytes: Seq<u8>) -> Seq<char>
    decreases bytes.len(),
{
    if bytes.len() == 0 {
        Seq::<char>::empty()
    } else {
        spec_upper_hex(bytes.drop_last()) + seq![
            spec_hex_char(bytes.last() as int / 16),
            spec_hex_char(bytes.last() as int % 16),
        ]
    }
}

/// The hexadecimal rendering is two characters per byte.
proof fn lemma_upper_hex_len(bytes: Seq<u8>)
    ensures
        spec_upper_hex(bytes).len() == 2 * bytes.len(),
    decreases bytes.len(),
{
    if bytes.len() == 0 {
    } else {
        lemma_upper_hex_len(bytes.drop_last());
    }
}

/// A one-character string slice holding the uppercase hexadecimal digit of
/// `n`.
pub(crate) fn hex_char_str(n: u8) -> (r: &'static str)
    requires
        n < 16,
    ensures
        r@ =~= seq![spec_hex_char(n as int)],
{
    match n {
        0 => {
            proof {
                reveal_strlit("0");
            }
            "0"
        },
        1 => {
            proof {
                reveal_strlit("1");
            }
            "1"
        },
        2 => {
            proof {
                reveal_strlit("2");
            }
            "2"
        },
        3 => {
            proof {
                reveal_strlit("3");
            }
            "3"
        },
        4 => {
            proof {
                reveal_strlit("4");
            }
            "4"
        },
        5 => {
            proof {
                reveal_strlit("5");
            }
            "5"
        },
        6 => {
            proof {
                reveal_strlit("6");
            }
            "6"
        },
        7 => {
            proof {
                reveal_strlit("7");
            }
            "7"
        },
        8 => {
            proof {
                reveal_strlit("8");
            }
            "8"
        },
        9 => {
            proof {
                reveal_strlit("9");
            }
            "9"
        },
        10 => {
            proof {
                reveal_strlit("A");
            }
            "A"
        },
        11 => {
            proof {
                reveal_strlit("B");
            }
            "B"
        },
        12 => {
            proof {
                reveal_strlit("C");
            }
            "C"
        },
        13 => {
            proof {
                reveal_strlit("D");
            }
            "D"
        },
        14 => {
            proof {
                reveal_strlit("E");
            }
            "E"
        },
        _ => {
            proof {
                reveal_strlit("F");
            }
            "F"
        },
    }
}

/// Renders a byte sequence as uppercase hexadecimal, two digits per byte.
pub fn to_upper_hex(bytes: &[u8]) -> (r: String)
    ensures
        r@ == spec_upper_hex(bytes@),
        r@.len() == 2 * bytes@.len(),
{
    proof {
        lemma_upper_hex_len(bytes@);
    }
    let mut out = String::new();
    let n = bytes.len();
    let mut i: usize = 0;
    while i < n
        invariant
            i <= n,
            n == bytes@.len(),
            out@ == spec_upper_hex(bytes@.take(i as int)),
        decreases n - i,
    {
        let b = bytes[i];
        out.append(hex_char_str(b / 16));
        out.append(hex_char_str(b % 16));
        proof {
            assert(bytes@.take(i + 1 as int).drop_last() =~= bytes@.take(i as int));
            assert(bytes@.take(i + 1 as int).last() == bytes@[i as int]);
        }
        i = i + 1;
    }
    proof {
        assert(bytes@.take(n as int) =~= bytes@);
    }
    out
}

/// The state of the outside MD5 accumulator. Verus sees nothing inside it;
/// what it has absorbed is tracked by `md5_fed`.
#[verifier::external_body]
pub struct Md5State {
    inner: md5::Md5,
}

/// The bytes an MD5 accumulator has absorbed so far.
pub uninterp spec fn md5_fed(s: Md5State) -> Seq<u8>;

/// The raw sixteen-byte MD5 digest of a byte sequence: names the outcome
/// of `md5::Md5::finalize`, which depends on the absorbed bytes alone.
pub uninterp spec fn md5_raw(bytes: Seq<u8>) -> Seq<u8>;

/// The MD5 fingerprint of a byte sequence: the uppercase hexadecimal
/// rendering of its raw digest.
pub open spec fn md5_hex(bytes: Seq<u8>) -> Seq<char> {
    spec_upper_hex(md5_raw(bytes))
}

/// Relies on `md5::Md5::new` (the `Digest` trait): a fresh accumulator has
/// absorbed nothing.
#[verifier::external_body]
fn md5_state_new() -> (s: Md5State)
    ensures
        md5_fed(s) == Seq::<u8>::empty(),
{
    Md5State { inner: <md5::Md5 as md5::Digest>::new() }
}

/// Relies on `md5::Md5::update` (the `Digest` trait): absorbs the block
/// after everything absorbed before.
#[verifier::external_body]
fn md5_state_update(s: &mut Md5State, block: &[u8])
    ensures
        md5_fed(*final(s)) == md5_fed(*old(s)) + block@,
{
    md5::Digest::update(&mut s.inner, block);
}

/// Relies on `md5::Md5::finalize` (the `Digest` trait): the sixteen-byte
/// MD5 digest of the absorbed bytes, depending on them alone.
#[verifier::external_body]
fn md5_state_finalize(s: Md5State) -> (r: Vec<u8>)
    ensures
        r@ == md5_raw(md5_fed(s)),
        r@.len() == 16,
{
    md5::Digest::finalize(s.inner).to_vec()
}

/// A streaming MD5 accumulator: absorbs content block by block and yields
/// the fingerprint of everything absorbed, so a caller reading a file in
/// blocks never holds the whole file in memory.
pub struct Md5Hasher {
    state: Md5State,
}

impl Md5Hasher {
    /// The bytes this accumulator has absorbed so far.
    pub closed spec fn bytes_fed(self) -> Seq<u8> {
        md5_fed(self.state)
    }

    /// A fresh accumulator that has absorbed nothing.
    pub fn new() -> (h: Md5Hasher)
        ensures
            h.bytes_fed() == Seq::<u8>::empty(),
    {
        Md5Hasher { state: md5_state_new() }
    }

    /// Absorbs one block of content.
    pub fn update(&mut self, block: &[u8])
        ensures
            final(self).bytes_fed() == old(self).bytes_fed() + block@,
    {
        md5_state_update(&mut self.state, block);
    }

    /// The MD5 fingerprint of everything absorbed: thirty-two hexadecimal
    /// characters.
    pub fn finalize_hex(self) -> (r: String)
        ensures
            r@ == md5_hex(self.bytes_fed()),
            r@.len() == 32,
    {
        let raw = md5_state_finalize(self.state);
        to_upper_hex(raw.as_slice())
    }
}

/// The state of the outside SHA-256 accumulator. Verus sees nothing inside
/// it; what it has absorbed is tracked by `sha256_fed`.
#[verifier::external_body]
pub struct Sha256State {
    inner: sha2::Sha256,
}

/// The bytes a SHA-256 accumulator has absorbed so far.
pub uninterp spec fn sha256_fed(s: Sha256State) -> Seq<u8>;

/// The raw thirty-two-byte SHA-256 digest of a byte sequence: names the
/// outcome of `sha2::Sha256::finalize`, which depends on the absorbed bytes
/// alone.
pub uninterp spec fn sha256_raw(bytes: Seq<u8>) -> Seq<u8>;

/// The SHA-256 fingerprint of a byte sequence: the uppercase hexadecimal
/// rendering of its raw digest.
pub open spec fn sha256_hex(bytes: Seq<u8>) -> Seq<char> {
    spec_upper_hex(sha256_raw(bytes))
}

/// Relies on `sha2::Sha256::new` (the `Digest` trait): a fresh accumulator
/// has absorbed nothing.
#[verifier::external_body]
fn sha256_state_new() -> (s: Sha256State)
    ensures
        sha256_fed(s) == Seq::<u8>::empty(),
{
    Sha256State { inner: <sha2::Sha256 as sha2::Digest>::new() }
}

/// Relies on `sha2::Sha256::update` (the `Digest` trait): absorbs the
/// block after everything absorbed before.
#[verifier::external_body]
fn sha256_state_update(s: &mut Sha256State, block: &[u8])
    ensures
        sha256_fed(*final(s)) == sha256_fed(*old(s)) + block@,
{
    sha2::Digest::update(&mut s.inner, block);
}

/// Relies on `sha2::Sha256::finalize` (the `Digest` trait): the
/// thirty-two-byte SHA-256 digest of the absorbed bytes, depending on them
/// alone.
#[verifier::external_body]
fn sha256_state_finalize(s: Sha256State) -> (r: Vec<u8>)
    ensures
        r@ == sha256_raw(sha256_fed(s)),
        r@.len() == 32,
{
    sha2::Digest::finalize(s.inner).to_vec()
}

/// A streaming SHA-256 accumulator: absorbs content block by block and
/// yields the fingerprint of everything absorbed.
pub struct Sha256Hasher {
    state: Sha256State,
}

impl Sha256Hasher {
    /// The bytes this accumulator has absorbed so far.
    pub closed spec fn bytes_fed(self) -> Seq<u8> {
        sha256_fed(self.state)
    }

    /// A fresh accumulator that has absorbed nothing.
    pub fn new() -> (h: Sha256Hasher)
        ensures
            h.bytes_fed() == Seq::<u8>::empty(),
    {
        Sha256Hasher { state: sha256_state_new() }
    }

    /// Absorbs one block of content.
    pub fn update(&mut self, block: &[u8])
        ensures
            final(self).bytes_fed() == old(self).bytes_fed() + block@,
    {
        sha256_state_update(&mut self.state, block);
    }

    /// The SHA-256 fingerprint of everything absorbed: sixty-four
    /// hexadecimal characters.
    pub fn finalize_hex(self) -> (r: String)
        ensures
            r@ == sha256_hex(self.bytes_fed()),
            r@.len() == 64,
    {
        let raw = sha256_state_finalize(self.state);
        to_upper_hex(raw.as_slice())
    }
}

/// The MD5 fingerprint of the given content, fed through the accumulator
/// in fixed-size blocks. Identical content always yields an identical
/// fingerprint, whatever the traversal order, platform or run.
pub fn md5_digest(content: &[u8]) -> (r: String)
    ensures
        r@ == md5_hex(content@),
        r@.len() == 32,
{
    let mut hasher = Md5Hasher::new();
    let n = content.len();
    let mut i: usize = 0;
    while i < n
        invariant
            i <= n,
            n == content@.len(),
            hasher.bytes_fed() == content@.take(i as int),
        decreases n - i,
    {
        let end = if n - i < BLOCK_SIZE {
            n
        } else {
            i + BLOCK_SIZE
        };
        let block = slice_subrange(content, i, end);
        hasher.update(block);
        proof {
            assert(content@.take(i as int) + content@.subrange(i as int, end as int)
                =~= content@.take(end as int));
        }
        i = end;
    }
    proof {
        assert(content@.take(n as int) =~= content@);
    }
    hasher.finalize_hex()
}

/// The SHA-256 fingerprint of the given content, fed through the
/// accumulator in fixed-size blocks. Identical content always yields an
/// identical fingerprint, whatever the traversal order, platform or run.
pub fn sha256_digest(content: &[u8]) -> (r: String)
    ensures
        r@ == sha256_hex(content@),
        r@.len() == 64,
{
    let mut hasher = Sha256Hasher::new();
    let n = content.len();
    let mut i: usize = 0;
    while i < n
        invariant
            i <= n,
            n == content@.len(),
            hasher.bytes_fed() == content@.take(i as int),
        decreases n - i,
    {
        let end = if n - i < BLOCK_SIZE {
            n
        } else {
            i + BLOCK_SIZE
        };
        let block = slice_subrange(content, i, end);
        hasher.update(block);
        proof {
            assert(content@.take(i as int) + content@.subrange(i as int, end as int)
                =~= content@.take(end as int));
        }
        i = end;
    }
    proof {
        assert(content@.take(n as int) =~= content@);
    }
    hasher.finalize_hex()
}

} // verus!
