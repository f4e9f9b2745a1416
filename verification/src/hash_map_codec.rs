//! The length-prefixed binary codec for the LAN state exchange.
//!
//! Wire format for one mapping of string keys to 64-bit floats:
//! a 32-bit big-endian entry count, then per entry a 32-bit big-endian
//! key-byte length, the key's UTF-8 bytes, and the 8 value bytes — the
//! IEEE-754 double in big-endian order. Entry counts and key lengths are
//! capped at 2^31 - 1. Trailing bytes after the last entry, and key bytes
//! that are not valid UTF-8, make a datagram malformed.
//!
//! Inside the crate a value travels as its 64-bit bit pattern and a key as
//! its UTF-8 bytes; the float and string conversions happen at the socket
//! edge outside the crate. Encoding a sequence of entries is deterministic
//! byte for byte, and `lemma_encode_injective` together with the `decode`
//! contract gives the round trip: decoding an encoded map yields exactly
//! the entries that were encoded.

use vstd::arithmetic::div_mod::lemma_fundamental_div_mod;
use vstd::arithmetic::div_mod::lemma_fundamental_div_mod_converse;
use vstd::prelude::*;

verus! {

/// Cap on the entry count and on a key's byte length.
pub const MAX_CODEC_LEN: usize = 0x7FFF_FFFF;

/// One entry of the exchanged mapping: the key's UTF-8 bytes and the
/// IEEE-754 bit pattern of its 64-bit float value.
#[derive(Debug, Clone, PartialEq, Eq)]
pub struct MapEntry {
    pub key: Vec<u8>,
    pub value: u64,
}

impl View for MapEntry {
    type V = (Seq<u8>, u64);

    open spec fn view(&self) -> (Seq<u8>, u64) {
        (self.key@, self.value)
    }
}

/// Why a mapping could not be encoded or decoded.
#[derive(Debug, Clone, Copy, PartialEq, Eq, Structural)]
pub enum CodecError {
    /// More than 2^31 - 1 entries.
    TooManyEntries,
    /// A key longer than 2^31 - 1 bytes.
    KeyTooLong,
    /// The datagram is not an encoding of any capped mapping.
    Malformed,
}

/// The stateless codec.
pub struct HashMapCodec;

/// 256^k.
pub open spec fn pow256(k: nat) -> int
    decreases k,
{
    if k == 0 {
        1
    } else {
        256 * pow256((k - 1) as nat)
    }
}

/// The `k` big-endian base-256 digits of `n`.
pub open spec fn be_bytes(n: int, k: nat) -> Seq<u8>
    decreases k,
{
    if k == 0 {
        Seq::empty()
    } else {
        be_bytes(n / 256, (k - 1) as nat).push((n % 256) as u8)
    }
}

/// The integer a big-endian byte string denotes.
pub open spec fn int_from_be(b: Seq<u8>) -> int
    decreases b.len(),
{
    if b.len() == 0 {
        0
    } else {
        int_from_be(b.drop_last()) * 256 + b.last()
    }
}

/// The powers the wire format uses.
pub proof fn lemma_pow256_small()
    ensures
        pow256(4) == 0x1_0000_0000,
        pow256(8) == 0x1_0000_0000_0000_0000,
{
    assert(pow256(0) == 1);
    assert(pow256(1) == 256);
    assert(pow256(2) == 0x1_0000);
    assert(pow256(3) == 0x100_0000);
    assert(pow256(4) == 0x1_0000_0000);
    assert(pow256(5) == 0x100_0000_0000);
    assert(pow256(6) == 0x1_0000_0000_0000);
    assert(pow256(7) == 0x100_0000_0000_0000);
}

pub proof fn lemma_pow256_pos(k: nat)
    ensures
        pow256(k) >= 1,
    decreases k,
{
    if k > 0 {
        lemma_pow256_pos((k - 1) as nat);
    }
}

pub proof fn lemma_be_bytes_len(n: int, k: nat)
    ensures
        be_bytes(n, k).len() == k,
    decreases k,
{
    if k > 0 {
        lemma_be_bytes_len(n / 256, (k - 1) as nat);
    }
}

/// A byte string denotes an integer within its base-256 range.
pub proof fn lemma_int_from_be_range(b: Seq<u8>)
    ensures
        0 <= int_from_be(b) < pow256(b.len()),
    decreases b.len(),
{
    if b.len() == 0 {
    } else {
        let hd = b.drop_last();
        lemma_int_from_be_range(hd);
        assert(int_from_be(b) == int_from_be(hd) * 256 + b.last());
        assert(int_from_be(hd) * 256 + 255 < pow256(hd.len()) * 256) by (nonlinear_arith)
            requires
                int_from_be(hd) < pow256(hd.len()),
        ;
        assert(pow256(b.len()) == 256 * pow256(hd.len()));
    }
}

/// Taking the digits of the denoted integer gives back the byte string.
pub proof fn lemma_be_bytes_of_int(b: Seq<u8>)
    ensures
        be_bytes(int_from_be(b), b.len()) =~= b,
    decreases b.len(),
{
    if b.len() == 0 {
    } else {
        let hd = b.drop_last();
        let v = int_from_be(b);
        lemma_int_from_be_range(hd);
        lemma_fundamental_div_mod_converse(v, 256, int_from_be(hd), b.last() as int);
        lemma_be_bytes_of_int(hd);
        assert(be_bytes(v, b.len()) == be_bytes(v / 256, (b.len() - 1) as nat).push(
            (v % 256) as u8,
        ));
    }
}

/// The digits of an in-range integer denote it back.
pub proof fn lemma_be_bytes_round_trip(n: int, k: nat)
    requires
        0 <= n < pow256(k),
    ensures
        int_from_be(be_bytes(n, k)) == n,
    decreases k,
{
    if k == 0 {
    } else {
        let q = n / 256;
        let r = n % 256;
        lemma_fundamental_div_mod(n, 256);
        assert(0 <= r < 256);
        assert(q * 256 <= n) by (nonlinear_arith)
            requires
                n == 256 * q + r,
                r >= 0,
        ;
        assert(q < pow256((k - 1) as nat)) by {
            lemma_pow256_pos((k - 1) as nat);
            assert(256 * q <= n < 256 * pow256((k - 1) as nat));
        }
        assert(q >= 0) by {
            assert(256 * q == n - r);
        }
        lemma_be_bytes_round_trip(q, (k - 1) as nat);
        let tl = be_bytes(n, k);
        lemma_be_bytes_len(q, (k - 1) as nat);
        assert(tl == be_bytes(q, (k - 1) as nat).push(r as u8));
        assert(tl.drop_last() =~= be_bytes(q, (k - 1) as nat));
        assert(int_from_be(tl) == q * 256 + r);
    }
}

/// Equal digit strings of equal width denote equal in-range integers.
pub proof fn lemma_be_bytes_injective(n1: int, n2: int, k: nat)
    requires
        0 <= n1 < pow256(k),
        0 <= n2 < pow256(k),
        be_bytes(n1, k) == be_bytes(n2, k),
    ensures
        n1 == n2,
{
    lemma_be_bytes_round_trip(n1, k);
    lemma_be_bytes_round_trip(n2, k);
}

/// The byte string of one entry: key length, key bytes, value bytes.
pub open spec fn spec_encode_entry(e: (Seq<u8>, u64)) -> Seq<u8> {
    be_bytes(e.0.len() as int, 4) + e.0 + be_bytes(e.1 as int, 8)
}

/// The byte string of a sequence of entries, in order.
pub open spec fn spec_encode_entries(s: Seq<(Seq<u8>, u64)>) -> Seq<u8>
    decreases s.len(),
{
    if s.len() == 0 {
        Seq::empty()
    } else {
        spec_encode_entry(s[0]) + spec_encode_entries(s.drop_first())
    }
}

/// The complete wire image: entry count, then the entries.
pub open spec fn spec_encode(s: Seq<(Seq<u8>, u64)>) -> Seq<u8> {
    be_bytes(s.len() as int, 4) + spec_encode_entries(s)
}

/// A mapping the wire format can carry: count and key lengths capped.
pub open spec fn entries_wf(s: Seq<(Seq<u8>, u64)>) -> bool {
    &&& s.len() <= 0x7FFF_FFFF
    &&& forall|i: int| 0 <= i < s.len() ==> (#[trigger] s[i]).0.len() <= 0x7FFF_FFFF
}

/// The mathematical entries a vector of `MapEntry` denotes.
pub open spec fn entries_view(v: Seq<MapEntry>) -> Seq<(Seq<u8>, u64)> {
    v.map_values(|e: MapEntry| (e.key@, e.value))
}

/// A UTF-8 continuation byte.
pub open spec fn is_utf8_cont(b: u8) -> bool {
    0x80 <= b <= 0xBF
}

/// Validity of a byte string as UTF-8: shortest-form sequences of one to
/// four bytes, with surrogates and values beyond U+10FFFF excluded.
pub open spec fn is_utf8(s: Seq<u8>) -> bool
    decreases s.len(),
{
    if s.len() == 0 {
        true
    } else {
        let b0 = s[0];
        if b0 <= 0x7F {
            is_utf8(s.skip(1))
        } else if 0xC2 <= b0 <= 0xDF {
            s.len() >= 2 && is_utf8_cont(s[1]) && is_utf8(s.skip(2))
        } else if 0xE0 <= b0 <= 0xEF {
            let lo1: u8 = if b0 == 0xE0 { 0xA0 } else { 0x80 };
            let hi1: u8 = if b0 == 0xED { 0x9F } else { 0xBF };
            s.len() >= 3 && lo1 <= s[1] <= hi1 && is_utf8_cont(s[2]) && is_utf8(s.skip(3))
        } else if 0xF0 <= b0 <= 0xF4 {
            let lo1: u8 = if b0 == 0xF0 { 0x90 } else { 0x80 };
            let hi1: u8 = if b0 == 0xF4 { 0x8F } else { 0xBF };
            s.len() >= 4 && lo1 <= s[1] <= hi1 && is_utf8_cont(s[2]) && is_utf8_cont(s[3])
                && is_utf8(s.skip(4))
        } else {
            false
        }
    }
}

/// Every key of the mapping is valid UTF-8, as the wire format's string
/// keys must be.
pub open spec fn keys_utf8(s: Seq<(Seq<u8>, u64)>) -> bool {
    forall|i: int| 0 <= i < s.len() ==> is_utf8((#[trigger] s[i]).0)
}

/// Whether the bytes are valid UTF-8.
fn check_utf8(key: &Vec<u8>) -> (r: bool)
    ensures
        r == is_utf8(key@),
{
    let n: usize = key.len();
    let mut i: usize = 0;
    proof {
        assert(key@.skip(0) =~= key@);
    }
    while i < n
        invariant
            i <= n == key@.len(),
            is_utf8(key@) == is_utf8(key@.skip(i as int)),
        decreases n - i,
    {
        let ghost s = key@.skip(i as int);
        let b0: u8 = key[i];
        proof {
            assert(s.len() == n - i);
            assert(s[0] == b0);
        }
        if b0 <= 0x7F {
            proof {
                assert(is_utf8(s) == is_utf8(s.skip(1)));
                assert(s.skip(1) =~= key@.skip(i + 1));
            }
            i = i + 1;
        } else if 0xC2 <= b0 && b0 <= 0xDF {
            proof {
                assert(is_utf8(s) == (s.len() >= 2 && is_utf8_cont(s[1]) && is_utf8(s.skip(2))));
            }
            if n - i < 2 {
                return false;
            }
            let b1: u8 = key[i + 1];
            proof {
                assert(s[1] == b1);
            }
            if !(0x80 <= b1 && b1 <= 0xBF) {
                return false;
            }
            proof {
                assert(s.skip(2) =~= key@.skip(i + 2));
            }
            i = i + 2;
        } else if 0xE0 <= b0 && b0 <= 0xEF {
            let lo1: u8 = if b0 == 0xE0 { 0xA0 } else { 0x80 };
            let hi1: u8 = if b0 == 0xED { 0x9F } else { 0xBF };
            proof {
                assert(is_utf8(s) == (s.len() >= 3 && lo1 <= s[1] <= hi1 && is_utf8_cont(s[2])
                    && is_utf8(s.skip(3))));
            }
            if n - i < 3 {
                return false;
            }
            let b1: u8 = key[i + 1];
            let b2: u8 = key[i + 2];
            proof {
                assert(s[1] == b1);
                assert(s[2] == b2);
            }
            if !(lo1 <= b1 && b1 <= hi1) {
                return false;
            }
            if !(0x80 <= b2 && b2 <= 0xBF) {
                return false;
            }
            proof {
                assert(s.skip(3) =~= key@.skip(i + 3));
            }
            i = i + 3;
        } else if 0xF0 <= b0 && b0 <= 0xF4 {
            let lo1: u8 = if b0 == 0xF0 { 0x90 } else { 0x80 };
            let hi1: u8 = if b0 == 0xF4 { 0x8F } else { 0xBF };
            proof {
                assert(is_utf8(s) == (s.len() >= 4 && lo1 <= s[1] <= hi1 && is_utf8_cont(s[2])
                    && is_utf8_cont(s[3]) && is_utf8(s.skip(4))));
            }
            if n - i < 4 {
                return false;
            }
            let b1: u8 = key[i + 1];
            let b2: u8 = key[i + 2];
            let b3: u8 = key[i + 3];
            proof {
                assert(s[1] == b1);
                assert(s[2] == b2);
                assert(s[3] == b3);
            }
            if !(lo1 <= b1 && b1 <= hi1) {
                return false;
            }
            if !(0x80 <= b2 && b2 <= 0xBF) {
                return false;
            }
            if !(0x80 <= b3 && b3 <= 0xBF) {
                return false;
            }
            proof {
                assert(s.skip(4) =~= key@.skip(i + 4));
            }
            i = i + 4;
        } else {
            proof {
                assert(!is_utf8(s));
            }
            return false;
        }
    }
    proof {
        assert(key@.skip(n as int) =~= Seq::<u8>::empty());
    }
    true
}

/// Encoding a concatenation concatenates the encodings.
pub proof fn lemma_encode_entries_concat(s1: Seq<(Seq<u8>, u64)>, s2: Seq<(Seq<u8>, u64)>)
    ensures
        spec_encode_entries(s1 + s2) =~= spec_encode_entries(s1) + spec_encode_entries(s2),
    decreases s1.len(),
{
    if s1.len() == 0 {
        assert(s1 + s2 =~= s2);
        assert(spec_encode_entries(s1) =~= Seq::empty());
    } else {
        assert((s1 + s2)[0] == s1[0]);
        assert((s1 + s2).drop_first() =~= s1.drop_first() + s2);
        lemma_encode_entries_concat(s1.drop_first(), s2);
    }
}

/// The encoding of one more entry at the end.
pub proof fn lemma_encode_entries_snoc(s: Seq<(Seq<u8>, u64)>, e: (Seq<u8>, u64))
    ensures
        spec_encode_entries(s.push(e)) =~= spec_encode_entries(s) + spec_encode_entry(e),
{
    assert(s.push(e) =~= s + seq![e]);
    lemma_encode_entries_concat(s, seq![e]);
    assert(seq![e].drop_first() =~= Seq::<(Seq<u8>, u64)>::empty());
    assert(seq![e][0] == e);
    assert(spec_encode_entries(Seq::<(Seq<u8>, u64)>::empty()) =~= Seq::<u8>::empty());
    assert(spec_encode_entries(seq![e]) =~= spec_encode_entry(e) + spec_encode_entries(
        seq![e].drop_first(),
    ));
    assert(spec_encode_entries(seq![e]) =~= spec_encode_entry(e));
}

/// A non-empty entry sequence encodes to at least the 12 fixed bytes of its
/// first entry plus that entry's key.
pub proof fn lemma_encode_entries_first(s: Seq<(Seq<u8>, u64)>)
    requires
        s.len() > 0,
    ensures
        spec_encode_entries(s).len() >= 12 + s[0].0.len(),
        spec_encode_entries(s) =~= spec_encode_entry(s[0]) + spec_encode_entries(s.drop_first()),
        spec_encode_entry(s[0]).len() == 12 + s[0].0.len(),
{
    lemma_be_bytes_len(s[0].0.len() as int, 4);
    lemma_be_bytes_len(s[0].1 as int, 8);
}

/// Equal encodings of equally many entries are encodings of equal entries.
proof fn lemma_encode_entries_injective(s1: Seq<(Seq<u8>, u64)>, s2: Seq<(Seq<u8>, u64)>)
    requires
        s1.len() == s2.len(),
        forall|i: int| 0 <= i < s1.len() ==> (#[trigger] s1[i]).0.len() <= 0x7FFF_FFFF,
        forall|i: int| 0 <= i < s2.len() ==> (#[trigger] s2[i]).0.len() <= 0x7FFF_FFFF,
        spec_encode_entries(s1) == spec_encode_entries(s2),
    ensures
        s1 =~~= s2,
    decreases s1.len(),
{
    if s1.len() == 0 {
    } else {
        let b = spec_encode_entries(s1);
        lemma_encode_entries_first(s1);
        lemma_encode_entries_first(s2);
        let k1 = s1[0].0;
        let k2 = s2[0].0;
        lemma_be_bytes_len(k1.len() as int, 4);
        lemma_be_bytes_len(k2.len() as int, 4);
        assert(b.subrange(0, 4) =~= be_bytes(k1.len() as int, 4));
        assert(b.subrange(0, 4) =~= be_bytes(k2.len() as int, 4));
        lemma_pow256_small();
        lemma_be_bytes_injective(k1.len() as int, k2.len() as int, 4);
        let kl = k1.len() as int;
        assert(k1 =~= b.subrange(4, 4 + kl));
        assert(k2 =~= b.subrange(4, 4 + kl));
        lemma_be_bytes_len(s1[0].1 as int, 8);
        lemma_be_bytes_len(s2[0].1 as int, 8);
        assert(be_bytes(s1[0].1 as int, 8) =~= b.subrange(4 + kl, 12 + kl));
        assert(be_bytes(s2[0].1 as int, 8) =~= b.subrange(4 + kl, 12 + kl));
        lemma_pow256_small();
        lemma_be_bytes_injective(s1[0].1 as int, s2[0].1 as int, 8);
        assert(s1[0] == s2[0]);
        assert(spec_encode_entries(s1.drop_first()) =~= b.subrange(12 + kl, b.len() as int));
        assert(spec_encode_entries(s2.drop_first()) =~= b.subrange(12 + kl, b.len() as int));
        lemma_encode_entries_injective(s1.drop_first(), s2.drop_first());
        assert(s1 =~~= s2) by {
            assert(forall|i: int|
                0 <= i < s1.len() ==> #[trigger] s1[i] =~~= (if i == 0 {
                    s2[0]
                } else {
                    s1.drop_first()[i - 1]
                }));
        }
    }
}

/// Encoding is injective on capped mappings: two mappings with the same
/// wire image are the same mapping. Together with the contracts of
/// `HashMapCodec::encode` and `HashMapCodec::decode`, this is the codec
/// round trip: decoding the encoding of any capped mapping yields exactly
/// that mapping.
pub proof fn lemma_encode_injective(s1: Seq<(Seq<u8>, u64)>, s2: Seq<(Seq<u8>, u64)>)
    requires
        entries_wf(s1),
        entries_wf(s2),
        spec_encode(s1) == spec_encode(s2),
    ensures
        s1 =~~= s2,
{
    let b = spec_encode(s1);
    lemma_be_bytes_len(s1.len() as int, 4);
    lemma_be_bytes_len(s2.len() as int, 4);
    assert(b.subrange(0, 4) =~= be_bytes(s1.len() as int, 4));
    assert(b.subrange(0, 4) =~= be_bytes(s2.len() as int, 4));
    assert(pow256(4) == 0x1_0000_0000) by {
        assert(pow256(0) == 1);
        assert(pow256(1) == 256);
        assert(pow256(2) == 0x1_0000);
        assert(pow256(3) == 0x100_0000);
    }
    lemma_be_bytes_injective(s1.len() as int, s2.len() as int, 4);
    assert(spec_encode_entries(s1) =~= b.subrange(4, b.len() as int));
    assert(spec_encode_entries(s2) =~= b.subrange(4, b.len() as int));
    lemma_encode_entries_injective(s1, s2);
}

/// Append the 4 big-endian bytes of `n`.
fn push_be_32(out: &mut Vec<u8>, n: u32)
    ensures
        final(out)@ =~= old(out)@ + be_bytes(n as int, 4),
{
    let n1: u32 = n / 256;
    let n2: u32 = n1 / 256;
    let n3: u32 = n2 / 256;
    out.push((n3 % 256) as u8);
    out.push((n2 % 256) as u8);
    out.push((n1 % 256) as u8);
    out.push((n % 256) as u8);
    proof {
        assert(be_bytes(n3 as int, 1) =~= be_bytes(n3 as int / 256, 0).push((n3 % 256) as u8));
        assert(be_bytes(n2 as int, 2) =~= be_bytes(n3 as int, 1).push((n2 % 256) as u8));
        assert(be_bytes(n1 as int, 3) =~= be_bytes(n2 as int, 2).push((n1 % 256) as u8));
        assert(be_bytes(n as int, 4) =~= be_bytes(n1 as int, 3).push((n % 256) as u8));
    }
}

/// Append the 8 big-endian bytes of `n`.
fn push_be_64(out: &mut Vec<u8>, n: u64)
    ensures
        final(out)@ =~= old(out)@ + be_bytes(n as int, 8),
{
    let n1: u64 = n / 256;
    let n2: u64 = n1 / 256;
    let n3: u64 = n2 / 256;
    let n4: u64 = n3 / 256;
    let n5: u64 = n4 / 256;
    let n6: u64 = n5 / 256;
    let n7: u64 = n6 / 256;
    out.push((n7 % 256) as u8);
    out.push((n6 % 256) as u8);
    out.push((n5 % 256) as u8);
    out.push((n4 % 256) as u8);
    out.push((n3 % 256) as u8);
    out.push((n2 % 256) as u8);
    out.push((n1 % 256) as u8);
    out.push((n % 256) as u8);
    proof {
        assert(be_bytes(n7 as int, 1) =~= be_bytes(n7 as int / 256, 0).push((n7 % 256) as u8));
        assert(be_bytes(n6 as int, 2) =~= be_bytes(n7 as int, 1).push((n6 % 256) as u8));
        assert(be_bytes(n5 as int, 3) =~= be_bytes(n6 as int, 2).push((n5 % 256) as u8));
        assert(be_bytes(n4 as int, 4) =~= be_bytes(n5 as int, 3).push((n4 % 256) as u8));
        assert(be_bytes(n3 as int, 5) =~= be_bytes(n4 as int, 4).push((n3 % 256) as u8));
        assert(be_bytes(n2 as int, 6) =~= be_bytes(n3 as int, 5).push((n2 % 256) as u8));
        assert(be_bytes(n1 as int, 7) =~= be_bytes(n2 as int, 6).push((n1 % 256) as u8));
        assert(be_bytes(n as int, 8) =~= be_bytes(n1 as int, 7).push((n % 256) as u8));
    }
}

/// Read 4 bytes as a big-endian integer.
fn read_be_32(buf: &Vec<u8>, pos: usize) -> (n: u32)
    requires
        pos + 4 <= buf@.len(),
    ensures
        n == int_from_be(buf@.subrange(pos as int, pos as int + 4)),
        be_bytes(n as int, 4) =~= buf@.subrange(pos as int, pos as int + 4),
{
    let blen: usize = buf.len();
    let b0: u8 = buf[pos];
    let b1: u8 = buf[pos + 1];
    let b2: u8 = buf[pos + 2];
    let b3: u8 = buf[pos + 3];
    let n: u32 = (b0 as u32) * 0x100_0000 + (b1 as u32) * 0x1_0000 + (b2 as u32) * 256 + (
    b3 as u32);
    proof {
        let s1 = buf@.subrange(pos as int, pos as int + 1);
        let s2 = buf@.subrange(pos as int, pos as int + 2);
        let s3 = buf@.subrange(pos as int, pos as int + 3);
        let s = buf@.subrange(pos as int, pos as int + 4);
        assert(s1.drop_last() =~= Seq::<u8>::empty());
        assert(s2.drop_last() =~= s1);
        assert(s3.drop_last() =~= s2);
        assert(s.drop_last() =~= s3);
        assert(int_from_be(Seq::<u8>::empty()) == 0);
        assert(int_from_be(s1) == b0);
        assert(int_from_be(s2) == b0 * 256 + b1);
        assert(int_from_be(s3) == (b0 * 256 + b1) * 256 + b2);
        assert(int_from_be(s) == ((b0 * 256 + b1) * 256 + b2) * 256 + b3);
        lemma_be_bytes_of_int(s);
    }
    n
}

/// Read 8 bytes as a big-endian integer.
fn read_be_64(buf: &Vec<u8>, pos: usize) -> (n: u64)
    requires
        pos + 8 <= buf@.len(),
    ensures
        n == int_from_be(buf@.subrange(pos as int, pos as int + 8)),
        be_bytes(n as int, 8) =~= buf@.subrange(pos as int, pos as int + 8),
{
    let blen: usize = buf.len();
    let b0: u8 = buf[pos];
    let b1: u8 = buf[pos + 1];
    let b2: u8 = buf[pos + 2];
    let b3: u8 = buf[pos + 3];
    let b4: u8 = buf[pos + 4];
    let b5: u8 = buf[pos + 5];
    let b6: u8 = buf[pos + 6];
    let b7: u8 = buf[pos + 7];
    let hi: u64 = (b0 as u64) * 0x100_0000 + (b1 as u64) * 0x1_0000 + (b2 as u64) * 256 + (
    b3 as u64);
    let lo: u64 = (b4 as u64) * 0x100_0000 + (b5 as u64) * 0x1_0000 + (b6 as u64) * 256 + (
    b7 as u64);
    let n: u64 = hi * 0x1_0000_0000 + lo;
    proof {
        let s1 = buf@.subrange(pos as int, pos as int + 1);
        let s2 = buf@.subrange(pos as int, pos as int + 2);
        let s3 = buf@.subrange(pos as int, pos as int + 3);
        let s4 = buf@.subrange(pos as int, pos as int + 4);
        let s5 = buf@.subrange(pos as int, pos as int + 5);
        let s6 = buf@.subrange(pos as int, pos as int + 6);
        let s7 = buf@.subrange(pos as int, pos as int + 7);
        let s = buf@.subrange(pos as int, pos as int + 8);
        assert(s1.drop_last() =~= Seq::<u8>::empty());
        assert(s2.drop_last() =~= s1);
        assert(s3.drop_last() =~= s2);
        assert(s4.drop_last() =~= s3);
        assert(s5.drop_last() =~= s4);
        assert(s6.drop_last() =~= s5);
        assert(s7.drop_last() =~= s6);
        assert(s.drop_last() =~= s7);
        assert(int_from_be(Seq::<u8>::empty()) == 0);
        assert(int_from_be(s1) == b0);
        assert(int_from_be(s2) == b0 * 256 + b1);
        assert(int_from_be(s3) == int_from_be(s2) * 256 + b2);
        assert(int_from_be(s4) == int_from_be(s3) * 256 + b3);
        assert(int_from_be(s5) == int_from_be(s4) * 256 + b4);
        assert(int_from_be(s6) == int_from_be(s5) * 256 + b5);
        assert(int_from_be(s7) == int_from_be(s6) * 256 + b6);
        assert(int_from_be(s) == int_from_be(s7) * 256 + b7);
        assert(int_from_be(s4) == hi);
        assert(int_from_be(s) == ((hi * 256 + b4) * 256 + b5) * 256 * 256 + b6 * 256 + b7);
        assert(n == int_from_be(s));
        lemma_be_bytes_of_int(s);
    }
    n
}

impl HashMapCodec {
    /// Encode a mapping into its wire image, or say which cap it breaks.
    ///
    /// Encoding is deterministic: the bytes are a function of the entry
    /// sequence alone.
    #[verifier::loop_isolation(false)]
    pub fn encode(&self, entries: &Vec<MapEntry>) -> (r: Result<Vec<u8>, CodecError>)
        ensures
            match r {
                Ok(b) => entries_wf(entries_view(entries@)) && b@ == spec_encode(
                    entries_view(entries@),
                ),
                Err(e) => {
                    ||| (e == CodecError::TooManyEntries && entries@.len() > 0x7FFF_FFFF)
                    ||| (e == CodecError::KeyTooLong && entries@.len() <= 0x7FFF_FFFF && exists|
                        i: int,
                    |
                        0 <= i < entries@.len() && (#[trigger] entries@[i]).key@.len()
                            > 0x7FFF_FFFF)
                },
            },
    {
        let count: usize = entries.len();
        if count > MAX_CODEC_LEN {
            return Err(CodecError::TooManyEntries);
        }
        let ghost ev = entries_view(entries@);
        let mut out: Vec<u8> = Vec::new();
        push_be_32(&mut out, count as u32);
        let mut i: usize = 0;
        while i < count
            invariant
                i <= count == entries@.len() <= 0x7FFF_FFFF,
                ev == entries_view(entries@),
                forall|k: int| 0 <= k < i ==> (#[trigger] ev[k]).0.len() <= 0x7FFF_FFFF,
                out@ =~= be_bytes(count as int, 4) + spec_encode_entries(ev.take(i as int)),
            decreases count - i,
        {
            let key_len: usize = entries[i].key.len();
            if key_len > MAX_CODEC_LEN {
                return Err(CodecError::KeyTooLong);
            }
            push_be_32(&mut out, key_len as u32);
            let mut j: usize = 0;
            let ghost out_mid = out@;
            while j < key_len
                invariant
                    j <= key_len == entries@[i as int].key@.len(),
                    i < entries@.len(),
                    out@ =~= out_mid + entries@[i as int].key@.take(j as int),
                decreases key_len - j,
            {
                let byte: u8 = entries[i].key[j];
                out.push(byte);
                proof {
                    assert(entries@[i as int].key@.take(j + 1) =~= entries@[i as int].key@.take(
                        j as int,
                    ).push(byte));
                }
                j = j + 1;
            }
            push_be_64(&mut out, entries[i].value);
            proof {
                assert(ev[i as int] == (entries@[i as int].key@, entries@[i as int].value));
                assert(entries@[i as int].key@.take(key_len as int) =~= entries@[i as int].key@);
                lemma_encode_entries_snoc(ev.take(i as int), ev[i as int]);
                assert(ev.take(i + 1) =~= ev.take(i as int).push(ev[i as int]));
            }
            i = i + 1;
        }
        proof {
            assert(ev.take(count as int) =~= ev);
        }
        Ok(out)
    }

    /// Decode a wire image back into a mapping.
    ///
    /// Succeeds exactly on the byte strings that are the encoding of some
    /// capped mapping whose keys are all valid UTF-8, and then returns that
    /// mapping; anything else — a truncated datagram, an over-cap count or
    /// key length, a key that is not valid UTF-8, or trailing bytes — is
    /// malformed.
    #[verifier::loop_isolation(false)]
    #[verifier::rlimit(100)]
    pub fn decode(&self, buf: &Vec<u8>) -> (r: Result<Vec<MapEntry>, CodecError>)
        ensures
            match r {
                Ok(m) => entries_wf(entries_view(m@)) && keys_utf8(entries_view(m@))
                    && spec_encode(entries_view(m@)) == buf@,
                Err(e) => e == CodecError::Malformed && forall|s: Seq<(Seq<u8>, u64)>|
                    entries_wf(s) && keys_utf8(s) ==> #[trigger] spec_encode(s) != buf@,
            },
    {
        let len: usize = buf.len();
        if len < 4 {
            proof {
                assert forall|s: Seq<(Seq<u8>, u64)>|
                    entries_wf(s) && keys_utf8(s) implies #[trigger] spec_encode(s) != buf@ by {
                    lemma_be_bytes_len(s.len() as int, 4);
                }
            }
            return Err(CodecError::Malformed);
        }
        let n: u32 = read_be_32(buf, 0);
        proof {
            lemma_pow256_small();
            assert forall|s: Seq<(Seq<u8>, u64)>|
                entries_wf(s) && #[trigger] spec_encode(s) == buf@ implies s.len() == n by {
                lemma_be_bytes_len(s.len() as int, 4);
                assert(be_bytes(s.len() as int, 4) =~= buf@.subrange(0, 4));
                lemma_be_bytes_injective(s.len() as int, n as int, 4);
            }
        }
        if n > MAX_CODEC_LEN as u32 {
            return Err(CodecError::Malformed);
        }
        let n_us: usize = n as usize;
        let mut out: Vec<MapEntry> = Vec::new();
        let mut pos: usize = 4;
        let mut i: usize = 0;
        while i < n_us
            invariant
                4 <= pos <= len == buf@.len(),
                i <= n_us == n <= 0x7FFF_FFFF,
                out@.len() == i,
                forall|k: int|
                    0 <= k < i ==> (#[trigger] entries_view(out@)[k]).0.len() <= 0x7FFF_FFFF,
                forall|k: int| 0 <= k < i ==> is_utf8((#[trigger] entries_view(out@)[k]).0),
                buf@.subrange(0, pos as int) =~= be_bytes(n as int, 4) + spec_encode_entries(
                    entries_view(out@),
                ),
                forall|s: Seq<(Seq<u8>, u64)>|
                    entries_wf(s) && #[trigger] spec_encode(s) == buf@ ==> s.len() == n
                        && s.take(i as int) =~~= entries_view(out@),
            decreases n_us - i,
        {
            let ghost prev_view = entries_view(out@);
            proof {
                lemma_decode_candidate_tail(buf@, n as int, i as int, pos as int, prev_view);
            }
            if len - pos < 4 {
                proof {
                    assert forall|s: Seq<(Seq<u8>, u64)>|
                        entries_wf(s) && keys_utf8(s) implies #[trigger] spec_encode(s) != buf@ by {
                        if entries_wf(s) && spec_encode(s) == buf@ {
                            assert(spec_encode_entries(s.skip(i as int)) =~= buf@.subrange(
                                pos as int,
                                len as int,
                            ));
                            lemma_encode_entries_first(s.skip(i as int));
                        }
                    }
                }
                return Err(CodecError::Malformed);
            }
            let key_len: u32 = read_be_32(buf, pos);
            proof {
                assert forall|s: Seq<(Seq<u8>, u64)>|
                    entries_wf(s) && #[trigger] spec_encode(s) == buf@ implies s[i as int].0.len()
                    == key_len && 12 + s[i as int].0.len() <= len - pos by {
                    let tail = s.skip(i as int);
                    assert(spec_encode_entries(tail) =~= buf@.subrange(pos as int, len as int));
                    lemma_encode_entries_first(tail);
                    assert(tail[0] == s[i as int]);
                    assert(spec_encode_entries(tail).len() == len - pos);
                    assert(spec_encode_entry(tail[0]) + spec_encode_entries(tail.drop_first())
                        == buf@.subrange(pos as int, len as int));
                    lemma_entry_bytes_split(
                        tail[0],
                        spec_encode_entries(tail.drop_first()),
                        buf@,
                        pos as int,
                    );
                    lemma_pow256_small();
                    lemma_be_bytes_injective(tail[0].0.len() as int, key_len as int, 4);
                }
            }
            if key_len > MAX_CODEC_LEN as u32 {
                proof {
                    assert forall|s: Seq<(Seq<u8>, u64)>|
                        entries_wf(s) && keys_utf8(s) implies #[trigger] spec_encode(s) != buf@ by {
                        if entries_wf(s) && spec_encode(s) == buf@ {
                            assert(s[i as int].0.len() == key_len);
                        }
                    }
                }
                return Err(CodecError::Malformed);
            }
            let kl: usize = key_len as usize;
            let remaining: usize = len - pos - 4;
            if remaining < 8 || remaining - 8 < kl {
                proof {
                    assert forall|s: Seq<(Seq<u8>, u64)>|
                        entries_wf(s) && keys_utf8(s) implies #[trigger] spec_encode(s) != buf@ by {
                        if entries_wf(s) && spec_encode(s) == buf@ {
                            assert(s[i as int].0.len() == key_len);
                            assert(12 + s[i as int].0.len() <= len - pos);
                        }
                    }
                }
                return Err(CodecError::Malformed);
            }
            let mut key: Vec<u8> = Vec::new();
            let mut j: usize = 0;
            while j < kl
                invariant
                    j <= kl,
                    pos + 4 + kl <= len == buf@.len(),
                    key@ =~= buf@.subrange(pos + 4, pos + 4 + j),
                decreases kl - j,
            {
                let byte: u8 = buf[pos + 4 + j];
                key.push(byte);
                proof {
                    assert(buf@.subrange(pos + 4, pos + 4 + (j + 1)) =~= buf@.subrange(
                        pos + 4,
                        pos + 4 + j,
                    ).push(byte));
                }
                j = j + 1;
            }
            if !check_utf8(&key) {
                proof {
                    assert forall|s: Seq<(Seq<u8>, u64)>|
                        entries_wf(s) && keys_utf8(s) implies #[trigger] spec_encode(s)
                        != buf@ by {
                        if entries_wf(s) && keys_utf8(s) && spec_encode(s) == buf@ {
                            let tail = s.skip(i as int);
                            assert(spec_encode_entries(tail) =~= buf@.subrange(
                                pos as int,
                                len as int,
                            ));
                            lemma_encode_entries_first(tail);
                            assert(tail[0] == s[i as int]);
                            assert(s[i as int].0.len() == key_len);
                            assert(spec_encode_entry(tail[0]) + spec_encode_entries(
                                tail.drop_first(),
                            ) == buf@.subrange(pos as int, len as int));
                            lemma_entry_bytes_split(
                                tail[0],
                                spec_encode_entries(tail.drop_first()),
                                buf@,
                                pos as int,
                            );
                            assert(s[i as int].0 =~= buf@.subrange(pos + 4, pos + 4 + kl));
                            assert(s[i as int].0 =~= key@);
                            assert(is_utf8(s[i as int].0));
                        }
                    }
                }
                return Err(CodecError::Malformed);
            }
            let value: u64 = read_be_64(buf, pos + 4 + kl);
            let entry = MapEntry { key, value };
            out.push(entry);
            let old_pos: usize = pos;
            pos = pos + 12 + kl;
            proof {
                let e: (Seq<u8>, u64) = (entry.key@, entry.value);
                assert(entries_view(out@) =~~= prev_view.push(e));
                lemma_encode_entries_snoc(prev_view, e);
                assert(spec_encode_entry(e) =~= buf@.subrange(old_pos as int, pos as int)) by {
                    lemma_be_bytes_len(e.0.len() as int, 4);
                    lemma_be_bytes_len(e.1 as int, 8);
                    assert(be_bytes(e.0.len() as int, 4) =~= buf@.subrange(
                        old_pos as int,
                        old_pos + 4,
                    ));
                    assert(e.0 =~= buf@.subrange(old_pos + 4, old_pos + 4 + kl));
                    assert(be_bytes(e.1 as int, 8) =~= buf@.subrange(
                        old_pos + 4 + kl,
                        pos as int,
                    ));
                }
                assert(buf@.subrange(0, pos as int) =~= buf@.subrange(0, old_pos as int)
                    + buf@.subrange(old_pos as int, pos as int));
                assert forall|s: Seq<(Seq<u8>, u64)>|
                    entries_wf(s) && #[trigger] spec_encode(s) == buf@ implies s.take(i + 1)
                    =~~= entries_view(out@) by {
                    let tail = s.skip(i as int);
                    assert(spec_encode_entries(tail) =~= buf@.subrange(
                        old_pos as int,
                        len as int,
                    ));
                    lemma_encode_entries_first(tail);
                    assert(tail[0] == s[i as int]);
                    assert(s[i as int].0.len() == key_len);
                    assert(spec_encode_entry(tail[0]) + spec_encode_entries(tail.drop_first())
                        == buf@.subrange(old_pos as int, len as int));
                    lemma_entry_bytes_split(
                        tail[0],
                        spec_encode_entries(tail.drop_first()),
                        buf@,
                        old_pos as int,
                    );
                    assert(tail[0].0 =~= buf@.subrange(old_pos + 4, old_pos + 4 + kl));
                    assert(e.0 =~= buf@.subrange(old_pos + 4, old_pos + 4 + kl));
                    assert(be_bytes(value as int, 8) =~= buf@.subrange(
                        old_pos + 4 + kl,
                        old_pos + 12 + kl,
                    ));
                    lemma_pow256_small();
                    lemma_be_bytes_injective(tail[0].1 as int, value as int, 8);
                    assert(s[i as int] =~~= e);
                    assert(s.take(i + 1) =~~= s.take(i as int).push(s[i as int]));
                }
            }
            i = i + 1;
        }
        if pos != len {
            proof {
                assert forall|s: Seq<(Seq<u8>, u64)>|
                    entries_wf(s) && keys_utf8(s) implies #[trigger] spec_encode(s) != buf@ by {
                    if entries_wf(s) && spec_encode(s) == buf@ {
                        lemma_decode_candidate_tail(
                            buf@,
                            n as int,
                            n as int,
                            pos as int,
                            entries_view(out@),
                        );
                        assert(s.skip(n as int) =~~= Seq::<(Seq<u8>, u64)>::empty());
                        assert(spec_encode_entries(s.skip(n as int)).len() == 0);
                    }
                }
            }
            return Err(CodecError::Malformed);
        }
        proof {
            assert(buf@.subrange(0, len as int) =~= buf@);
            assert(entries_view(out@).len() == n as int);
            assert(keys_utf8(entries_view(out@)));
            assert(spec_encode(entries_view(out@)) =~= be_bytes(n as int, 4) + spec_encode_entries(
                entries_view(out@),
            ));
        }
        Ok(out)
    }
}

/// Splitting the byte string of one entry followed by a remainder, laid
/// down in `buf` from position `p`, back into its three fields and the
/// remainder.
proof fn lemma_entry_bytes_split(t: (Seq<u8>, u64), rest: Seq<u8>, buf: Seq<u8>, p: int)
    requires
        0 <= p,
        p + 12 + t.0.len() <= buf.len(),
        spec_encode_entry(t) + rest == buf.subrange(p, buf.len() as int),
    ensures
        be_bytes(t.0.len() as int, 4) =~= buf.subrange(p, p + 4),
        t.0 =~= buf.subrange(p + 4, p + 4 + t.0.len()),
        be_bytes(t.1 as int, 8) =~= buf.subrange(p + 4 + t.0.len(), p + 12 + t.0.len()),
{
    lemma_be_bytes_len(t.0.len() as int, 4);
    lemma_be_bytes_len(t.1 as int, 8);
    let kl = t.0.len() as int;
    let all = spec_encode_entry(t) + rest;
    assert(spec_encode_entry(t).len() == 12 + kl);
    assert forall|q: int| 0 <= q < all.len() implies all[q] == buf[p + q] by {
        assert(buf.subrange(p, buf.len() as int)[q] == buf[p + q]);
    }
    assert forall|q: int| 0 <= q < 4 implies be_bytes(kl, 4)[q] == buf[p + q] by {
        assert(all[q] == be_bytes(kl, 4)[q]);
    }
    assert forall|q: int| 0 <= q < kl implies t.0[q] == buf[p + 4 + q] by {
        assert(all[4 + q] == t.0[q]);
    }
    assert forall|q: int| 0 <= q < 8 implies be_bytes(t.1 as int, 8)[q] == buf[p + 4 + kl + q] by {
        assert(all[4 + kl + q] == be_bytes(t.1 as int, 8)[q]);
    }
}

/// Any capped mapping whose wire image is `buf` and whose first `i` entries
/// have been reproduced has its remaining entries encoded in the rest of
/// the buffer.
proof fn lemma_decode_candidate_tail(
    buf: Seq<u8>,
    n: int,
    i: int,
    pos: int,
    parsed: Seq<(Seq<u8>, u64)>,
)
    requires
        0 <= i <= n,
        4 <= pos <= buf.len(),
        buf.subrange(0, pos) == be_bytes(n, 4) + spec_encode_entries(parsed),
        parsed.len() == i,
    ensures
        forall|s: Seq<(Seq<u8>, u64)>|
            (entries_wf(s) && #[trigger] spec_encode(s) == buf && s.len() == n && s.take(i)
                =~~= parsed) ==> spec_encode_entries(s.skip(i)) =~= buf.subrange(
                pos,
                buf.len() as int,
            ),
{
    assert forall|s: Seq<(Seq<u8>, u64)>|
        (entries_wf(s) && #[trigger] spec_encode(s) == buf && s.len() == n && s.take(i)
            =~~= parsed) implies spec_encode_entries(s.skip(i)) =~= buf.subrange(
        pos,
        buf.len() as int,
    ) by {
        assert(i <= s.len());
        assert(s =~~= s.take(i) + s.skip(i));
        lemma_encode_entries_concat(s.take(i), s.skip(i));
        assert(spec_encode_entries(s.take(i)) == spec_encode_entries(parsed));
        lemma_be_bytes_len(n, 4);
        assert(spec_encode(s) == be_bytes(n, 4) + spec_encode_entries(s.take(i))
            + spec_encode_entries(s.skip(i)));
        assert(buf.subrange(0, pos).len() == pos);
        assert(spec_encode_entries(parsed).len() == pos - 4);
        assert(spec_encode_entries(s.skip(i)) =~= buf.subrange(pos, buf.len() as int));
    }
}

} // verus!
