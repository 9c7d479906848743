//! Footer codec: the fixed-width trailer at the end of a composite binary.
//!
//! Two encodings are supported. The size-only footer is 8 bytes: the archive
//! length as a little-endian unsigned 64-bit integer. The size-and-tag footer
//! is 12 bytes: the 8 size bytes followed by the 4-byte ASCII tag.

use vstd::prelude::*;

verus! {

/// First byte of the 4-byte format tag (ASCII 'G').
pub const TAG0: u8 = 0x47;
/// Second byte of the 4-byte format tag (ASCII 'D').
pub const TAG1: u8 = 0x44;
/// Third byte of the 4-byte format tag (ASCII 'P').
pub const TAG2: u8 = 0x50;
/// Fourth byte of the 4-byte format tag (ASCII 'C').
pub const TAG3: u8 = 0x43;

/// Width in bytes of the size-only footer.
pub const PLAIN_FOOTER_LEN: usize = 8;
/// Width in bytes of the size-and-tag footer.
pub const TAGGED_FOOTER_LEN: usize = 12;

/// The 4-byte format tag as a sequence.
pub open spec fn tag_seq() -> Seq<u8> {
    seq![TAG0, TAG1, TAG2, TAG3]
}

/// The tag occurs in `s` at position `p`.
pub open spec fn tag_at(s: Seq<u8>, p: int) -> bool {
    &&& 0 <= p
    &&& p + 4 <= s.len()
    &&& s[p] == TAG0
    &&& s[p + 1] == TAG1
    &&& s[p + 2] == TAG2
    &&& s[p + 3] == TAG3
}

/// The 8 little-endian bytes of `n`, least significant first.
pub open spec fn u64_le(n: u64) -> Seq<u8> {
    seq![
        (n & 0xff) as u8,
        ((n >> 8) & 0xff) as u8,
        ((n >> 16) & 0xff) as u8,
        ((n >> 24) & 0xff) as u8,
        ((n >> 32) & 0xff) as u8,
        ((n >> 40) & 0xff) as u8,
        ((n >> 48) & 0xff) as u8,
        ((n >> 56) & 0xff) as u8,
    ]
}

/// The value of the 8 little-endian bytes of `s` starting at `off`.
pub open spec fn u64_from_le_at(s: Seq<u8>, off: int) -> u64
    recommends
        0 <= off,
        off + 8 <= s.len(),
{
    (s[off] as u64) | ((s[off + 1] as u64) << 8) | ((s[off + 2] as u64) << 16)
        | ((s[off + 3] as u64) << 24) | ((s[off + 4] as u64) << 32) | ((s[off + 5] as u64) << 40)
        | ((s[off + 6] as u64) << 48) | ((s[off + 7] as u64) << 56)
}

/// Reading back the little-endian bytes of `n` recovers `n`.
pub proof fn lemma_u64_le_round_trip(n: u64)
    ensures
        u64_from_le_at(u64_le(n), 0) == n,
{
    assert((((n & 0xff) as u8) as u64) | ((((n >> 8) & 0xff) as u8 as u64) << 8) | ((((n >> 16)
        & 0xff) as u8 as u64) << 16) | ((((n >> 24) & 0xff) as u8 as u64) << 24) | ((((n >> 32)
        & 0xff) as u8 as u64) << 32) | ((((n >> 40) & 0xff) as u8 as u64) << 40) | ((((n >> 48)
        & 0xff) as u8 as u64) << 48) | ((((n >> 56) & 0xff) as u8 as u64) << 56) == n)
        by (bit_vector);
}

/// `u64_from_le_at` depends only on the 8 bytes it reads: equal windows give
/// equal values.
pub proof fn lemma_u64_from_le_at_eq(s: Seq<u8>, off: int, t: Seq<u8>, toff: int)
    requires
        0 <= off,
        off + 8 <= s.len(),
        0 <= toff,
        toff + 8 <= t.len(),
        forall|k: int| 0 <= k < 8 ==> #[trigger] s[off + k] == t[toff + k],
    ensures
        u64_from_le_at(s, off) == u64_from_le_at(t, toff),
{
    assert(s[off + 0] == t[toff + 0]);
    assert(s[off + 1] == t[toff + 1]);
    assert(s[off + 2] == t[toff + 2]);
    assert(s[off + 3] == t[toff + 3]);
    assert(s[off + 4] == t[toff + 4]);
    assert(s[off + 5] == t[toff + 5]);
    assert(s[off + 6] == t[toff + 6]);
    assert(s[off + 7] == t[toff + 7]);
}

/// Append the 8 little-endian bytes of `n` to `out`.
pub fn push_u64_le(out: &mut Vec<u8>, n: u64)
    ensures
        final(out)@ == old(out)@ + u64_le(n),
{
    out.push((n & 0xff) as u8);
    out.push(((n >> 8) & 0xff) as u8);
    out.push(((n >> 16) & 0xff) as u8);
    out.push(((n >> 24) & 0xff) as u8);
    out.push(((n >> 32) & 0xff) as u8);
    out.push(((n >> 40) & 0xff) as u8);
    out.push(((n >> 48) & 0xff) as u8);
    out.push(((n >> 56) & 0xff) as u8);
    proof {
        assert(out@ =~= old(out)@ + u64_le(n));
    }
}

/// Read the 8 little-endian bytes of `buf` starting at `off` as a u64.
pub fn read_u64_le_at(buf: &Vec<u8>, off: usize) -> (n: u64)
    requires
        off + 8 <= buf@.len(),
    ensures
        n == u64_from_le_at(buf@, off as int),
{
    proof {
        vstd::std_specs::vec::axiom_spec_len(buf);
    }
    (buf[off] as u64) | ((buf[off + 1] as u64) << 8) | ((buf[off + 2] as u64) << 16) | ((buf[off
        + 3] as u64) << 24) | ((buf[off + 4] as u64) << 32) | ((buf[off + 5] as u64) << 40)
        | ((buf[off + 6] as u64) << 48) | ((buf[off + 7] as u64) << 56)
}

/// The encoded footer: 8 little-endian size bytes, followed by the tag when
/// `tagged` is set.
pub open spec fn encode_spec(archive_length: u64, tagged: bool) -> Seq<u8> {
    if tagged {
        u64_le(archive_length) + tag_seq()
    } else {
        u64_le(archive_length)
    }
}

/// Encode a footer holding `archive_length`: 8 bytes for the size-only
/// variant, 12 bytes (size then tag) for the tagged variant.
pub fn encode(archive_length: u64, tagged: bool) -> (r: Vec<u8>)
    ensures
        r@ == encode_spec(archive_length, tagged),
{
    let mut r: Vec<u8> = Vec::new();
    push_u64_le(&mut r, archive_length);
    if tagged {
        r.push(TAG0);
        r.push(TAG1);
        r.push(TAG2);
        r.push(TAG3);
        proof {
            assert(r@ =~= encode_spec(archive_length, true));
        }
    }
    r
}

/// What decoding the tail of `s` yields: the stored size and the footer
/// width that was read. A buffer of 12 or more bytes ending in the tag is
/// read as a tagged footer; otherwise a buffer of 8 or more bytes is read as
/// a size-only footer; a shorter buffer holds no footer at all.
pub open spec fn decode_tail_spec(s: Seq<u8>) -> Option<(u64, u8)> {
    if s.len() >= 12 && tag_at(s, s.len() - 4) {
        Some((u64_from_le_at(s, s.len() - 12), 12u8))
    } else if s.len() >= 8 {
        Some((u64_from_le_at(s, s.len() - 8), 8u8))
    } else {
        None
    }
}

/// Decode the footer at the end of `buffer`, trying the tagged variant
/// first, then the size-only variant.
pub fn decode_tail(buffer: &Vec<u8>) -> (r: Option<(u64, u8)>)
    ensures
        r == decode_tail_spec(buffer@),
{
    let len = buffer.len();
    if len >= TAGGED_FOOTER_LEN && buffer[len - 4] == TAG0 && buffer[len - 3] == TAG1 && buffer[len - 2] == TAG2
        && buffer[len - 1] == TAG3 {
        Some((read_u64_le_at(buffer, len - TAGGED_FOOTER_LEN), 12u8))
    } else if len >= PLAIN_FOOTER_LEN {
        Some((read_u64_le_at(buffer, len - PLAIN_FOOTER_LEN), 8u8))
    } else {
        None
    }
}

/// Law: decoding the tail of a freshly encoded tagged footer returns the
/// encoded size and the tagged width, for every size value.
pub proof fn lemma_decode_encode_tagged(n: u64)
    ensures
        decode_tail_spec(encode_spec(n, true)) == Some((n, 12u8)),
{
    let s = encode_spec(n, true);
    assert(s.len() == 12);
    assert(tag_at(s, 8));
    lemma_u64_le_round_trip(n);
    lemma_u64_from_le_at_eq(s, 0, u64_le(n), 0);
}

/// Law: a buffer shorter than the tagged footer width is never decoded as
/// tagged, and one shorter than the size-only width holds no footer at all.
pub proof fn lemma_short_buffer_decodes_no_tag(s: Seq<u8>)
    ensures
        s.len() < 12 ==> (decode_tail_spec(s) matches Some(r) ==> r.1 == 8u8),
        s.len() < 8 ==> decode_tail_spec(s) is None,
{
}

} // verus!
