//! Splice engine: boundary resolution, compose, extract and append.
//!
//! Given only a composite buffer, the archive start is resolved in two
//! stages: a footer-verified lookup (decode the tagged footer, compute the
//! candidate start, and check the tag echoed at the archive's start), then a
//! fallback linear scan for the first occurrence of the tag. When neither
//! stage finds an archive, the launcher occupies the whole buffer and the
//! archive is empty.

use vstd::prelude::*;
use crate::SpliceError;
use crate::footer::{
    TAG0, TAG1, TAG2, TAG3, PLAIN_FOOTER_LEN, TAGGED_FOOTER_LEN, tag_at, u64_le, u64_from_le_at, encode_spec, push_u64_le,
    read_u64_le_at, lemma_u64_le_round_trip, lemma_u64_from_le_at_eq,
};

verus! {

/// Position of the first tag occurrence in `s` at or after `i`, or `s.len()`
/// when there is none.
pub open spec fn first_tag_from(s: Seq<u8>, i: int) -> int
    decreases s.len() - i,
{
    if i < 0 || i + 4 > s.len() {
        s.len() as int
    } else if tag_at(s, i) {
        i
    } else {
        first_tag_from(s, i + 1)
    }
}

/// The fallback boundary: position of the first tag occurrence in the whole
/// buffer, or its length when the tag does not occur.
pub open spec fn scan_boundary(s: Seq<u8>) -> int {
    first_tag_from(s, 0)
}

/// `first_tag_from(s, i)` is the first position at or after `i` where the
/// tag occurs, or `s.len()` when it occurs nowhere at or after `i`.
pub proof fn lemma_first_tag_from(s: Seq<u8>, i: int)
    requires
        0 <= i <= s.len(),
    ensures
        i <= first_tag_from(s, i) <= s.len(),
        first_tag_from(s, i) < s.len() ==> tag_at(s, first_tag_from(s, i)),
        forall|q: int| i <= q < first_tag_from(s, i) ==> !tag_at(s, q),
        first_tag_from(s, i) == s.len() ==> forall|q: int| q >= i ==> !tag_at(s, q),
    decreases s.len() - i,
{
    if i + 4 > s.len() {
    } else if tag_at(s, i) {
    } else {
        lemma_first_tag_from(s, i + 1);
    }
}

/// The tagged footer of `s` is present and verified: the buffer is at least
/// 12 bytes, ends in the tag, the stored size fits in front of the footer,
/// and the tag is echoed at the computed archive start.
pub open spec fn footer_valid(s: Seq<u8>) -> bool {
    &&& s.len() >= 12
    &&& tag_at(s, s.len() - 4)
    &&& u64_from_le_at(s, s.len() - 12) <= s.len() - 12
    &&& tag_at(s, s.len() - 12 - u64_from_le_at(s, s.len() - 12))
}

/// The resolved archive start: the footer-verified start when the tagged
/// footer is valid, otherwise the fallback scan boundary.
pub open spec fn boundary_spec(s: Seq<u8>) -> int {
    if footer_valid(s) {
        s.len() - 12 - u64_from_le_at(s, s.len() - 12)
    } else {
        scan_boundary(s)
    }
}

/// End of the emitted archive bytes: the footer is stripped exactly when the
/// boundary was resolved through it.
pub open spec fn archive_end_spec(s: Seq<u8>) -> int {
    if footer_valid(s) {
        s.len() - 12
    } else {
        s.len() as int
    }
}

/// The launcher region of a composite buffer.
pub open spec fn launcher_spec(s: Seq<u8>) -> Seq<u8> {
    s.subrange(0, boundary_spec(s))
}

/// The archive region of a composite buffer.
pub open spec fn archive_spec(s: Seq<u8>) -> Seq<u8> {
    s.subrange(boundary_spec(s), archive_end_spec(s))
}

/// Find the first occurrence of the tag in `buf`.
pub fn find_tag(buf: &Vec<u8>) -> (r: Option<usize>)
    ensures
        r matches Some(p) ==> p == scan_boundary(buf@) && tag_at(buf@, p as int),
        r is None ==> scan_boundary(buf@) == buf@.len(),
{
    let len = buf.len();
    if len < 4 {
        return None;
    }
    let mut i: usize = 0;
    while i <= len - 4
        invariant
            len == buf@.len(),
            4 <= len,
            i <= len - 3,
            scan_boundary(buf@) == first_tag_from(buf@, i as int),
        decreases len - i,
    {
        if buf[i] == TAG0 && buf[i + 1] == TAG1 && buf[i + 2] == TAG2 && buf[i + 3] == TAG3 {
            proof {
                assert(tag_at(buf@, i as int));
            }
            return Some(i);
        }
        proof {
            assert(!tag_at(buf@, i as int));
            assert(first_tag_from(buf@, i as int) == first_tag_from(buf@, i as int + 1));
        }
        i = i + 1;
    }
    None
}

/// Footer-verified boundary lookup: decode the tagged footer and check both
/// the stored size and the echoed tag at the computed archive start.
fn footer_boundary(buf: &Vec<u8>) -> (r: Option<usize>)
    ensures
        (r is Some) == footer_valid(buf@),
        r matches Some(p) ==> p == boundary_spec(buf@),
{
    let len = buf.len();
    if len < TAGGED_FOOTER_LEN {
        return None;
    }
    if !(buf[len - 4] == TAG0 && buf[len - 3] == TAG1 && buf[len - 2] == TAG2 && buf[len - 1]
        == TAG3) {
        return None;
    }
    let size = read_u64_le_at(buf, len - TAGGED_FOOTER_LEN);
    if size > (len - TAGGED_FOOTER_LEN) as u64 {
        return None;
    }
    let start = len - TAGGED_FOOTER_LEN - (size as usize);
    if buf[start] == TAG0 && buf[start + 1] == TAG1 && buf[start + 2] == TAG2 && buf[start + 3]
        == TAG3 {
        Some(start)
    } else {
        None
    }
}

/// Resolve the archive boundary of a composite buffer: the returned flag
/// says whether the footer-verified lookup succeeded, and the returned
/// position is the archive start (the buffer length when no archive is
/// present).
pub fn resolve_boundary(buf: &Vec<u8>) -> (r: (usize, bool))
    ensures
        r.1 == footer_valid(buf@),
        r.0 == boundary_spec(buf@),
{
    match footer_boundary(buf) {
        Some(start) => (start, true),
        None => {
            match find_tag(buf) {
                Some(p) => (p, false),
                None => (buf.len(), false),
            }
        },
    }
}

/// Copy `src[from..to]` into a fresh vector.
fn copy_range(src: &Vec<u8>, from: usize, to: usize) -> (r: Vec<u8>)
    requires
        from <= to <= src@.len(),
    ensures
        r@ == src@.subrange(from as int, to as int),
{
    let mut r: Vec<u8> = Vec::new();
    let mut i = from;
    while i < to
        invariant
            from <= i <= to <= src@.len(),
            r@ == src@.subrange(from as int, i as int),
        decreases to - i,
    {
        r.push(src[i]);
        proof {
            assert(r@ =~= src@.subrange(from as int, i + 1 as int));
        }
        i = i + 1;
    }
    r
}

/// Append `src[from..to]` to `dst`.
fn push_range(dst: &mut Vec<u8>, src: &Vec<u8>, from: usize, to: usize)
    requires
        from <= to <= src@.len(),
    ensures
        final(dst)@ == old(dst)@ + src@.subrange(from as int, to as int),
{
    let mut i = from;
    while i < to
        invariant
            from <= i <= to <= src@.len(),
            dst@ == old(dst)@ + src@.subrange(from as int, i as int),
        decreases to - i,
    {
        dst.push(src[i]);
        proof {
            assert(dst@ =~= old(dst)@ + src@.subrange(from as int, i + 1 as int));
        }
        i = i + 1;
    }
    proof {
        assert(dst@ =~= old(dst)@ + src@.subrange(from as int, to as int));
    }
}

/// The composed output: launcher bytes, archive bytes, tagged footer.
pub open spec fn compose_spec(l: Seq<u8>, a: Seq<u8>) -> Seq<u8> {
    l + a + encode_spec(a.len() as u64, true)
}

/// Compose a new composite binary from a launcher and an archive: the
/// launcher bytes, then the archive bytes, then a tagged footer recording
/// the archive's length.
pub fn compose(launcher: &Vec<u8>, archive: &Vec<u8>) -> (r: Vec<u8>)
    ensures
        r@ == compose_spec(launcher@, archive@),
{
    let mut r: Vec<u8> = Vec::new();
    push_range(&mut r, launcher, 0, launcher.len());
    push_range(&mut r, archive, 0, archive.len());
    push_u64_le(&mut r, archive.len() as u64);
    r.push(TAG0);
    r.push(TAG1);
    r.push(TAG2);
    r.push(TAG3);
    proof {
        assert(launcher@.subrange(0, launcher@.len() as int) =~= launcher@);
        assert(archive@.subrange(0, archive@.len() as int) =~= archive@);
        assert(r@ =~= compose_spec(launcher@, archive@));
    }
    r
}

/// Split a composite buffer into its launcher bytes and its archive bytes.
/// When the boundary was resolved through a valid tagged footer, the footer
/// itself is stripped from the archive; when it came from the fallback scan,
/// the archive runs to the end of the buffer; when no archive is present,
/// the launcher is the whole buffer and the archive is empty.
pub fn extract(buffer: &Vec<u8>) -> (r: (Vec<u8>, Vec<u8>))
    ensures
        r.0@ == launcher_spec(buffer@),
        r.1@ == archive_spec(buffer@),
{
    let (boundary, via_footer) = resolve_boundary(buffer);
    proof {
        if !footer_valid(buffer@) {
            lemma_first_tag_from(buffer@, 0);
        }
    }
    let end = if via_footer {
        buffer.len() - TAGGED_FOOTER_LEN
    } else {
        buffer.len()
    };
    let launcher = copy_range(buffer, 0, boundary);
    let archive = copy_range(buffer, boundary, end);
    (launcher, archive)
}

/// Split a composite buffer like `extract`, for callers that require a
/// non-empty archive: when neither a valid tagged footer nor a tag
/// occurrence marks an archive, report `ArchiveBoundaryNotFound` instead of
/// handing back an empty payload.
pub fn extract_required(buffer: &Vec<u8>) -> (r: Result<(Vec<u8>, Vec<u8>), SpliceError>)
    ensures
        boundary_spec(buffer@) < buffer@.len() ==> (r matches Ok(p) && p.0@ == launcher_spec(
            buffer@,
        ) && p.1@ == archive_spec(buffer@)),
        boundary_spec(buffer@) == buffer@.len() ==> r == Err::<
            (Vec<u8>, Vec<u8>),
            SpliceError,
        >(SpliceError::ArchiveBoundaryNotFound),
{
    let (boundary, _) = resolve_boundary(buffer);
    if boundary < buffer.len() {
        Ok(extract(buffer))
    } else {
        Err(SpliceError::ArchiveBoundaryNotFound)
    }
}

/// The value stored in the last 8 bytes of `s`, read as a size-only footer.
pub open spec fn tail_value(s: Seq<u8>) -> u64
    recommends
        s.len() >= 8,
{
    u64_from_le_at(s, s.len() - 8)
}

/// The appended output: everything before the old size-only footer, the new
/// archive bytes, and a fresh size-only footer holding the accumulated size.
pub open spec fn append_spec(c: Seq<u8>, a: Seq<u8>) -> Seq<u8>
    recommends
        c.len() >= 8,
        tail_value(c) + a.len() <= u64::MAX,
{
    c.subrange(0, c.len() - 8) + a + u64_le((tail_value(c) + a.len()) as u64)
}

/// Append new archive bytes to an existing composite whose trailing 8 bytes
/// are a size-only footer: the old footer is discarded, the new bytes are
/// appended, and a fresh footer holding the accumulated size is written.
/// A composite shorter than the size-only footer is rejected.
pub fn append(composite: &Vec<u8>, new_archive: &Vec<u8>) -> (r: Result<Vec<u8>, SpliceError>)
    requires
        composite@.len() >= 8 ==> tail_value(composite@) + new_archive@.len() <= u64::MAX,
    ensures
        composite@.len() >= 8 ==> (r matches Ok(out) && out@ == append_spec(
            composite@,
            new_archive@,
        )),
        composite@.len() < 8 ==> r == Err::<Vec<u8>, SpliceError>(SpliceError::InvalidFooter),
{
    let len = composite.len();
    if len < PLAIN_FOOTER_LEN {
        return Err(SpliceError::InvalidFooter);
    }
    let old_size = read_u64_le_at(composite, len - PLAIN_FOOTER_LEN);
    let mut out = copy_range(composite, 0, len - PLAIN_FOOTER_LEN);
    push_range(&mut out, new_archive, 0, new_archive.len());
    push_u64_le(&mut out, old_size + new_archive.len() as u64);
    proof {
        assert(new_archive@.subrange(0, new_archive@.len() as int) =~= new_archive@);
        assert(out@ =~= append_spec(composite@, new_archive@));
    }
    Ok(out)
}

/// Law: round trip. Extracting a freshly composed buffer returns the
/// launcher and the archive exactly, through the footer-verified path. The
/// archive must begin with the tag — the header echo the tagged format
/// requires — and its length must fit the 64-bit size field.
pub proof fn lemma_compose_extract_round_trip(l: Seq<u8>, a: Seq<u8>)
    requires
        tag_at(a, 0),
        a.len() <= u64::MAX,
    ensures
        footer_valid(compose_spec(l, a)),
        launcher_spec(compose_spec(l, a)) == l,
        archive_spec(compose_spec(l, a)) == a,
{
    let s = compose_spec(l, a);
    let n = a.len() as u64;
    assert(s.len() == l.len() + a.len() + 12);
    assert forall|k: int| 0 <= k < 8 implies #[trigger] s[s.len() - 12 + k] == u64_le(n)[k] by {
        assert(s[s.len() - 12 + k] == encode_spec(n, true)[k]);
    }
    lemma_u64_from_le_at_eq(s, s.len() - 12, u64_le(n), 0);
    lemma_u64_le_round_trip(n);
    assert(u64_from_le_at(s, s.len() - 12) == n);
    assert(tag_at(s, s.len() - 4));
    assert(tag_at(s, l.len() as int));
    assert(footer_valid(s));
    assert(boundary_spec(s) == l.len());
    assert(launcher_spec(s) =~= l);
    assert(archive_spec(s) =~= a);
}

/// Law: fallback determinism. When the footer-verified lookup fails and the
/// tag first occurs at position `p`, boundary resolution returns exactly
/// `p`, regardless of later occurrences.
pub proof fn lemma_fallback_first_occurrence(s: Seq<u8>, p: int)
    requires
        !footer_valid(s),
        tag_at(s, p),
        forall|q: int| 0 <= q < p ==> !tag_at(s, q),
    ensures
        boundary_spec(s) == p,
{
    lemma_first_tag_from(s, 0);
    let b = scan_boundary(s);
    if b < p {
        assert(!tag_at(s, b));
    }
    if b > p {
        assert(!tag_at(s, p));
    }
}

/// Law: no archive. On a buffer with no tag occurrence at all (so no valid
/// footer either), the launcher is the whole buffer and the archive is
/// empty.
pub proof fn lemma_no_archive(s: Seq<u8>)
    requires
        forall|p: int| !tag_at(s, p),
    ensures
        launcher_spec(s) == s,
        archive_spec(s) == Seq::<u8>::empty(),
{
    assert(!footer_valid(s));
    lemma_first_tag_from(s, 0);
    assert(scan_boundary(s) == s.len());
    assert(launcher_spec(s) =~= s);
    assert(archive_spec(s) =~= Seq::<u8>::empty());
}

/// Law: append accumulation. Starting from a composite whose size-only
/// footer holds `S0`, appending an archive of length `A1` leaves a footer
/// holding `S0 + A1`, and appending another of length `A2` leaves
/// `S0 + A1 + A2`.
pub proof fn lemma_append_accumulates(c: Seq<u8>, a1: Seq<u8>, a2: Seq<u8>)
    requires
        c.len() >= 8,
        tail_value(c) + a1.len() + a2.len() <= u64::MAX,
    ensures
        tail_value(append_spec(c, a1)) == tail_value(c) + a1.len(),
        tail_value(append_spec(append_spec(c, a1), a2)) == tail_value(c) + a1.len() + a2.len(),
{
    lemma_append_tail(c, a1);
    lemma_append_tail(append_spec(c, a1), a2);
}

/// The footer of an appended composite holds the old value plus the length
/// of the newly appended bytes.
pub proof fn lemma_append_tail(c: Seq<u8>, a: Seq<u8>)
    requires
        c.len() >= 8,
        tail_value(c) + a.len() <= u64::MAX,
    ensures
        append_spec(c, a).len() >= 8 + a.len(),
        tail_value(append_spec(c, a)) == tail_value(c) + a.len(),
{
    let s = append_spec(c, a);
    let v = (tail_value(c) + a.len()) as u64;
    assert(s.len() == c.len() + a.len());
    assert forall|k: int| 0 <= k < 8 implies #[trigger] s[s.len() - 8 + k] == u64_le(v)[k] by {}
    lemma_u64_from_le_at_eq(s, s.len() - 8, u64_le(v), 0);
    lemma_u64_le_round_trip(v);
}

} // verus!
