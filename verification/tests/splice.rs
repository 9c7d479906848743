use appbinder::SpliceError;
use appbinder::footer::encode;
use appbinder::splice::{append, compose, extract, extract_required, find_tag, resolve_boundary};

const TAG: [u8; 4] = [0x47, 0x44, 0x50, 0x43];

fn archive_with_tag_header(extra: &[u8]) -> Vec<u8> {
    let mut a = TAG.to_vec();
    a.extend_from_slice(extra);
    a
}

#[test]
fn compose_layout_is_launcher_archive_footer() {
    let launcher = vec![1, 2, 3];
    let archive = vec![9, 8];
    let r = compose(&launcher, &archive);
    let mut expected = vec![1, 2, 3, 9, 8];
    expected.extend_from_slice(&encode(2, true));
    assert_eq!(r, expected);
}

#[test]
fn scenario_hundred_byte_launcher_fifty_byte_archive() {
    let launcher: Vec<u8> = (0..100).map(|i| (i * 7 + 3) as u8).collect();
    let archive = archive_with_tag_header(&[0x5A; 46]);
    assert_eq!(archive.len(), 50);
    let composite = compose(&launcher, &archive);
    assert_eq!(composite.len(), 162);
    assert_eq!(&composite[158..], &TAG);
    let (l, a) = extract(&composite);
    assert_eq!(l.len(), 100);
    assert_eq!(a.len(), 50);
    assert_eq!(l, launcher);
    assert_eq!(a, archive);
}

#[test]
fn round_trip_via_footer_path() {
    let launcher = vec![0xE7, 0x00, 0x47];
    let archive = archive_with_tag_header(&[1, 2, 3, 4, 5]);
    let composite = compose(&launcher, &archive);
    let (boundary, via_footer) = resolve_boundary(&composite);
    assert!(via_footer);
    assert_eq!(boundary, 3);
    let (l, a) = extract(&composite);
    assert_eq!(l, launcher);
    assert_eq!(a, archive);
}

#[test]
fn round_trip_with_empty_launcher() {
    let launcher = vec![];
    let archive = archive_with_tag_header(&[0xFF]);
    let (l, a) = extract(&compose(&launcher, &archive));
    assert_eq!(l, launcher);
    assert_eq!(a, archive);
}

#[test]
fn fallback_scan_returns_first_occurrence() {
    // No valid footer: the buffer does not end in the tag. The tag occurs
    // first at position 2 and again at position 8; the boundary must be 2.
    let mut buf = vec![0x10, 0x11];
    buf.extend_from_slice(&TAG);
    buf.extend_from_slice(&[0x20, 0x21]);
    buf.extend_from_slice(&TAG);
    buf.push(0x30);
    let (boundary, via_footer) = resolve_boundary(&buf);
    assert!(!via_footer);
    assert_eq!(boundary, 2);
    let (l, a) = extract(&buf);
    assert_eq!(l, vec![0x10, 0x11]);
    assert_eq!(a, buf[2..].to_vec());
}

#[test]
fn find_tag_reports_first_match() {
    let mut buf = vec![0x47, 0x44, 0x50];
    buf.extend_from_slice(&TAG);
    assert_eq!(find_tag(&buf), Some(3));
    assert_eq!(find_tag(&vec![0x47, 0x44, 0x50, 0x44]), None);
}

#[test]
fn no_tag_and_no_footer_yields_whole_launcher_and_empty_archive() {
    let buf: Vec<u8> = (0..40).map(|i| i as u8).collect();
    let (boundary, via_footer) = resolve_boundary(&buf);
    assert!(!via_footer);
    assert_eq!(boundary, 40);
    let (l, a) = extract(&buf);
    assert_eq!(l, buf);
    assert_eq!(a, Vec::<u8>::new());
}

#[test]
fn extract_of_empty_buffer() {
    let (l, a) = extract(&vec![]);
    assert_eq!(l, Vec::<u8>::new());
    assert_eq!(a, Vec::<u8>::new());
}

#[test]
fn short_file_ending_in_tag_is_not_treated_as_tagged() {
    // 11 bytes ending in the tag: too short for the tagged footer, so the
    // boundary comes from the scan, which finds the tag at position 7.
    let mut buf = vec![0, 1, 2, 3, 4, 5, 6];
    buf.extend_from_slice(&TAG);
    let (boundary, via_footer) = resolve_boundary(&buf);
    assert!(!via_footer);
    assert_eq!(boundary, 7);
}

#[test]
fn spoofed_footer_with_oversized_size_falls_back() {
    // Ends in the tag, but the stored size exceeds the space in front of
    // the footer: the footer-verified path must reject it.
    let mut buf = vec![0xAB; 4];
    buf.extend_from_slice(&encode(u64::MAX, true));
    let (_, via_footer) = resolve_boundary(&buf);
    assert!(!via_footer);
}

#[test]
fn append_accumulates_sizes() {
    // Composite whose untagged footer holds 5.
    let mut composite = vec![0xC0, 0xC1];
    composite.extend_from_slice(&encode(5, false));
    let first = append(&composite, &vec![0xD0, 0xD1, 0xD2]).unwrap();
    let mut expected = vec![0xC0, 0xC1, 0xD0, 0xD1, 0xD2];
    expected.extend_from_slice(&encode(8, false));
    assert_eq!(first, expected);
    let second = append(&first, &vec![0xE0, 0xE1, 0xE2, 0xE3]).unwrap();
    let mut expected2 = vec![0xC0, 0xC1, 0xD0, 0xD1, 0xD2, 0xE0, 0xE1, 0xE2, 0xE3];
    expected2.extend_from_slice(&encode(12, false));
    assert_eq!(second, expected2);
}

#[test]
fn extract_required_rejects_archiveless_buffer() {
    let buf: Vec<u8> = vec![0x01, 0x02, 0x03];
    assert_eq!(
        extract_required(&buf),
        Err(SpliceError::ArchiveBoundaryNotFound)
    );
}

#[test]
fn extract_required_returns_both_regions() {
    let launcher = vec![0x33; 5];
    let archive = archive_with_tag_header(&[7, 7]);
    let composite = compose(&launcher, &archive);
    let (l, a) = extract_required(&composite).unwrap();
    assert_eq!(l, launcher);
    assert_eq!(a, archive);
}

#[test]
fn append_to_short_composite_is_invalid_footer() {
    let buf = vec![1, 2, 3, 4, 5, 6, 7];
    assert_eq!(append(&buf, &vec![9]), Err(SpliceError::InvalidFooter));
}
