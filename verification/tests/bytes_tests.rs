use httpd_core::bytes::{parse_dec_bytes, trim_bytes, usize_to_dec, vec_u8_eq};
use httpd_core::table::ByteTable;

#[test]
fn decimal_rendering_is_exact() {
    assert_eq!(usize_to_dec(0), b"0".to_vec());
    assert_eq!(usize_to_dec(7), b"7".to_vec());
    assert_eq!(usize_to_dec(10), b"10".to_vec());
    assert_eq!(usize_to_dec(1234), b"1234".to_vec());
    assert_eq!(usize_to_dec(usize::MAX), format!("{}", usize::MAX).into_bytes());
}

#[test]
fn decimal_parsing_accepts_digits_after_an_optional_plus() {
    assert_eq!(parse_dec_bytes(&b"0".to_vec()), Some(0));
    assert_eq!(parse_dec_bytes(&b"007".to_vec()), Some(7));
    assert_eq!(parse_dec_bytes(&b"4096".to_vec()), Some(4096));
    assert_eq!(parse_dec_bytes(&b"+5".to_vec()), Some(5));
    assert_eq!(parse_dec_bytes(&b"+007".to_vec()), Some(7));
    assert_eq!(parse_dec_bytes(&b"".to_vec()), None);
    assert_eq!(parse_dec_bytes(&b"+".to_vec()), None);
    assert_eq!(parse_dec_bytes(&b"++3".to_vec()), None);
    assert_eq!(parse_dec_bytes(&b"12a".to_vec()), None);
    assert_eq!(parse_dec_bytes(&b"-3".to_vec()), None);
    assert_eq!(parse_dec_bytes(&b" 3".to_vec()), None);
}

#[test]
fn decimal_parsing_rejects_overflow() {
    let mut huge = format!("{}", usize::MAX).into_bytes();
    huge.push(b'0');
    assert_eq!(parse_dec_bytes(&huge), None);
    assert_eq!(
        parse_dec_bytes(&format!("{}", usize::MAX).into_bytes()),
        Some(usize::MAX)
    );
}

#[test]
fn trimming_strips_ascii_whitespace_at_both_ends() {
    assert_eq!(trim_bytes(&b"  a b \t".to_vec()), b"a b".to_vec());
    assert_eq!(trim_bytes(&b"\r\nx\r\n".to_vec()), b"x".to_vec());
    assert_eq!(trim_bytes(&b"   ".to_vec()), Vec::<u8>::new());
    assert_eq!(trim_bytes(&b"plain".to_vec()), b"plain".to_vec());
}

#[test]
fn byte_vector_equality_is_by_contents() {
    assert!(vec_u8_eq(&b"abc".to_vec(), &b"abc".to_vec()));
    assert!(!vec_u8_eq(&b"abc".to_vec(), &b"abd".to_vec()));
    assert!(!vec_u8_eq(&b"abc".to_vec(), &b"ab".to_vec()));
}

#[test]
fn table_updates_overwrite_in_place_and_remove_deletes() {
    let mut t = ByteTable::new();
    t.set(b"k1".to_vec(), b"v1".to_vec());
    t.set(b"k2".to_vec(), b"v2".to_vec());
    assert_eq!(t.len(), 2);
    t.set(b"k1".to_vec(), b"v3".to_vec());
    assert_eq!(t.len(), 2);
    assert_eq!(t.get(&b"k1".to_vec()), Some(b"v3".to_vec()));
    t.remove(&b"k1".to_vec());
    assert_eq!(t.get(&b"k1".to_vec()), None);
    assert_eq!(t.len(), 1);
    t.remove(&b"absent".to_vec());
    assert_eq!(t.len(), 1);
}
