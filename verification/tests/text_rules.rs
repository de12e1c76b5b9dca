use mnemosyne::backend::collapse_slashes;
use mnemosyne::text::{
    bytes_equal, copy_bytes, is_visible_text, list_names, names_match, to_lower,
};

#[test]
fn to_lower_folds_only_ascii_capitals() {
    assert_eq!(to_lower(b'A'), b'a');
    assert_eq!(to_lower(b'Z'), b'z');
    assert_eq!(to_lower(b'a'), b'a');
    assert_eq!(to_lower(b'@'), b'@');
    assert_eq!(to_lower(b'['), b'[');
    assert_eq!(to_lower(0xC9), 0xC9);
}

#[test]
fn names_match_ignores_ascii_case() {
    assert!(names_match(b"Host", b"hOST"));
    assert!(names_match(b"accept-encoding", b"Accept-Encoding"));
    assert!(names_match(b"", b""));
}

#[test]
fn names_match_rejects_other_names() {
    assert!(!names_match(b"host", b"hos"));
    assert!(!names_match(b"host", b"hosts"));
    assert!(!names_match(b"@", b"`"));
    assert!(!names_match(b"[", b"{"));
    assert!(!names_match(b"etag", b"vary"));
}

#[test]
fn bytes_equal_is_exact() {
    assert!(bytes_equal(b"abc", b"abc"));
    assert!(!bytes_equal(b"abc", b"abC"));
    assert!(!bytes_equal(b"abc", b"ab"));
    assert!(bytes_equal(b"", b""));
}

#[test]
fn copy_bytes_copies() {
    assert_eq!(copy_bytes(b"hello"), b"hello".to_vec());
    assert_eq!(copy_bytes(b""), Vec::<u8>::new());
}

#[test]
fn visible_text_is_printable_ascii_and_tab() {
    assert!(is_visible_text(b"text/html; q=0.9"));
    assert!(is_visible_text(b"a\tb"));
    assert!(is_visible_text(b""));
    assert!(is_visible_text(b" ~"));
}

#[test]
fn visible_text_rejects_control_and_high_bytes() {
    assert!(!is_visible_text(b"a\nb"));
    assert!(!is_visible_text(&[0x7f]));
    assert!(!is_visible_text(&[0x80]));
    assert!(!is_visible_text(&[b'a', 0xff, b'b']));
    assert!(!is_visible_text(&[0x1f]));
}

#[test]
fn list_names_finds_trimmed_fields_without_case() {
    assert!(list_names(b"Accept, Accept-Encoding", b"accept-encoding"));
    assert!(list_names(b"Accept, Accept-Encoding", b"ACCEPT"));
    assert!(list_names(b" accept ", b"Accept"));
    assert!(list_names(b"a,b,c", b"c"));
    assert!(list_names(b"a,\tb ,c", b"b"));
    assert!(list_names(b"\r\n a \x0b\x0c,b", b"A"));
}

#[test]
fn list_names_wants_whole_fields() {
    assert!(!list_names(b"Accept,Cookie", b"cook"));
    assert!(!list_names(b"Accept-Encoding", b"accept"));
    assert!(!list_names(b"a b", b"a"));
    assert!(!list_names(b"", b"x"));
    assert!(!list_names(b"a\x00", b"a"));
    assert!(!list_names(b"   ", b"x"));
    assert!(list_names(b"   ", b""));
}

#[test]
fn list_names_treats_star_as_a_name() {
    assert!(!list_names(b"*", b"accept"));
    assert!(list_names(b"*", b"*"));
}

#[test]
fn list_names_sees_empty_fields() {
    assert!(list_names(b"a,,b", b""));
    assert!(list_names(b"", b""));
    assert!(list_names(b"a,", b""));
    assert!(!list_names(b"a,b", b""));
}

#[test]
fn collapse_spares_the_scheme() {
    assert_eq!(
        collapse_slashes(b"http://127.0.0.1:1000//"),
        b"http://127.0.0.1:1000/".to_vec()
    );
    assert_eq!(collapse_slashes(b"http://h//a//b"), b"http://h/a/b".to_vec());
    assert_eq!(collapse_slashes(b"https://h/a"), b"https://h/a".to_vec());
}

#[test]
fn collapse_scans_from_the_left_once() {
    assert_eq!(collapse_slashes(b"///"), b"//".to_vec());
    assert_eq!(collapse_slashes(b"////"), b"//".to_vec());
    assert_eq!(collapse_slashes(b"http://h///x"), b"http://h//x".to_vec());
}

#[test]
fn collapse_without_scheme_collapses_everything() {
    assert_eq!(collapse_slashes(b"a:/b"), b"a:/b".to_vec());
    assert_eq!(collapse_slashes(b"abc"), b"abc".to_vec());
    assert_eq!(collapse_slashes(b""), Vec::<u8>::new());
    assert_eq!(collapse_slashes(b"x//y://z"), b"x/y:/z".to_vec());
    assert_eq!(collapse_slashes(b"//host/a"), b"/host/a".to_vec());
    assert_eq!(collapse_slashes(b"/a://b"), b"/a:/b".to_vec());
}

#[test]
fn collapse_keeps_a_scheme_at_the_end() {
    assert_eq!(collapse_slashes(b"a://"), b"a://".to_vec());
    assert_eq!(collapse_slashes(b"://"), b"://".to_vec());
    assert_eq!(collapse_slashes(b"a:///"), b"a:///".to_vec());
    assert_eq!(collapse_slashes(b"a:////"), b"a:///".to_vec());
}
