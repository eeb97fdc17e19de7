use dircrawl::path::{has_no_nul, is_terminated as library_is_terminated, Path, NUL, SEPARATOR};

fn is_terminated(bytes: &[u8]) -> bool {
    match bytes.split_last() {
        Some((last, text)) => *last == 0 && text.iter().all(|b| *b != 0),
        None => false,
    }
}

#[test]
fn from_str_appends_the_terminator() {
    assert_eq!(Path::from_str("/").into_inner(), vec![b'/', 0]);
    assert_eq!(Path::from_str("/usr/lib/").into_inner(), b"/usr/lib/\0".to_vec());
}

#[test]
fn from_str_of_the_empty_text_is_one_terminator() {
    assert_eq!(Path::from_str("").into_inner(), vec![0]);
}

#[test]
fn from_str_keeps_multibyte_text() {
    let p = Path::from_str("/\u{e9}/");
    assert_eq!(p.into_inner(), vec![b'/', 0xc3, 0xa9, b'/', 0]);
}

#[test]
fn from_vec_unchecked_takes_the_buffer_as_it_is() {
    let p = Path::from_vec_unchecked(b"/tmp/\0".to_vec());
    assert_eq!(p.as_cstr(), b"/tmp/\0");
    assert_eq!(p.to_bytes(), b"/tmp/");
}

#[test]
fn from_cstr_copies_the_terminated_string() {
    let p = Path::from_cstr(b"/var/\0");
    assert_eq!(p.into_inner(), b"/var/\0".to_vec());
}

#[test]
fn as_cstr_of_from_cstr_is_the_same_string() {
    let p = Path::from_str("/a/b/");
    let q = Path::from_cstr(p.as_cstr());
    assert_eq!(q.into_inner(), p.into_inner());
}

#[test]
fn joined_is_directory_then_name_then_terminator() {
    let dir = Path::from_str("/root/a/");
    let p = Path::joined(&dir, b"file.png");
    assert_eq!(p.into_inner(), b"/root/a/file.png\0".to_vec());
    assert_eq!(dir.into_inner(), b"/root/a/\0".to_vec());
}

#[test]
fn joined_with_an_empty_name_is_the_directory() {
    let dir = Path::from_str("/root/");
    assert_eq!(Path::joined(&dir, b"").into_inner(), b"/root/\0".to_vec());
}

#[test]
fn push_appends_name_separator_and_terminator() {
    let mut p = Path::from_str("/");
    p.push(b"usr");
    assert_eq!(p.as_cstr(), b"/usr/\0");
    p.push(b"lib");
    assert_eq!(p.as_cstr(), b"/usr/lib/\0");
    assert_eq!(p.to_bytes(), b"/usr/lib/");
}

#[test]
fn truncate_cuts_and_terminates() {
    let mut p = Path::from_str("/usr/lib/");
    p.truncate(5);
    assert_eq!(p.into_inner(), b"/usr/\0".to_vec());
}

#[test]
fn truncate_to_zero_leaves_the_terminator_alone() {
    let mut p = Path::from_str("/usr/");
    p.truncate(0);
    assert_eq!(p.into_inner(), vec![0]);
}

#[test]
fn truncate_to_the_text_length_changes_nothing() {
    let mut p = Path::from_str("/usr/");
    let len = p.to_bytes().len();
    p.truncate(len);
    assert_eq!(p.into_inner(), b"/usr/\0".to_vec());
}

#[test]
fn push_then_truncate_gives_back_the_buffer() {
    let names: [&[u8]; 5] = [b"a", b"", b"some-longer-name", b"..", &[0xff; 255]];
    for root in ["/", "/root/", "", "/a/b/c/"] {
        for name in names {
            let mut p = Path::from_str(root);
            let at_first = p.as_cstr().to_vec();
            let len_before = p.to_bytes().len();
            p.push(name);
            assert_eq!(p.as_cstr().len(), at_first.len() + name.len() + 1);
            p.truncate(len_before);
            assert_eq!(p.as_cstr(), &at_first[..]);
        }
    }
}

#[test]
fn nested_pushes_are_undone_in_reverse_order() {
    let mut p = Path::from_str("/");
    let l0 = p.to_bytes().len();
    p.push(b"x");
    let l1 = p.to_bytes().len();
    p.push(b"y");
    assert_eq!(p.as_cstr(), b"/x/y/\0");
    p.truncate(l1);
    assert_eq!(p.as_cstr(), b"/x/\0");
    p.truncate(l0);
    assert_eq!(p.as_cstr(), b"/\0");
}

#[test]
fn every_operation_leaves_exactly_one_terminator_at_the_end() {
    let mut p = Path::from_str("/srv/");
    assert!(is_terminated(p.as_cstr()));
    p.push(b"data");
    assert!(is_terminated(p.as_cstr()));
    let j = Path::joined(&p, b"x.png");
    assert!(is_terminated(j.as_cstr()));
    p.truncate(2);
    assert!(is_terminated(p.as_cstr()));
    let c = p.clone();
    assert!(is_terminated(c.as_cstr()));
    assert!(is_terminated(&c.into_inner()));
}

#[test]
fn clone_is_an_equal_buffer_of_its_own() {
    let mut p = Path::from_str("/a/");
    let c = p.clone();
    p.push(b"b");
    assert_eq!(c.into_inner(), b"/a/\0".to_vec());
    assert_eq!(p.into_inner(), b"/a/b/\0".to_vec());
}

#[test]
fn the_terminator_is_zero_and_the_separator_a_slash() {
    assert_eq!(NUL, 0);
    assert_eq!(SEPARATOR, b'/');
}

#[test]
fn has_no_nul_looks_at_every_byte() {
    assert!(has_no_nul(b""));
    assert!(has_no_nul(b"abc"));
    assert!(has_no_nul(&[0xff, 0x01, 0x80]));
    assert!(!has_no_nul(b"\0"));
    assert!(!has_no_nul(b"\0abc"));
    assert!(!has_no_nul(b"ab\0c"));
    assert!(!has_no_nul(b"abc\0"));
}

#[test]
fn is_terminated_wants_one_terminator_at_the_end() {
    assert!(library_is_terminated(b"\0"));
    assert!(library_is_terminated(b"/usr/\0"));
    assert!(!library_is_terminated(b""));
    assert!(!library_is_terminated(b"/usr/"));
    assert!(!library_is_terminated(b"/usr/\0\0"));
    assert!(!library_is_terminated(b"/u\0sr/\0"));
    assert!(!library_is_terminated(b"\0/usr/"));
}

#[test]
fn the_library_and_the_plain_check_agree_on_buffers() {
    let mut p = Path::from_str("/a/");
    assert_eq!(library_is_terminated(p.as_cstr()), is_terminated(p.as_cstr()));
    p.push(b"bcd");
    assert!(library_is_terminated(p.as_cstr()));
    assert!(has_no_nul(p.to_bytes()));
}
