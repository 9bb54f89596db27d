use openqa_worker_mgmt::systemd_escape::{escape_name, unescaped_name, EscapeError};

#[test]
fn escape_name_trims_the_printed_line() {
    let out = b"b1\\x23x86_64\n".to_vec();
    assert_eq!(escape_name(Some(out)).unwrap(), "b1\\x23x86_64");
}

#[test]
fn unescaped_name_trims_the_printed_line() {
    let out = b"1#b1#x86_64\n".to_vec();
    assert_eq!(unescaped_name(Some(out)).unwrap(), "1#b1#x86_64");
}

#[test]
fn surrounding_unicode_white_space_is_removed() {
    let out = "\u{3000}\t a b \u{a0}\u{2028}\r\n".as_bytes().to_vec();
    assert_eq!(escape_name(Some(out)).unwrap(), "a b");
}

#[test]
fn empty_output_gives_an_empty_name() {
    assert_eq!(escape_name(Some(Vec::new())).unwrap(), "");
    assert_eq!(unescaped_name(Some(b" \n".to_vec())).unwrap(), "");
}

#[test]
fn missing_output_is_an_error() {
    for r in [escape_name(None), unescaped_name(None)] {
        match r {
            Err(EscapeError::NoStandardOutput(e)) => {
                assert_eq!(e.0, "Error: no result in standard output.")
            }
            other => panic!("unexpected result {:?}", other),
        }
    }
}

#[test]
fn invalid_utf8_output_gives_the_decoding_error() {
    let bytes = vec![0x61, 0xff, 0x0a];
    let expected = String::from_utf8(bytes.clone()).unwrap_err();
    match escape_name(Some(bytes)) {
        Err(EscapeError::InvalidUtf8(e)) => {
            assert_eq!(e, expected);
            assert_eq!(e.to_string(), "invalid utf-8 sequence of 1 bytes from index 1");
            assert_eq!(e.as_bytes(), &[0x61, 0xff, 0x0a]);
        }
        other => panic!("unexpected result {:?}", other),
    }
    match unescaped_name(Some(vec![0xc3])) {
        Err(EscapeError::InvalidUtf8(e)) => {
            assert_eq!(e.to_string(), "incomplete utf-8 byte sequence from index 0")
        }
        other => panic!("unexpected result {:?}", other),
    }
}

#[test]
fn non_ascii_names_are_decoded() {
    let out = "bü#λ\n".as_bytes().to_vec();
    assert_eq!(escape_name(Some(out)).unwrap(), "bü#λ");
}
