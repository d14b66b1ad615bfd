use xcode_tools::uri::{hex_val, path_to_uri, percent_decode, uri_to_path};

#[test]
fn uri_path_round_trips_with_spaces() {
    let p = "/Users/me/My Project/A.m";
    let uri = path_to_uri(p);
    assert!(uri.contains("%20"), "space must be percent-encoded: {uri}");
    assert_eq!(uri_to_path(&uri), "/Users/me/My Project/A.m");
}

#[test]
fn uri_encodes_non_ascii_bytes_uppercase() {
    assert_eq!(path_to_uri("/a/é"), "file:///a/%C3%A9");
    assert_eq!(uri_to_path("file:///a/%C3%A9"), "/a/é");
    assert_eq!(uri_to_path("file:///a/%c3%a9"), "/a/é");
    assert_eq!(path_to_uri("/x_y-z.~"), "file:///x_y-z.~");
}

#[test]
fn percent_decode_keeps_malformed_escapes() {
    assert_eq!(percent_decode("%"), "%");
    assert_eq!(percent_decode("%4"), "%4");
    assert_eq!(percent_decode("%41"), "A");
    assert_eq!(percent_decode("a%zz"), "a%zz");
    assert_eq!(percent_decode("%FF"), "\u{FFFD}");
}

#[test]
fn non_file_uri_is_kept() {
    assert_eq!(uri_to_path("dummy://dummy"), "dummy://dummy");
}

#[test]
fn hex_values() {
    assert_eq!(hex_val(b'0'), Some(0));
    assert_eq!(hex_val(b'f'), Some(15));
    assert_eq!(hex_val(b'F'), Some(15));
    assert_eq!(hex_val(b'g'), None);
}
