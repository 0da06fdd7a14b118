use download_manager::download::{get_headers, head_length, header_value, split_header_lines};

fn pairs(v: &[(&str, &str)]) -> Vec<(String, String)> {
    v.iter().map(|(a, b)| (a.to_string(), b.to_string())).collect()
}

#[test]
fn head_is_split_into_lowercase_headers() {
    let head = b"HTTP/1.1 200 OK\r\nContent-Length: 1000\r\nX-Thing: a: b\r\n\r\n";
    assert_eq!(get_headers(head), pairs(&[("content-length", "1000"), ("x-thing", "a: b")]));
}

#[test]
fn names_are_kept_as_written_before_lowercasing() {
    let head = b"Content-Type: text/plain\r\n";
    assert_eq!(split_header_lines(head), pairs(&[("Content-Type", "text/plain")]));
}

#[test]
fn lines_are_trimmed() {
    let head = b"  Host: example.com \t\r\n\r\n";
    assert_eq!(get_headers(head), pairs(&[("host", "example.com")]));
}

#[test]
fn lines_without_separator_are_skipped() {
    assert!(get_headers(b"").is_empty());
    assert!(get_headers(b"HTTP/1.0 404 Not Found\r\nbroken:line\r\n\r\n").is_empty());
}

#[test]
fn bytes_read_as_latin1() {
    assert_eq!(get_headers(b"\xC9TAG: x\n"), pairs(&[("\u{e9}tag", "x")]));
}

#[test]
fn last_header_of_a_name_wins() {
    let h = get_headers(b"Content-Length: 5\r\nOther: 1\r\ncontent-length: 7\r\n\r\n");
    assert_eq!(header_value(&h, "content-length"), Some("7".to_string()));
    assert_eq!(header_value(&h, "other"), Some("1".to_string()));
    assert_eq!(header_value(&h, "missing"), None);
}

#[test]
fn reading_stops_after_blank_line() {
    let bytes = b"HTTP/1.0 200 OK\r\nContent-Length: 1000\r\nServer: x\r\n\r\nBODY";
    assert_eq!(get_headers(bytes), pairs(&[("content-length", "1000"), ("server", "x")]));
    assert_eq!(head_length(bytes), Some(bytes.len() - 4));
    assert_eq!(&bytes[head_length(bytes).unwrap()..], b"BODY");
}

#[test]
fn body_lines_are_not_headers() {
    let bytes = b"A: 1\r\n\r\nB: 2\r\n\r\n";
    assert_eq!(get_headers(bytes), pairs(&[("a", "1")]));
    assert_eq!(head_length(bytes), Some(8));
}

#[test]
fn head_without_blank_line_is_read_whole() {
    assert_eq!(head_length(b"A: 1\r\nB: 2"), None);
    assert_eq!(get_headers(b"A: 1\r\nB: 2"), pairs(&[("a", "1"), ("b", "2")]));
    assert_eq!(head_length(b"\r\n\r"), None);
    assert_eq!(head_length(b"\r\n\r\n"), Some(4));
}
