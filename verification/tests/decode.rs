use mime_multipart::classify::{boundary_from_content_type, classify, read_param, Kind};
use mime_multipart::error::MultipartError;
use mime_multipart::headers::{
    eq_ignore_case, find_header, lines_can_split, read_headers, unfold, Header,
};
use mime_multipart::parser::{
    advance, choose_sink, content_end, is_done, parse, parse_message, parse_with, skip_preamble, Config, Part,
    Sink, State,
};
use mime_multipart::scan::{
    delimiter_bytes, joined, find_token, mark_after, opening_bytes, scan_line, starts_at, Line, Mark,
};

fn field(part: &Part) -> (&[u8], &[u8]) {
    match part {
        Part::Field { name, value } => (name.as_slice(), value.as_slice()),
        other => panic!("not a field: {:?}", other),
    }
}

fn encode(parts: &[(&str, Option<&str>, &[u8])], boundary: &str) -> Vec<u8> {
    let mut out: Vec<u8> = Vec::new();
    for (name, filename, content) in parts {
        out.extend_from_slice(format!("--{}\r\n", boundary).as_bytes());
        match filename {
            Some(f) => out.extend_from_slice(
                format!(
                    "Content-Disposition: form-data; name=\"{}\"; filename=\"{}\"\r\nContent-Type: application/octet-stream\r\n\r\n",
                    name, f
                )
                .as_bytes(),
            ),
            None => out
                .extend_from_slice(format!("Content-Disposition: form-data; name=\"{}\"\r\n\r\n", name).as_bytes()),
        }
        out.extend_from_slice(content);
        out.extend_from_slice(b"\r\n");
    }
    out.extend_from_slice(format!("--{}--\r\n", boundary).as_bytes());
    out
}

#[test]
fn one_field() {
    let body = b"--B\r\nContent-Disposition: form-data; name=\"a\"\r\n\r\nhello\r\n--B--\r\n";
    let parts = parse(body, b"B").unwrap();
    assert_eq!(parts.len(), 1);
    let (name, value) = field(&parts[0]);
    assert_eq!(name, b"a");
    assert_eq!(value, b"hello");
}

#[test]
fn truncated_in_content_is_eof_in_part() {
    let body = b"--B\r\nContent-Disposition: form-data; name=\"a\"\r\n\r\nhel";
    assert!(matches!(parse(body, b"B"), Err(MultipartError::EofInPart)));
}

#[test]
fn no_parts() {
    let parts = parse(b"--B--\r\n", b"B").unwrap();
    assert!(parts.is_empty());
    let after_preamble = parse(b"ignored text\r\n--B--", b"B").unwrap();
    assert!(after_preamble.is_empty());
}

#[test]
fn parts_come_in_order() {
    let body = encode(&[("one", None, b"1"), ("two", Some("t.bin"), b"22"), ("three", None, b"333")], "xyz");
    let parts = parse(&body, b"xyz").unwrap();
    assert_eq!(parts.len(), 3);
    assert_eq!(field(&parts[0]), (&b"one"[..], &b"1"[..]));
    match &parts[1] {
        Part::File { name, filename, content_type, content, sink } => {
            assert_eq!(name, b"two");
            assert_eq!(filename, b"t.bin");
            assert_eq!(content_type, b"application/octet-stream");
            assert_eq!(content, b"22");
            assert_eq!(*sink, Sink::Memory);
        }
        other => panic!("not a file: {:?}", other),
    }
    assert_eq!(field(&parts[2]), (&b"three"[..], &b"333"[..]));
}

#[test]
fn round_trip_keeps_bytes() {
    let binary: Vec<u8> = (0u8..=255).collect();
    let source: Vec<(&str, Option<&str>, &[u8])> =
        vec![("f", None, b"line one\r\nline two"), ("upload", Some("all.bin"), &binary), ("empty", None, b"")];
    let body = encode(&source, "----limit42");
    let parts = parse(&body, b"----limit42").unwrap();
    assert_eq!(parts.len(), source.len());
    for (part, (name, filename, content)) in parts.iter().zip(source.iter()) {
        match part {
            Part::Field { name: n, value } => {
                assert!(filename.is_none());
                assert_eq!(n.as_slice(), name.as_bytes());
                assert_eq!(value.as_slice(), *content);
            }
            Part::File { name: n, filename: f, content: c, .. } => {
                assert_eq!(n.as_slice(), name.as_bytes());
                assert_eq!(f.as_slice(), filename.unwrap().as_bytes());
                assert_eq!(c.as_slice(), *content);
            }
            other => panic!("unexpected part: {:?}", other),
        }
    }
}

#[test]
fn boundary_text_inside_content() {
    let content: &[u8] = b"x--B--y --B\r\n-B \n--B \r--B\r\n --B";
    let body = encode(&[("a", None, content)], "B");
    let parts = parse(&body, b"B").unwrap();
    assert_eq!(parts.len(), 1);
    let (_, value) = field(&parts[0]);
    assert_eq!(value.len(), content.len());
    assert_eq!(value, content);
}

#[test]
fn eof_before_first_boundary() {
    assert!(matches!(parse(b"", b"B"), Err(MultipartError::EofBeforeFirstBoundary)));
    assert!(matches!(parse(b"preamble only\r\n--", b"B"), Err(MultipartError::EofBeforeFirstBoundary)));
    assert!(matches!(parse(b"x--B\r\n", b"B"), Err(MultipartError::EofBeforeFirstBoundary)));
}

#[test]
fn eof_in_part_headers() {
    let body = b"--B\r\nContent-Disposition: form-data; name=\"a\"\r\n";
    assert!(matches!(parse(body, b"B"), Err(MultipartError::EofInPartHeaders)));
}

#[test]
fn eof_in_file() {
    let body = b"--B\r\nContent-Disposition: form-data; name=\"a\"; filename=\"f\"\r\n\r\ndata";
    let small = Config { max_depth: 8, memory_limit: 3 };
    assert!(matches!(parse_with(body, b"B", &small), Err(MultipartError::EofInFile)));
}

#[test]
fn eof_in_a_file_held_in_memory_is_eof_in_part() {
    let body = b"--B\r\nContent-Disposition: form-data; name=\"a\"; filename=\"f\"\r\n\r\ndata";
    assert!(matches!(parse(body, b"B"), Err(MultipartError::EofInPart)));
    let exact = Config { max_depth: 8, memory_limit: 4 };
    assert!(matches!(parse_with(body, b"B", &exact), Err(MultipartError::EofInPart)));
    let field = b"--B\r\nContent-Disposition: form-data; name=\"a\"\r\n\r\ndata";
    let none = Config { max_depth: 8, memory_limit: 0 };
    assert!(matches!(parse_with(field, b"B", &none), Err(MultipartError::EofInPart)));
}

#[test]
fn cut_content_is_explained_by_where_it_was_held() {
    let body = b"--B\r\nContent-Disposition: form-data; name=\"a\"; filename=\"f\"\r\n\r\n0123456789";
    let stored = Config { max_depth: 8, memory_limit: 9 };
    let e = parse_with(body, b"B", &stored).unwrap_err();
    assert_eq!(e.description(), "The request body ended prematurely while streaming a file part.");
    let held = Config { max_depth: 8, memory_limit: 10 };
    let e = parse_with(body, b"B", &held).unwrap_err();
    assert_eq!(e.description(), "The request body ended prematurely while reading a multipart part.");
}

#[test]
fn line_without_colon_is_partial_headers() {
    let body = b"--B\r\nContent-Disposition form-data\r\n\r\nx\r\n--B--\r\n";
    assert!(matches!(parse(body, b"B"), Err(MultipartError::PartialHeaders)));
    let second = b"--B\r\nContent-Disposition: form-data; name=\"a\"\r\nnonsense\r\n\r\nx\r\n--B--\r\n";
    assert!(matches!(parse(second, b"B"), Err(MultipartError::PartialHeaders)));
    assert!(matches!(read_headers(b"no colon\r\n\r\n", 0, true), Err(MultipartError::PartialHeaders)));
    assert!(lines_can_split(b"A: b\r\nC:d\r\n\r\n"));
    assert!(lines_can_split(b"\r\n\r\n"));
    assert!(lines_can_split(b""));
    assert!(lines_can_split(b"a:"));
    assert!(!lines_can_split(b"A: b\r\nC\r\n\r\n"));
    assert!(!lines_can_split(b"x"));
}

#[test]
fn eof_in_main_headers() {
    let config = Config::default();
    let input = b"Content-Type: multipart/form-data; boundary=B\r\n";
    assert!(matches!(parse_message(input, &config), Err(MultipartError::EofInMainHeaders)));
}

#[test]
fn no_line_end_after_boundary() {
    assert!(matches!(parse(b"--Bx\r\n", b"B"), Err(MultipartError::NoCrLfAfterBoundary)));
    assert!(matches!(parse(b"--B", b"B"), Err(MultipartError::NoCrLfAfterBoundary)));
    let body = b"--B\r\nContent-Disposition: form-data; name=\"a\"\r\n\r\nhello\r\n--B";
    assert!(matches!(parse(body, b"B"), Err(MultipartError::NoCrLfAfterBoundary)));
}

#[test]
fn empty_boundary_is_refused() {
    assert!(matches!(parse(b"--\r\n", b""), Err(MultipartError::BoundaryNotSpecified)));
}

#[test]
fn whole_message() {
    let config = Config::default();
    let input = b"Host: example.org\r\nContent-Type: multipart/form-data; boundary=\"B\"\r\n\r\n--B\r\nContent-Disposition: form-data; name=\"a\"\r\n\r\nhello\r\n--B--\r\n";
    let parts = parse_message(input, &config).unwrap();
    assert_eq!(parts.len(), 1);
    assert_eq!(field(&parts[0]), (&b"a"[..], &b"hello"[..]));
}

#[test]
fn message_preconditions() {
    let config = Config::default();
    assert!(matches!(
        parse_message(b"Host: example.org\r\n\r\n--B--", &config),
        Err(MultipartError::NoRequestContentType)
    ));
    assert!(matches!(
        parse_message(b"Content-Type: text/plain; boundary=B\r\n\r\n--B--", &config),
        Err(MultipartError::NotMultipart)
    ));
    assert!(matches!(
        parse_message(b"Content-Type: multipart/form-data\r\n\r\n--B--", &config),
        Err(MultipartError::BoundaryNotSpecified)
    ));
}

#[test]
fn nested_section() {
    let body = b"--outer\r\nContent-Disposition: form-data; name=\"files\"; filename=\"ignored\"\r\nContent-Type: multipart/mixed; boundary=inner\r\n\r\n--inner\r\nContent-Disposition: attachment; name=\"f1\"; filename=\"a.txt\"\r\n\r\nAAA\r\n--inner\r\nContent-Disposition: attachment; name=\"f2\"\r\n\r\nBB\r\n--inner--\r\n--outer\r\nContent-Disposition: form-data; name=\"last\"\r\n\r\nz\r\n--outer--\r\n";
    let parts = parse(body, b"outer").unwrap();
    assert_eq!(parts.len(), 2);
    match &parts[0] {
        Part::Nested { name, parts: inner } => {
            assert_eq!(name, b"files");
            assert_eq!(inner.len(), 2);
            match &inner[0] {
                Part::File { name, filename, content_type, content, .. } => {
                    assert_eq!(name, b"f1");
                    assert_eq!(filename, b"a.txt");
                    assert_eq!(content_type, b"text/plain");
                    assert_eq!(content, b"AAA");
                }
                other => panic!("not a file: {:?}", other),
            }
            assert_eq!(field(&inner[1]), (&b"f2"[..], &b"BB"[..]));
        }
        other => panic!("not nested: {:?}", other),
    }
    assert_eq!(field(&parts[1]), (&b"last"[..], &b"z"[..]));
}

#[test]
fn nesting_is_capped() {
    let body = b"--o\r\nContent-Disposition: form-data; name=\"n\"\r\nContent-Type: multipart/mixed; boundary=i\r\n\r\n--i--\r\n--o--\r\n";
    let flat = Config { max_depth: 0, memory_limit: 10 };
    assert!(matches!(parse_with(body, b"o", &flat), Err(MultipartError::NestingTooDeep)));
    let one = Config { max_depth: 1, memory_limit: 10 };
    let parts = parse_with(body, b"o", &one).unwrap();
    assert!(matches!(&parts[0], Part::Nested { parts, .. } if parts.is_empty()));
    assert_eq!(Config::default().max_depth, 8);
    assert_eq!(Config::default().memory_limit, 65536);
}

#[test]
fn nested_errors_come_through() {
    let body = b"--o\r\nContent-Disposition: form-data; name=\"n\"\r\nContent-Type: multipart/mixed; boundary=i\r\n\r\nno delimiter here\r\n--o--\r\n";
    assert!(matches!(parse(body, b"o"), Err(MultipartError::EofBeforeFirstBoundary)));
    let unnamed = b"--o\r\nContent-Disposition: form-data; name=\"n\"\r\nContent-Type: multipart/mixed\r\n\r\n\r\n--o--\r\n";
    assert!(matches!(parse(unnamed, b"o"), Err(MultipartError::BoundaryNotSpecified)));
}

#[test]
fn part_without_name() {
    let none = b"--B\r\nContent-Type: text/plain\r\n\r\nx\r\n--B--\r\n";
    assert!(matches!(parse(none, b"B"), Err(MultipartError::MissingPartName)));
    let unnamed = b"--B\r\nContent-Disposition: form-data; filename=\"f\"\r\n\r\nx\r\n--B--\r\n";
    assert!(matches!(parse(unnamed, b"B"), Err(MultipartError::MissingPartName)));
}

#[test]
fn header_grammar_errors_are_wrapped() {
    let body = b"--B\r\nContent Disposition: form-data; name=\"a\"\r\n\r\nx\r\n--B--\r\n";
    assert!(matches!(parse(body, b"B"), Err(MultipartError::Httparse(_))));
}

#[test]
fn large_files_go_to_storage() {
    let body = encode(&[("f", Some("big"), b"0123456789")], "B");
    let small = Config { max_depth: 8, memory_limit: 9 };
    let parts = parse_with(&body, b"B", &small).unwrap();
    assert!(matches!(&parts[0], Part::File { sink: Sink::Storage, .. }));
    let exact = Config { max_depth: 8, memory_limit: 10 };
    let parts = parse_with(&body, b"B", &exact).unwrap();
    assert!(matches!(&parts[0], Part::File { sink: Sink::Memory, .. }));
    assert_eq!(choose_sink(11, 10), Sink::Storage);
    assert_eq!(choose_sink(0, 0), Sink::Memory);
}

#[test]
fn read_headers_splits_lines() {
    let input = b"skip--Content-Type: text/html\r\nX-Two:  spaced \r\n\r\nrest";
    let (headers, next) = read_headers(input, 6, false).unwrap();
    assert_eq!(headers.len(), 2);
    assert_eq!(headers[0].name, b"Content-Type".to_vec());
    assert_eq!(headers[0].value, b"text/html".to_vec());
    assert_eq!(headers[1].name, b"X-Two".to_vec());
    assert_eq!(&input[next..], b"rest");
    assert!(matches!(read_headers(b"A: b\r\n", 0, true), Err(MultipartError::EofInMainHeaders)));
    assert!(matches!(read_headers(b"A: b\r\n", 0, false), Err(MultipartError::EofInPartHeaders)));
    assert!(matches!(read_headers(b"A\x00: b\r\n\r\n", 0, false), Err(MultipartError::Httparse(_))));
}

#[test]
fn too_many_headers() {
    let mut block: Vec<u8> = Vec::new();
    for i in 0..33 {
        block.extend_from_slice(format!("H{}: v\r\n", i).as_bytes());
    }
    block.extend_from_slice(b"\r\n");
    assert!(matches!(
        read_headers(&block, 0, false),
        Err(MultipartError::Httparse(httparse::Error::TooManyHeaders))
    ));
}

#[test]
fn header_lookup_ignores_case() {
    let headers = vec![
        Header { name: b"X-A".to_vec(), value: b"1".to_vec() },
        Header { name: b"content-TYPE".to_vec(), value: b"first".to_vec() },
        Header { name: b"Content-Type".to_vec(), value: b"second".to_vec() },
    ];
    assert_eq!(find_header(&headers, b"Content-Type"), Some(b"first".to_vec()));
    assert_eq!(find_header(&headers, b"x-a"), Some(b"1".to_vec()));
    assert_eq!(find_header(&headers, b"x-b"), None);
    assert!(eq_ignore_case(b"AbC-z", b"aBc-Z"));
    assert!(!eq_ignore_case(b"abc", b"abd"));
    assert!(!eq_ignore_case(b"abc", b"abcd"));
    assert!(!eq_ignore_case(b"@", b"`"));
}

#[test]
fn parameters() {
    let v = b"form-data; name=\"a b\"; FileName=plain.txt;x=;  y=\"";
    assert_eq!(read_param(v, b"name"), Some(b"a b".to_vec()));
    assert_eq!(read_param(v, b"filename"), Some(b"plain.txt".to_vec()));
    assert_eq!(read_param(v, b"x"), Some(Vec::new()));
    assert_eq!(read_param(v, b"y"), Some(b"\"".to_vec()));
    assert_eq!(read_param(v, b"form-data"), None);
    assert_eq!(read_param(v, b"nam"), None);
    assert_eq!(read_param(b"name=a", b"name"), None);
    assert_eq!(read_param(b"t;name=a;name=b", b"name"), Some(b"a".to_vec()));
}

#[test]
fn boundary_of_content_type() {
    assert_eq!(
        boundary_from_content_type(Some(b"Multipart/Form-Data; boundary=abc")).unwrap(),
        b"abc".to_vec()
    );
    assert!(matches!(boundary_from_content_type(None), Err(MultipartError::NoRequestContentType)));
    assert!(matches!(boundary_from_content_type(Some(b"multipart")), Err(MultipartError::NotMultipart)));
    assert!(matches!(
        boundary_from_content_type(Some(b"multipart/mixed; boundary=\"\"")),
        Err(MultipartError::BoundaryNotSpecified)
    ));
}

#[test]
fn kinds() {
    let cd = |v: &[u8]| Header { name: b"Content-Disposition".to_vec(), value: v.to_vec() };
    let ct = |v: &[u8]| Header { name: b"Content-Type".to_vec(), value: v.to_vec() };
    match classify(&vec![cd(b"form-data; name=n")]).unwrap() {
        Kind::Field { name } => assert_eq!(name, b"n"),
        other => panic!("not a field: {:?}", other),
    }
    match classify(&vec![cd(b"form-data; name=n; filename=f")]).unwrap() {
        Kind::File { name, filename, content_type } => {
            assert_eq!(name, b"n");
            assert_eq!(filename, b"f");
            assert_eq!(content_type, b"text/plain");
        }
        other => panic!("not a file: {:?}", other),
    }
    match classify(&vec![ct(b"multipart/mixed; boundary=q"), cd(b"form-data; name=n; filename=f")]).unwrap() {
        Kind::Nested { name, boundary } => {
            assert_eq!(name, b"n");
            assert_eq!(boundary, b"q");
        }
        other => panic!("not nested: {:?}", other),
    }
    assert!(matches!(classify(&vec![ct(b"text/plain")]), Err(MultipartError::MissingPartName)));
}

#[test]
fn token_search() {
    assert_eq!(find_token(b"abcabc", b"bc", 0), Some(1));
    assert_eq!(find_token(b"abcabc", b"bc", 2), Some(4));
    assert_eq!(find_token(b"abcabc", b"bc", 5), None);
    assert_eq!(find_token(b"abc", b"", 3), Some(3));
    assert_eq!(find_token(b"abc", b"c", 7), None);
    assert!(starts_at(b"abc", b"bc", 1));
    assert!(!starts_at(b"abc", b"bc", 2));
    assert!(matches!(mark_after(b"--B--", 3), Mark::Terminal));
    assert!(matches!(mark_after(b"--B\r\nx", 3), Mark::Next(5)));
    assert!(matches!(mark_after(b"--B\rx", 3), Mark::Broken));
    assert!(matches!(mark_after(b"--B", 3), Mark::Broken));
}

#[test]
fn continuation_lines_are_folded() {
    assert_eq!(unfold(b"A: b\r\n c\r\n\td\r\n\r\n"), b"A: b c\td\r\n\r\n".to_vec());
    assert_eq!(unfold(b"\r\n x"), b"\r\n x".to_vec());
    assert_eq!(unfold(b"A: b\r\n"), b"A: b\r\n".to_vec());
    assert_eq!(unfold(b""), Vec::<u8>::new());
    let body = b"--B\r\nContent-Disposition: form-data;\r\n name=\"a\"\r\n\r\nhello\r\n--B--\r\n";
    let parts = parse(body, b"B").unwrap();
    assert_eq!(parts.len(), 1);
    assert_eq!(field(&parts[0]), (&b"a"[..], &b"hello"[..]));
    assert_eq!(parts[0].name(), &b"a".to_vec());
}

#[test]
fn names_of_parts() {
    let file = Part::File {
        name: b"n".to_vec(),
        filename: b"f".to_vec(),
        content_type: b"t".to_vec(),
        content: Vec::new(),
        sink: Sink::Memory,
    };
    assert_eq!(file.name(), &b"n".to_vec());
    let nested = Part::Nested { name: b"outer".to_vec(), parts: vec![file] };
    assert_eq!(nested.name(), &b"outer".to_vec());
}

#[test]
fn delimiters() {
    assert_eq!(opening_bytes(b"B"), b"--B".to_vec());
    assert_eq!(delimiter_bytes(b"B"), b"\r\n--B".to_vec());
    assert_eq!(joined(b"ab", b"cd"), b"abcd".to_vec());
    assert_eq!(joined(b"", b""), Vec::<u8>::new());
}

#[test]
fn preamble_is_passed_over() {
    assert_eq!(skip_preamble(b"--B\r\n", b"B"), Some(3));
    assert_eq!(skip_preamble(b"intro --B\r\n--B\r\n", b"B"), Some(14));
    assert_eq!(skip_preamble(b"intro --B", b"B"), None);
    assert_eq!(skip_preamble(b"", b"B"), None);
}

#[test]
fn content_ends_before_the_line_end_of_the_delimiter() {
    let field = Kind::Field { name: b"a".to_vec() };
    let file = Kind::File { name: b"a".to_vec(), filename: b"f".to_vec(), content_type: b"t".to_vec() };
    let nested = Kind::Nested { name: b"a".to_vec(), boundary: b"i".to_vec() };
    let body = b"hello\r\n\r\n--B--";
    assert_eq!(content_end(body, b"\r\n--B", 0, &field, 100).unwrap(), 7);
    assert_eq!(content_end(body, b"\r\n--B", 7, &file, 0).unwrap(), 7);
    // Six bytes are left from offset 8 on, and none of them starts a delimiter.
    assert!(matches!(content_end(body, b"\r\n--B", 8, &field, 0), Err(MultipartError::EofInPart)));
    assert!(matches!(content_end(body, b"\r\n--B", 8, &file, 5), Err(MultipartError::EofInFile)));
    assert!(matches!(content_end(body, b"\r\n--B", 8, &file, 6), Err(MultipartError::EofInPart)));
    assert!(matches!(content_end(body, b"\r\n--B", 8, &nested, 0), Err(MultipartError::EofInPart)));
    assert!(matches!(content_end(body, b"\r\n--B", 99, &file, 0), Err(MultipartError::EofInPart)));
}

#[test]
fn lines_are_told_apart() {
    let body = b"--B\r\nx--B\r\n--B--\r\n--Bz";
    assert!(matches!(scan_line(body, b"B", 0), Line::Boundary(Mark::Next(5))));
    assert!(matches!(scan_line(body, b"B", 5), Line::Content));
    assert!(matches!(scan_line(body, b"B", 11), Line::Boundary(Mark::Terminal)));
    assert!(matches!(scan_line(body, b"B", 18), Line::Boundary(Mark::Broken)));
    assert!(matches!(scan_line(body, b"B", 40), Line::Content));
}

#[test]
fn transitions_one_by_one() {
    let body = b"--B\r\nContent-Disposition: form-data; name=\"a\"\r\n\r\nhello\r\n--B--\r\n";
    let config = Config::default();
    let mut parts: Vec<Part> = Vec::new();
    let state = advance(body, b"B", &config, 0, State::AwaitingFirstBoundary, &mut parts).unwrap();
    assert!(matches!(state, State::ReadingPartHeaders { at: 5 }));
    assert!(!is_done(&state));
    let state = advance(body, b"B", &config, 0, state, &mut parts).unwrap();
    match &state {
        State::ReadingPartBody { kind: Kind::Field { name }, at } => {
            assert_eq!(name, b"a");
            assert_eq!(&body[*at..*at + 5], b"hello");
        }
        other => panic!("unexpected state: {:?}", other),
    }
    assert!(parts.is_empty());
    let state = advance(body, b"B", &config, 0, state, &mut parts).unwrap();
    assert!(is_done(&state));
    assert_eq!(parts.len(), 1);
    assert_eq!(field(&parts[0]), (&b"a"[..], &b"hello"[..]));
    let state = advance(body, b"B", &config, 0, state, &mut parts).unwrap();
    assert!(is_done(&state));
    assert_eq!(parts.len(), 1);
}

#[test]
fn transitions_fail_where_the_body_does() {
    let config = Config::default();
    let mut parts: Vec<Part> = Vec::new();
    assert!(matches!(
        advance(b"nothing", b"B", &config, 0, State::AwaitingFirstBoundary, &mut parts),
        Err(MultipartError::EofBeforeFirstBoundary)
    ));
    assert!(matches!(
        advance(b"--B--", b"", &config, 0, State::AwaitingFirstBoundary, &mut parts),
        Err(MultipartError::BoundaryNotSpecified)
    ));
    assert!(matches!(
        advance(b"--B\r\nA: b\r\n", b"B", &config, 0, State::ReadingPartHeaders { at: 5 }, &mut parts),
        Err(MultipartError::EofInPartHeaders)
    ));
    let file = Kind::File { name: b"n".to_vec(), filename: b"f".to_vec(), content_type: b"t".to_vec() };
    let small = Config { max_depth: 8, memory_limit: 3 };
    assert!(matches!(
        advance(b"data", b"B", &small, 0, State::ReadingPartBody { kind: file, at: 0 }, &mut parts),
        Err(MultipartError::EofInFile)
    ));
    let held = Kind::File { name: b"n".to_vec(), filename: b"f".to_vec(), content_type: b"t".to_vec() };
    assert!(matches!(
        advance(b"data", b"B", &config, 0, State::ReadingPartBody { kind: held, at: 0 }, &mut parts),
        Err(MultipartError::EofInPart)
    ));
    let done = advance(b"--B--", b"B", &config, 0, State::AwaitingFirstBoundary, &mut parts).unwrap();
    assert!(is_done(&done));
    assert!(parts.is_empty());
}
