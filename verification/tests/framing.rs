use radiolog::framer::LineFramer;

#[test]
fn no_delimiter_yields_nothing_and_retains_bytes() {
    let mut f = LineFramer::new();
    assert!(f.append_chunk(b"par"));
    assert_eq!(f.drain_lines(), Vec::<String>::new());
    assert!(f.append_chunk(b"tial"));
    assert_eq!(f.drain_lines(), Vec::<String>::new());
    // the retained bytes resurface once the delimiter arrives
    assert!(f.append_chunk(b"\r\n"));
    assert_eq!(f.drain_lines(), vec!["partial".to_string()]);
}

#[test]
fn one_chunk_one_line() {
    let mut f = LineFramer::new();
    assert!(f.append_chunk(b"mac rx 48\r\n"));
    assert_eq!(f.drain_lines(), vec!["mac rx 48".to_string()]);
    assert_eq!(f.drain_lines(), Vec::<String>::new());
}

#[test]
fn several_lines_in_one_chunk() {
    let mut f = LineFramer::new();
    assert!(f.append_chunk(b"a 41\r\nb 42\r\nc 4"));
    assert_eq!(f.drain_lines(), vec!["a 41".to_string(), "b 42".to_string()]);
    assert!(f.append_chunk(b"3\r\n"));
    assert_eq!(f.drain_lines(), vec!["c 43".to_string()]);
}

#[test]
fn chunk_boundaries_do_not_matter() {
    let stream: &[u8] = b"one 41\r\ntwo 4242\r\nthree 43\r\ntail";
    let mut whole = LineFramer::new();
    assert!(whole.append_chunk(stream));
    let expected = whole.drain_lines();

    for cut_a in 0..stream.len() {
        for cut_b in cut_a..stream.len() {
            let mut f = LineFramer::new();
            let mut got: Vec<String> = Vec::new();
            assert!(f.append_chunk(&stream[..cut_a]));
            got.extend(f.drain_lines());
            assert!(f.append_chunk(&stream[cut_a..cut_b]));
            got.extend(f.drain_lines());
            assert!(f.append_chunk(&stream[cut_b..]));
            got.extend(f.drain_lines());
            assert_eq!(got, expected, "cuts at {} and {}", cut_a, cut_b);
        }
    }
}

#[test]
fn delimiter_split_across_chunks() {
    let mut f = LineFramer::new();
    assert!(f.append_chunk(b"hello\r"));
    assert_eq!(f.drain_lines(), Vec::<String>::new());
    assert!(f.append_chunk(b"\nworld"));
    assert_eq!(f.drain_lines(), vec!["hello".to_string()]);
}

#[test]
fn trailing_whitespace_is_trimmed() {
    let mut f = LineFramer::new();
    assert!(f.append_chunk(b"abc \t \r\n"));
    assert_eq!(f.drain_lines(), vec!["abc".to_string()]);
}

#[test]
fn blank_line_is_empty() {
    let mut f = LineFramer::new();
    assert!(f.append_chunk(b"\r\n"));
    assert_eq!(f.drain_lines(), vec![String::new()]);
}

#[test]
fn invalid_utf8_chunk_is_rejected_whole() {
    let mut f = LineFramer::new();
    assert!(f.append_chunk(b"keep"));
    assert!(!f.append_chunk(&[0xFF, 0xFE, b'x']));
    assert!(f.append_chunk(b"\r\n"));
    // nothing of the rejected chunk was retained
    assert_eq!(f.drain_lines(), vec!["keep".to_string()]);
}

#[test]
fn append_text_feeds_the_framer() {
    let mut f = LineFramer::new();
    f.append("first\r\nsec");
    f.append("ond\r\n");
    assert_eq!(f.drain_lines(), vec!["first".to_string(), "second".to_string()]);
}

#[test]
fn empty_chunk_is_accepted() {
    let mut f = LineFramer::new();
    assert!(f.append_chunk(b""));
    assert_eq!(f.drain_lines(), Vec::<String>::new());
}

#[test]
fn multibyte_text_survives_framing() {
    let text = "gerät 4münchen".as_bytes();
    // a chunk cut inside a multi-byte character is not valid UTF-8 and is
    // rejected whole
    let mut f = LineFramer::new();
    let (a, _) = text.split_at(4);
    assert!(!f.append_chunk(a));
    assert_eq!(f.drain_lines(), Vec::<String>::new());
    // delivered whole, the text frames as one line
    let mut g = LineFramer::new();
    assert!(g.append_chunk(text));
    assert!(g.append_chunk(b"\r\n"));
    assert_eq!(g.drain_lines(), vec!["gerät 4münchen".to_string()]);
}
