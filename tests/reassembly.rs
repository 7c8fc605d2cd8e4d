use vstat_pipe::reassembly::{LineReassembler, Utf8DecodeError};

fn feed_all(chunks: &[&[u8]]) -> (Vec<String>, LineReassembler) {
    let mut r = LineReassembler::new();
    let mut out = Vec::new();
    for c in chunks {
        out.extend(r.push_chunk(c).unwrap());
    }
    (out, r)
}

#[test]
fn chunking_does_not_change_lines() {
    let whole: &[u8] = b"alpha\nbeta gamma\n\ndelta\nepsilon";
    let expected = vec!["alpha".to_string(), "beta gamma".to_string(), String::new(), "delta".to_string()];
    for cut1 in 0..whole.len() {
        for cut2 in cut1..whole.len() {
            let (lines, _) = feed_all(&[&whole[..cut1], &whole[cut1..cut2], &whole[cut2..]]);
            assert_eq!(lines, expected, "cuts at {} and {}", cut1, cut2);
        }
    }
}

#[test]
fn newline_count_gives_line_count() {
    let (lines, _) = feed_all(&[b"a\nb\nc\n", b"\n\n"]);
    assert_eq!(lines.len(), 5);
}

#[test]
fn empty_chunk_gives_nothing() {
    let mut r = LineReassembler::new();
    assert!(r.push_chunk(b"").unwrap().is_empty());
    assert!(r.push_chunk(b"part").unwrap().is_empty());
    assert!(r.push_chunk(b"").unwrap().is_empty());
    assert_eq!(r.push_chunk(b"ial\n").unwrap(), vec!["partial".to_string()]);
}

#[test]
fn invalid_utf8_chunk_is_dropped_whole() {
    let mut r = LineReassembler::new();
    assert!(r.push_chunk(b"start ").unwrap().is_empty());
    assert_eq!(r.push_chunk(b"bad \xff\xfe\nline\n"), Err(Utf8DecodeError));
    assert_eq!(r.push_chunk(b"end\n").unwrap(), vec!["start end".to_string()]);
}

#[test]
fn multibyte_text_survives_reassembly() {
    let mut r = LineReassembler::new();
    assert!(r.push_chunk("caf\u{e9} ".as_bytes()).unwrap().is_empty());
    assert_eq!(r.push_chunk("\u{fc}ber\nx".as_bytes()).unwrap(), vec!["caf\u{e9} \u{fc}ber".to_string()]);
}

#[test]
fn line_spanning_many_chunks() {
    let (lines, _) = feed_all(&[b"a", b"b", b"c", b"d\ne"]);
    assert_eq!(lines, vec!["abcd".to_string()]);
}

#[test]
fn chunk_cut_inside_a_character_is_dropped() {
    let mut r = LineReassembler::new();
    let bytes = "\u{e9}\n".as_bytes();
    assert_eq!(r.push_chunk(&bytes[..1]), Err(Utf8DecodeError));
    assert_eq!(r.push_chunk(&bytes[1..]), Err(Utf8DecodeError));
    assert_eq!(r.push_chunk(b"ok\n").unwrap(), vec!["ok".to_string()]);
}
