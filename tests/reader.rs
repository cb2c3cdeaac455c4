use vui_7z::reader::{OutputReader, Source};

fn feed(r: &mut OutputReader, bytes: &[u8], s: Source, out: &mut Vec<(String, Source)>) {
    for b in bytes {
        if let Some(l) = r.read(*b, s) {
            out.push((l, s));
        }
    }
}

#[test]
fn interleaved_streams_either_order() {
    for stdout_first in [true, false] {
        let mut r = OutputReader::new();
        let mut out = Vec::new();
        if stdout_first {
            feed(&mut r, b"a\n", Source::Stdout, &mut out);
            feed(&mut r, b"b\n", Source::Stderr, &mut out);
        } else {
            feed(&mut r, b"b\n", Source::Stderr, &mut out);
            feed(&mut r, b"a\n", Source::Stdout, &mut out);
        }
        assert_eq!(out.len(), 2);
        assert!(out.contains(&("a".to_string(), Source::Stdout)));
        assert!(out.contains(&("b".to_string(), Source::Stderr)));
        assert!(!r.close(Source::Stdout));
        assert!(!r.is_open(Source::Stdout));
        assert!(r.is_open(Source::Stderr));
        assert!(r.close(Source::Stderr));
    }
}

#[test]
fn byte_by_byte_interleaving_keeps_lines_apart() {
    let mut r = OutputReader::new();
    let mut out = Vec::new();
    feed(&mut r, b"a", Source::Stdout, &mut out);
    feed(&mut r, b"b", Source::Stderr, &mut out);
    feed(&mut r, b"c", Source::Stdout, &mut out);
    feed(&mut r, b"\n", Source::Stderr, &mut out);
    feed(&mut r, b"\n", Source::Stdout, &mut out);
    assert_eq!(out, vec![("b".to_string(), Source::Stderr), ("ac".to_string(), Source::Stdout)]);
}

#[test]
fn prompt_flushed_at_colon() {
    let mut r = OutputReader::new();
    let mut out = Vec::new();
    feed(&mut r, b"Enter password (will not be echoed):", Source::Stdout, &mut out);
    assert_eq!(out, vec![("Enter password (will not be echoed):".to_string(), Source::Stdout)]);
    let mut r = OutputReader::new();
    let mut out = Vec::new();
    feed(&mut r, b"Enter password: ", Source::Stdout, &mut out);
    assert_eq!(out, vec![("Enter password:".to_string(), Source::Stdout)]);
}

#[test]
fn colon_elsewhere_does_not_flush() {
    let mut r = OutputReader::new();
    let mut out = Vec::new();
    feed(&mut r, b"Type: x\n", Source::Stdout, &mut out);
    assert_eq!(out, vec![("Type: x".to_string(), Source::Stdout)]);
}

#[test]
fn backspace_is_dropped() {
    let mut r = OutputReader::new();
    let mut out = Vec::new();
    feed(&mut r, b"4%\x08\x08\x08\x08ok\n", Source::Stdout, &mut out);
    assert_eq!(out, vec![("4%ok".to_string(), Source::Stdout)]);
}

#[test]
fn closing_both_without_bytes_gives_no_line() {
    let mut r = OutputReader::new();
    assert!(!r.close(Source::Stderr));
    assert!(r.close(Source::Stdout));
}
