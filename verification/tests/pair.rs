use std::io;

use shared_reader::{BufIds, BufPair, LimitReader, SharedReader, SliceSource};

#[derive(Clone, Debug, PartialEq, Eq)]
struct Ident {
    author: Vec<u8>,
    committer: Vec<u8>,
}

fn strip_lf(line: &[u8]) -> &[u8] {
    line.strip_suffix(b"\n").unwrap_or(line)
}

#[test]
fn self_ref() {
    let s = "author: Author
committer: Committer";
    let b = LimitReader::new(SliceSource::new(s.as_bytes()), 8);
    let r = SharedReader::new(b, 100, BufIds::new());

    let (_, ident) = BufPair::new(r, |builder| -> io::Result<_> {
        let author = builder.read_line().map_err(|e| -> io::Error { match e {} })?;
        let author = strip_lf(author.slice());
        let Some(author) = author.strip_prefix(b"author: ") else {
            return Err(io::Error::new(
                io::ErrorKind::InvalidData,
                "expected author directive",
            ));
        };
        let committer = builder.read_line().map_err(|e| -> io::Error { match e {} })?;
        let committer = strip_lf(committer.slice());
        let Some(committer) = committer.strip_prefix(b"committer: ") else {
            return Err(io::Error::new(
                io::ErrorKind::InvalidData,
                "expected committer directive",
            ));
        };
        Ok(Ident { author: author.to_vec(), committer: committer.to_vec() })
    });
    let ident = ident.unwrap();
    assert_eq!(
        ident.dependent(),
        &Ident {
            author: b"Author".to_vec(),
            committer: b"Committer".to_vec()
        }
    );
}

#[test]
fn a_session_without_reads_tracks_nothing() {
    let r = SharedReader::new(SliceSource::new(b"abc\n"), 8, BufIds::new());
    let (mut r, pair) = BufPair::new(r, |_| -> Result<u32, ()> { Ok(7) });
    let pair = pair.unwrap();
    assert_eq!(pair.dependent(), &7);
    assert!(pair.owner().is_empty());
    assert_eq!(r.read_line().unwrap().slice(), b"abc\n");
}

#[test]
fn lines_from_one_buffer_track_it_once() {
    let r = SharedReader::new(SliceSource::new(b"a\nb\nc\n"), 16, BufIds::new());
    let first = r.buffer();
    let (_, pair) = BufPair::new(r, |session| -> Result<Vec<Vec<u8>>, ()> {
        let mut lines = Vec::new();
        for _ in 0..3 {
            lines.push(session.read_line().unwrap().slice().to_vec());
        }
        Ok(lines)
    });
    let pair = pair.unwrap();
    assert_eq!(pair.dependent(), &vec![b"a\n".to_vec(), b"b\n".to_vec(), b"c\n".to_vec()]);
    assert_eq!(pair.owner(), &[first]);
}

#[test]
fn each_buffer_read_from_is_tracked_once_in_order() {
    // Five reads from four buffers: the third and the fourth line come
    // from the same one.
    let text = b"ab\ncdefgh\nx\ny\n";
    let r = SharedReader::new(SliceSource::new(text), 4, BufIds::new());
    let (_, pair) = BufPair::new(r, |session| -> Result<Vec<_>, ()> {
        let mut lines = Vec::new();
        for _ in 0..5 {
            let line = session.read_line().unwrap();
            lines.push((line.slice().to_vec(), line.buf()));
        }
        Ok(lines)
    });
    let pair = pair.unwrap();
    let lines = pair.dependent();
    let text: Vec<&[u8]> = lines.iter().map(|line| &line.0[..]).collect();
    assert_eq!(text, [&b"ab\n"[..], b"cdefgh\n", b"x\n", b"y\n", b""]);
    let touched: Vec<_> = lines.iter().map(|line| line.1).collect();
    assert_ne!(touched[0], touched[1]);
    assert_ne!(touched[1], touched[2]);
    assert_eq!(touched[2], touched[3]);
    assert_ne!(touched[3], touched[4]);
    assert_eq!(pair.owner(), &[touched[0], touched[1], touched[2], touched[4]]);
    for (i, a) in pair.owner().iter().enumerate() {
        for b in &pair.owner()[..i] {
            assert_ne!(a, b);
        }
    }
}

#[test]
fn a_session_starts_with_an_empty_list_whatever_was_read_before() {
    let mut r = SharedReader::new(SliceSource::new(b"a\nb\n"), 16, BufIds::new());
    let first = r.read_line().unwrap();
    let (_, pair) = BufPair::new(r, |session| -> Result<Vec<u8>, ()> {
        Ok(session.read_line().unwrap().slice().to_vec())
    });
    let pair = pair.unwrap();
    assert_eq!(pair.dependent(), b"b\n");
    assert_eq!(pair.owner(), &[first.buf()]);
}

#[test]
fn a_failing_construction_returns_its_error_and_no_pair() {
    let r = SharedReader::new(SliceSource::new(b"author: A\nrest\n"), 16, BufIds::new());
    let (mut r, pair) = BufPair::new(r, |session| -> Result<Ident, String> {
        let line = session.read_line().unwrap();
        if !line.slice().starts_with(b"committer: ") {
            return Err("expected committer directive".to_string());
        }
        Ok(Ident { author: Vec::new(), committer: line.slice().to_vec() })
    });
    assert_eq!(pair.err(), Some("expected committer directive".to_string()));
    // The reader has moved on by the line that the session read.
    assert_eq!(r.read_line().unwrap().slice(), b"rest\n");
}

#[test]
fn the_reader_goes_on_after_a_session() {
    let r = SharedReader::new(LimitReader::new(SliceSource::new(b"a\nb\nc"), 1), 2, BufIds::new());
    let (mut r, pair) = BufPair::new(r, |session| -> Result<usize, ()> {
        Ok(session.read_line().unwrap().slice().len())
    });
    assert_eq!(pair.unwrap().dependent(), &2);
    assert_eq!(r.read_line().unwrap().slice(), b"b\n");
    assert_eq!(r.read_line().unwrap().slice(), b"c");
    assert_eq!(r.read_line().unwrap().slice(), b"");
}
