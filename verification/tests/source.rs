use shared_reader::{find_lf, BufIds, LimitReader, SharedReader, SliceSource, Source};

#[test]
fn find_lf_gives_the_first_line_feed() {
    assert_eq!(find_lf(b""), None);
    assert_eq!(find_lf(b"abc"), None);
    assert_eq!(find_lf(b"\n"), Some(0));
    assert_eq!(find_lf(b"ab\ncd\n"), Some(2));
    assert_eq!(find_lf(b"ab\r\n"), Some(3));
}

#[test]
fn a_slice_source_delivers_as_much_as_there_is_room_for() {
    let mut s = SliceSource::new(b"abcdef");
    let mut dest = [0u8; 4];
    assert_eq!(s.read(&mut dest), Ok(4));
    assert_eq!(&dest, b"abcd");
    assert_eq!(s.read(&mut dest), Ok(2));
    assert_eq!(&dest, b"efcd");
    assert_eq!(s.read(&mut dest), Ok(0));
    assert_eq!(s.read(&mut dest), Ok(0));
}

#[test]
fn a_slice_source_with_no_room_delivers_nothing() {
    let mut s = SliceSource::new(b"abc");
    assert_eq!(s.read(&mut []), Ok(0));
    let mut dest = [0u8; 8];
    assert_eq!(s.read(&mut dest), Ok(3));
    assert_eq!(&dest[..3], b"abc");
}

#[test]
fn a_limit_reader_delivers_no_more_than_its_limit() {
    let mut s = LimitReader::new(SliceSource::new(b"abcdefg"), 3);
    let mut dest = [0u8; 5];
    assert_eq!(s.read(&mut dest), Ok(3));
    assert_eq!(&dest, b"abc\0\0");
    assert_eq!(s.read(&mut dest[..2]), Ok(2));
    assert_eq!(&dest, b"dec\0\0");
    assert_eq!(s.read(&mut dest), Ok(2));
    assert_eq!(&dest, b"fgc\0\0");
    assert_eq!(s.read(&mut dest), Ok(0));
}

#[test]
fn a_limit_reader_gives_the_source_behind_all_the_room_up_to_its_limit() {
    let mut s = LimitReader::new(SliceSource::new(b"0123456789"), 8);
    let mut dest = [0u8; 100];
    assert_eq!(s.read(&mut dest), Ok(8));
    assert_eq!(&dest[..8], b"01234567");
    assert_eq!(&dest[8..], &[0u8; 92]);
    assert_eq!(s.read(&mut dest), Ok(2));
    assert_eq!(&dest[..8], b"89234567");
    assert_eq!(s.read(&mut dest), Ok(0));
}

#[test]
fn a_limit_of_zero_delivers_nothing() {
    let mut s = LimitReader::new(SliceSource::new(b"abc"), 0);
    let mut dest = [0u8; 4];
    assert_eq!(s.read(&mut dest), Ok(0));
    assert_eq!(&dest, &[0u8; 4]);
    let mut r = SharedReader::new(LimitReader::new(SliceSource::new(b"abc\n"), 0), 4, BufIds::new());
    assert_eq!(r.read_line().unwrap().slice(), b"");
}

/// Delivers `x` bytes, at most `piece` at a time; the read number `fail_at`
/// fails. Notes how much room each read was given.
struct Probe {
    left: usize,
    piece: usize,
    reads: usize,
    fail_at: Option<usize>,
    rooms: Vec<usize>,
}

impl Probe {
    fn new(left: usize, piece: usize, fail_at: Option<usize>) -> Probe {
        Probe { left, piece, reads: 0, fail_at, rooms: Vec::new() }
    }
}

impl Source for Probe {
    type Error = String;

    fn read(&mut self, dest: &mut [u8]) -> Result<usize, String> {
        let read = self.reads;
        self.reads += 1;
        if self.fail_at == Some(read) {
            return Err(format!("read {read} failed"));
        }
        self.rooms.push(dest.len());
        let n = dest.len().min(self.left).min(self.piece);
        for b in dest[..n].iter_mut() {
            *b = b'x';
        }
        self.left -= n;
        Ok(n)
    }
}

#[test]
fn a_failed_read_is_returned_as_it_is_and_nothing_is_lost() {
    let mut r = SharedReader::new(Probe::new(5, 3, Some(1)), 4, BufIds::new());
    let before = r.buffer();
    match r.read_line() {
        Err(e) => assert_eq!(e, "read 1 failed"),
        Ok(_) => panic!("the second read failed"),
    }
    assert_eq!(r.buffer(), before);
    let line = r.read_line().unwrap();
    assert_eq!(line.slice(), b"xxxxx");
}

#[test]
fn a_failed_first_read_leaves_the_reader_as_it_was() {
    let mut r = SharedReader::new(Probe::new(2, 8, Some(0)), 4, BufIds::new());
    let before = r.buffer();
    assert_eq!(r.read_line().err(), Some("read 0 failed".to_string()));
    assert_eq!(r.buffer(), before);
    let line = r.read_line().unwrap();
    assert_eq!(line.slice(), b"xx");
    assert_eq!(line.buf(), before);
}

#[test]
fn a_new_buffer_is_twice_what_is_pending_and_no_less_than_the_first() {
    // Rooms offered: 4 (first buffer), then 8 - 4, 16 - 8, 32 - 16: each
    // buffer is twice as long as the bytes that it takes over.
    let mut probe = Probe::new(20, 64, None);
    {
        let mut r = SharedReader::new(&mut probe, 4, BufIds::new());
        assert_eq!(r.read_line().unwrap().slice().len(), 20);
    }
    assert_eq!(probe.rooms, vec![4, 4, 8, 16, 12]);
}

#[test]
fn a_new_buffer_with_little_pending_has_the_initial_capacity() {
    // Seven bytes fill the buffer; a line of four is handed out and three
    // stay pending. Twice three is less than seven, so the next buffer has
    // seven bytes again, three of them taken.
    struct Lines {
        text: Vec<u8>,
        rooms: Vec<usize>,
    }
    impl Source for Lines {
        type Error = String;

        fn read(&mut self, dest: &mut [u8]) -> Result<usize, String> {
            self.rooms.push(dest.len());
            let n = dest.len().min(self.text.len());
            dest[..n].copy_from_slice(&self.text[..n]);
            self.text.drain(..n);
            Ok(n)
        }
    }
    impl Source for &mut Lines {
        type Error = String;

        fn read(&mut self, dest: &mut [u8]) -> Result<usize, String> {
            (**self).read(dest)
        }
    }
    let mut source = Lines { text: b"abc\ndefgh\n".to_vec(), rooms: Vec::new() };
    {
        let mut r = SharedReader::new(&mut source, 7, BufIds::new());
        assert_eq!(r.read_line().unwrap().slice(), b"abc\n");
        assert_eq!(r.read_line().unwrap().slice(), b"defgh\n");
    }
    assert_eq!(source.rooms, vec![7, 4]);
}

impl Source for &mut Probe {
    type Error = String;

    fn read(&mut self, dest: &mut [u8]) -> Result<usize, String> {
        (**self).read(dest)
    }
}
