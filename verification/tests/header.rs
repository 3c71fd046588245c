use bytes::Bytes;
use tar_async::decode::raw::Async;
use tar_async::header::decode_tar;
use tar_async::header::RawAsyncEntry;
use tar_async::header::RawEntryStream;
use tar_async::Error;

fn ustar(name: &str, size: u64) -> Vec<u8> {
    let mut h = tar::Header::new_ustar();
    h.set_path(name).unwrap();
    h.set_size(size);
    h.set_cksum();
    h.as_bytes().to_vec()
}

fn entry(name: &str, payload: &[u8]) -> Vec<u8> {
    let mut a = ustar(name, payload.len() as u64);
    a.extend_from_slice(payload);
    while a.len() % 512 != 0 {
        a.push(0xee);
    }
    a
}

fn name_of(e: &RawAsyncEntry) -> String {
    let h = tar::Header::from_byte_slice(&e.header().block[..]);
    String::from_utf8_lossy(&h.path_bytes()).to_string()
}

fn fed(archive: &[u8]) -> RawEntryStream<()> {
    let mut stream: RawEntryStream<()> = decode_tar();
    assert!(stream.feed(Bytes::from(archive.to_vec())).is_none());
    stream.finish();
    stream
}

fn next(stream: &mut RawEntryStream<()>) -> Option<RawAsyncEntry> {
    match stream.poll() {
        Ok(Async::Ready(e)) => e,
        _ => panic!("no answer"),
    }
}

fn payload(stream: &mut RawEntryStream<()>, e: &mut RawAsyncEntry) -> Vec<u8> {
    let mut v = Vec::new();
    loop {
        match stream.poll_entry(e) {
            Ok(Async::Ready(Some(b))) => v.extend_from_slice(&b),
            Ok(Async::Ready(None)) => return v,
            _ => panic!("no payload"),
        }
    }
}

#[test]
fn raw_entries_come_with_their_payload() {
    let mut a = entry("one", b"first payload");
    a.extend_from_slice(&[0u8; 512]);
    a.extend_from_slice(&entry("two", &[3u8; 600]));
    a.extend_from_slice(&[0u8; 1024]);
    let mut stream = fed(&a);
    let mut one = next(&mut stream).unwrap();
    assert_eq!(name_of(&one), "one");
    assert_eq!(payload(&mut stream, &mut one), b"first payload".to_vec());
    stream.release(one);
    let mut two = next(&mut stream).unwrap();
    assert_eq!(name_of(&two), "two");
    assert_eq!(payload(&mut stream, &mut two), vec![3u8; 600]);
    stream.release(two);
    assert!(next(&mut stream).is_none());
}

#[test]
fn the_stream_is_locked_while_an_entry_is_out() {
    let mut a = entry("one", b"abc");
    a.extend_from_slice(&entry("two", b""));
    let mut stream = fed(&a);
    assert!(!stream.is_locked());
    let one = next(&mut stream).unwrap();
    assert!(stream.is_locked());
    assert!(matches!(stream.poll(), Ok(Async::NotReady)));
    stream.release(one);
    assert!(!stream.is_locked());
    let two = next(&mut stream).unwrap();
    assert_eq!(name_of(&two), "two");
}

#[test]
fn payload_that_was_not_read_is_passed_over() {
    let mut a = entry("one", &[1u8; 2000]);
    a.extend_from_slice(&entry("two", b"xyz"));
    let mut stream = fed(&a);
    let mut one = next(&mut stream).unwrap();
    match stream.poll_entry(&mut one) {
        Ok(Async::Ready(Some(b))) => assert_eq!(b.len(), 2000),
        _ => panic!("no payload"),
    }
    stream.release(one);
    let mut two = next(&mut stream).unwrap();
    assert_eq!(payload(&mut stream, &mut two), b"xyz".to_vec());
}

#[test]
fn a_payload_cut_short_is_unexpected_eof() {
    let a = entry("one", &[1u8; 2000]);
    let mut stream = fed(&a[..1000]);
    let mut one = next(&mut stream).unwrap();
    assert!(matches!(stream.poll_entry(&mut one), Ok(Async::Ready(Some(_)))));
    assert!(matches!(stream.poll_entry(&mut one), Err(Error::UnexpectedEof)));
}

#[test]
fn a_size_that_cannot_be_read_is_an_io_error() {
    let mut a = ustar("bad", 0);
    a[124..136].copy_from_slice(b"zzzzzzzzzzz\0");
    let mut stream = fed(&a);
    assert!(matches!(stream.poll(), Err(Error::IoError(_))));
}
