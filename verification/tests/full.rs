use bytes::Bytes;
use tar_async::decode::full::decode_tar;
use tar_async::decode::full::DeepTarStream;
use tar_async::decode::raw::Async;
use tar_async::Error;

fn block(mut h: tar::Header, name: &str, size: u64) -> Vec<u8> {
    h.set_path(name).unwrap();
    h.set_size(size);
    h.set_mode(0o644);
    h.set_uid(0);
    h.set_gid(0);
    h.set_cksum();
    h.as_bytes().to_vec()
}

fn ustar(name: &str, size: u64) -> Vec<u8> {
    block(tar::Header::new_ustar(), name, size)
}

fn padded(payload: &[u8]) -> Vec<u8> {
    let mut v = payload.to_vec();
    while v.len() % 512 != 0 {
        v.push(0);
    }
    v
}

fn gnu_long_name(name: &[u8]) -> Vec<u8> {
    let mut h = tar::Header::new_gnu();
    h.set_entry_type(tar::EntryType::GNULongName);
    let mut a = block(h, "././@LongLink", name.len() as u64);
    a.extend_from_slice(&padded(name));
    a
}

fn pax(records: &[u8]) -> Vec<u8> {
    let mut h = tar::Header::new_ustar();
    h.set_entry_type(tar::EntryType::XHeader);
    let mut a = block(h, "PaxHeader", records.len() as u64);
    a.extend_from_slice(&padded(records));
    a
}

/// What a reader sees that reads every entry to its end.
#[derive(Debug, PartialEq)]
struct Seen {
    entries: Vec<(Vec<u8>, u64, Vec<u8>)>,
    end: Result<(), String>,
}

fn text<E: std::fmt::Debug + Sync + Send + 'static>(e: Error<E>) -> String {
    match e {
        Error::UnexpectedEof => "eof".to_string(),
        Error::Format(m) => format!("format: {}", m),
        Error::IoError(_) => "io".to_string(),
        Error::UpstreamError(e) => format!("upstream: {:?}", e),
    }
}

fn read_all(chunks: &[&[u8]]) -> Seen {
    let mut stream: DeepTarStream<()> = decode_tar();
    let mut next = 0;
    let mut entries = Vec::new();
    let mut supply = |stream: &mut DeepTarStream<()>| {
        if next < chunks.len() {
            assert!(stream.feed(Bytes::from(chunks[next].to_vec())).is_none());
            next += 1;
        } else {
            stream.finish();
        }
    };
    loop {
        match stream.poll() {
            Ok(Async::Ready(Some(entry))) => {
                let path = entry.header().path().unwrap().as_bytes().to_vec();
                entries.push((path, entry.header().size(), Vec::new()));
                loop {
                    match stream.poll_entry_data(entry.position()) {
                        Ok(Async::Ready(Some(b))) => entries.last_mut().unwrap().2.extend_from_slice(&b),
                        Ok(Async::Ready(None)) => break,
                        Ok(Async::NotReady) => supply(&mut stream),
                        Err(e) => return Seen { entries, end: Err(text(e)) },
                    }
                }
                stream.release(entry.position());
            }
            Ok(Async::Ready(None)) => return Seen { entries, end: Ok(()) },
            Ok(Async::NotReady) => supply(&mut stream),
            Err(e) => return Seen { entries, end: Err(text(e)) },
        }
    }
}

fn tiny_archive() -> Vec<u8> {
    let mut a = ustar("a.txt", 5);
    a.extend_from_slice(&padded(b"hello"));
    a
}

#[test]
fn empty_archive_has_no_entries() {
    let zeros = [0u8; 1024];
    let seen = read_all(&[&zeros]);
    assert_eq!(seen, Seen { entries: vec![], end: Ok(()) });
}

#[test]
fn single_tiny_file() {
    let a = tiny_archive();
    let seen = read_all(&[&a]);
    assert_eq!(
        seen,
        Seen { entries: vec![(b"a.txt".to_vec(), 5, vec![0x68, 0x65, 0x6c, 0x6c, 0x6f])], end: Ok(()) }
    );
}

#[test]
fn chunk_straddling_header() {
    let a = tiny_archive();
    let seen = read_all(&[&a[..200], &a[200..400], &a[400..600], &a[600..]]);
    assert_eq!(seen, read_all(&[&a]));
    assert_eq!(seen.entries.len(), 1);
}

#[test]
fn gnu_long_name_replaces_the_name() {
    let mut a = gnu_long_name(b"long/path/name\0");
    a.extend_from_slice(&ustar("trunc", 0));
    let seen = read_all(&[&a]);
    assert_eq!(seen, Seen { entries: vec![(b"long/path/name".to_vec(), 0, vec![])], end: Ok(()) });
}

#[test]
fn pax_path_override() {
    let mut a = pax(b"20 path=ala/ma/kota\n");
    a.extend_from_slice(&ustar("other", 0));
    let seen = read_all(&[&a]);
    assert_eq!(seen, Seen { entries: vec![(b"ala/ma/kota".to_vec(), 0, vec![])], end: Ok(()) });
}

#[test]
fn pax_path_goes_before_gnu_long_name() {
    let mut a = gnu_long_name(b"long/path/name\0");
    a.extend_from_slice(&pax(b"20 path=ala/ma/kota\n"));
    a.extend_from_slice(&ustar("other", 0));
    let seen = read_all(&[&a]);
    assert_eq!(seen.entries[0].0, b"ala/ma/kota".to_vec());
    let mut b = pax(b"20 path=ala/ma/kota\n");
    b.extend_from_slice(&gnu_long_name(b"long/path/name\0"));
    b.extend_from_slice(&ustar("other", 0));
    assert_eq!(read_all(&[&b]).entries[0].0, b"ala/ma/kota".to_vec());
}

#[test]
fn truncated_payload() {
    let mut a = ustar("big", 1000);
    a.extend_from_slice(&[9u8; 300]);
    let seen = read_all(&[&a]);
    assert_eq!(seen.entries.len(), 1);
    assert_eq!(seen.entries[0].1, 1000);
    assert!(seen.entries[0].2.len() <= 300);
    assert_eq!(seen.end, Err("eof".to_string()));
}

#[test]
fn every_chunking_reads_the_same() {
    let mut a = gnu_long_name(b"long/path/name\0");
    a.extend_from_slice(&pax(b"30 mtime=1546272612.201798006\n12 uid=1000\n"));
    a.extend_from_slice(&ustar("one", 700));
    a.extend_from_slice(&padded(&[5u8; 700]));
    a.extend_from_slice(&tiny_archive());
    a.extend_from_slice(&[0u8; 1024]);
    let whole = read_all(&[&a]);
    assert_eq!(whole.end, Ok(()));
    assert_eq!(whole.entries.len(), 2);
    assert_eq!(whole.entries[0].2, vec![5u8; 700]);
    for size in [1usize, 7, 511, 512, 513, 1000] {
        let pieces: Vec<&[u8]> = a.chunks(size).collect();
        assert_eq!(read_all(&pieces), whole);
    }
}

#[test]
fn a_stale_entry_finds_its_payload_ended() {
    let mut a = tiny_archive();
    a.extend_from_slice(&ustar("b.txt", 3));
    a.extend_from_slice(&padded(b"abc"));
    let mut stream: DeepTarStream<()> = decode_tar();
    assert!(stream.feed(Bytes::from(a)).is_none());
    stream.finish();
    let first = match stream.poll() {
        Ok(Async::Ready(Some(e))) => e,
        _ => panic!("no first entry"),
    };
    assert_eq!(stream.remaining(), 5);
    assert!(matches!(stream.poll(), Ok(Async::NotReady)));
    stream.release(first.position());
    assert_eq!(stream.remaining(), 0);
    let second = match stream.poll() {
        Ok(Async::Ready(Some(e))) => e,
        _ => panic!("no second entry"),
    };
    assert_eq!(second.position(), first.position() + 1);
    assert!(matches!(stream.poll_entry_data(first.position()), Ok(Async::Ready(None))));
    stream.release(first.position());
    assert_eq!(stream.remaining(), 3);
    match stream.poll_entry_data(second.position()) {
        Ok(Async::Ready(Some(b))) => assert_eq!(&b[..], b"abc"),
        _ => panic!("no payload"),
    }
    assert!(matches!(stream.poll_entry_data(second.position()), Ok(Async::Ready(None))));
    assert!(matches!(stream.poll(), Ok(Async::Ready(None))));
}

#[test]
fn payload_is_cut_to_the_size_in_force() {
    let mut a = pax(b"9 size=3\n");
    a.extend_from_slice(&ustar("cut", 5));
    a.extend_from_slice(&padded(b"hello"));
    a.extend_from_slice(&ustar("next", 0));
    let seen = read_all(&[&a]);
    assert_eq!(
        seen,
        Seen {
            entries: vec![(b"cut".to_vec(), 3, b"hel".to_vec()), (b"next".to_vec(), 0, vec![])],
            end: Ok(())
        }
    );
}

#[test]
fn an_entry_inside_a_payload_breaks_the_format() {
    let mut a = pax(b"11 size=10\n");
    a.extend_from_slice(&ustar("short", 5));
    a.extend_from_slice(&padded(b"hello"));
    a.extend_from_slice(&ustar("next", 0));
    let seen = read_all(&[&a]);
    assert_eq!(seen.entries, vec![(b"short".to_vec(), 10, b"hello".to_vec())]);
    assert_eq!(seen.end, Err("format: read after end of file".to_string()));
}
