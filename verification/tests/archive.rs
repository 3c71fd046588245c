use bytes::Bytes;
use tar_async::archive::decode_tar;
use tar_async::archive::EntryStream;
use tar_async::archive::TarItem;
use tar_async::decode::raw::Async;
use tar_async::Error;

fn finished(mut h: tar::Header, name: &str, size: u64) -> Vec<u8> {
    h.set_path(name).unwrap();
    h.set_size(size);
    h.set_cksum();
    h.as_bytes().to_vec()
}

fn padded(payload: &[u8]) -> Vec<u8> {
    let mut v = payload.to_vec();
    while v.len() % 512 != 0 {
        v.push(0);
    }
    v
}

fn record(kind: tar::EntryType, gnu: bool, payload: &[u8]) -> Vec<u8> {
    let mut h = if gnu { tar::Header::new_gnu() } else { tar::Header::new_ustar() };
    h.set_entry_type(kind);
    let mut a = finished(h, "record", payload.len() as u64);
    a.extend_from_slice(&padded(payload));
    a
}

fn file(name: &str, payload: &[u8]) -> Vec<u8> {
    let mut a = finished(tar::Header::new_ustar(), name, payload.len() as u64);
    a.extend_from_slice(&padded(payload));
    a
}

/// What the stream hands out: for each entry its path, link, PAX records and
/// size, then all payload, then how it ended.
fn read(chunks: &[&[u8]]) -> (Vec<(String, Option<String>, Option<Vec<u8>>, u64)>, Vec<u8>, Result<(), String>) {
    let mut stream: EntryStream<()> = decode_tar();
    let mut next = 0;
    let mut entries = Vec::new();
    let mut payload = Vec::new();
    loop {
        match stream.poll() {
            Ok(Async::Ready(Some(TarItem::Entry(e)))) => entries.push((
                e.path().unwrap().to_string(),
                e.link().unwrap().map(|l| l.to_string()),
                e.pax_extensions().cloned(),
                e.size(),
            )),
            Ok(Async::Ready(Some(TarItem::Chunk(b)))) => payload.extend_from_slice(&b),
            Ok(Async::Ready(None)) => return (entries, payload, Ok(())),
            Ok(Async::NotReady) => {
                if next < chunks.len() {
                    assert!(stream.feed(Bytes::from(chunks[next].to_vec())).is_none());
                    next += 1;
                } else {
                    stream.finish();
                }
            }
            Err(Error::UnexpectedEof) => return (entries, payload, Err("eof".to_string())),
            Err(Error::Format(m)) => return (entries, payload, Err(m.to_string())),
            Err(e) => return (entries, payload, Err(format!("{:?}", e))),
        }
    }
}

#[test]
fn records_are_folded_into_the_entry() {
    let mut a = record(tar::EntryType::GNULongName, true, b"a/long/name\0");
    a.extend_from_slice(&record(tar::EntryType::GNULongLink, true, b"a/long/link\0"));
    a.extend_from_slice(&record(tar::EntryType::XHeader, false, b"20 path=ala/ma/kota\n"));
    a.extend_from_slice(&file("short", b"hello"));
    a.extend_from_slice(&file("plain", b""));
    a.extend_from_slice(&[0u8; 1024]);
    let whole = read(&[&a]);
    assert_eq!(
        whole.0,
        vec![
            (
                "a/long/name".to_string(),
                Some("a/long/link".to_string()),
                Some(b"20 path=ala/ma/kota\n".to_vec()),
                5
            ),
            ("plain".to_string(), None, None, 0),
        ]
    );
    assert_eq!(whole.1, b"hello".to_vec());
    assert_eq!(whole.2, Ok(()));
    for size in [1usize, 100, 512, 1000] {
        let pieces: Vec<&[u8]> = a.chunks(size).collect();
        assert_eq!(read(&pieces), whole);
    }
}

#[test]
fn a_second_record_of_a_kind_breaks_the_format() {
    for kind in [tar::EntryType::GNULongName, tar::EntryType::GNULongLink, tar::EntryType::XHeader] {
        let gnu = kind != tar::EntryType::XHeader;
        let mut a = record(kind, gnu, b"one\0");
        a.extend_from_slice(&record(kind, gnu, b"two\0"));
        a.extend_from_slice(&file("f", b""));
        let (entries, _, end) = read(&[&a]);
        assert!(entries.is_empty());
        assert_eq!(end, Err("two long name entries describing the same member".to_string()));
    }
}

#[test]
fn a_gathered_record_without_its_entry_is_cut_short() {
    let a = record(tar::EntryType::XHeader, false, b"10 path=a\n");
    assert_eq!(read(&[&a]).2, Err("eof".to_string()));
    let mut b = record(tar::EntryType::GNULongName, true, b"name\0");
    b.extend_from_slice(&[0u8; 512]);
    assert_eq!(read(&[&b]).2, Err("eof".to_string()));
}
