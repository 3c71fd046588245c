use bytes::Bytes;
use tar_async::decode::flat::decode_tar;
use tar_async::decode::flat::read_fields;
use tar_async::decode::flat::resolve;
use tar_async::decode::flat::EntryStream;
use tar_async::decode::flat::HeaderFields;
use tar_async::decode::flat::TarItem;
use tar_async::decode::header::Header;
use tar_async::decode::pax::PaxAttributes;
use tar_async::decode::raw::Async;
use tar_async::decode::time::FileTime;
use tar_async::Error;

fn finished(mut h: tar::Header, name: &str, size: u64) -> tar::Header {
    h.set_path(name).unwrap();
    h.set_size(size);
    h.set_mode(0o644);
    h.set_uid(7);
    h.set_gid(8);
    h.set_mtime(1000);
    h.set_cksum();
    h
}

fn ustar(name: &str, size: u64) -> Vec<u8> {
    finished(tar::Header::new_ustar(), name, size).as_bytes().to_vec()
}

fn padded(payload: &[u8]) -> Vec<u8> {
    let mut v = payload.to_vec();
    while v.len() % 512 != 0 {
        v.push(0);
    }
    v
}

fn record(kind: tar::EntryType, gnu: bool, payload: &[u8]) -> Vec<u8> {
    let mut h = if gnu { tar::Header::new_gnu() } else { tar::Header::new_ustar() };
    h.set_entry_type(kind);
    let mut a = finished(h, "record", payload.len() as u64).as_bytes().to_vec();
    a.extend_from_slice(&padded(payload));
    a
}

fn long_name(name: &[u8]) -> Vec<u8> {
    record(tar::EntryType::GNULongName, true, name)
}

fn long_link(name: &[u8]) -> Vec<u8> {
    record(tar::EntryType::GNULongLink, true, name)
}

fn pax(records: &[u8]) -> Vec<u8> {
    record(tar::EntryType::XHeader, false, records)
}

fn own(h: &tar::Header) -> Header {
    Header { block: *h.as_bytes() }
}

fn text<E: std::fmt::Debug + Sync + Send + 'static>(e: Error<E>) -> String {
    match e {
        Error::UnexpectedEof => "eof".to_string(),
        Error::Format(m) => format!("format: {}", m),
        Error::IoError(_) => "io".to_string(),
        Error::UpstreamError(e) => format!("upstream: {:?}", e),
    }
}

/// Reads the archive to its end: the paths of the entries, the payload, and how it ended.
fn coalesce(chunks: &[&[u8]]) -> (Vec<String>, Vec<u8>, Result<(), String>) {
    let mut stream: EntryStream<()> = decode_tar();
    let mut next = 0;
    let mut paths = Vec::new();
    let mut payload = Vec::new();
    loop {
        match stream.poll() {
            Ok(Async::Ready(Some(TarItem::Entry(e)))) => paths.push(e.path().unwrap().to_string()),
            Ok(Async::Ready(Some(TarItem::Chunk(b)))) => payload.extend_from_slice(&b),
            Ok(Async::Ready(None)) => return (paths, payload, Ok(())),
            Ok(Async::NotReady) => {
                if next < chunks.len() {
                    assert!(stream.feed(Bytes::from(chunks[next].to_vec())).is_none());
                    next += 1;
                } else {
                    stream.finish();
                }
            }
            Err(e) => return (paths, payload, Err(text(e))),
        }
    }
}

fn first_entry(archive: &[u8]) -> tar_async::decode::flat::TarEntry {
    let mut stream: EntryStream<()> = decode_tar();
    assert!(stream.feed(Bytes::from(archive.to_vec())).is_none());
    stream.finish();
    match stream.poll() {
        Ok(Async::Ready(Some(TarItem::Entry(e)))) => e,
        _ => panic!("no entry"),
    }
}

#[test]
fn fields_are_read_as_the_tar_crate_reads_them() {
    let mut h = tar::Header::new_ustar();
    h.set_entry_type(tar::EntryType::Symlink);
    h.set_link_name("target/of/link").unwrap();
    h.set_username("kota").unwrap();
    h.set_groupname("ala").unwrap();
    let h = finished(h, "dir/file.txt", 42);
    let fields = read_fields(&own(&h));
    assert_eq!(fields.entry_type, tar::EntryType::Symlink);
    assert_eq!(fields.path, b"dir/file.txt".to_vec());
    assert_eq!(fields.link_name, Some(b"target/of/link".to_vec()));
    assert_eq!(fields.size.unwrap(), 42);
    assert_eq!(fields.uid.unwrap(), 7);
    assert_eq!(fields.gid.unwrap(), 8);
    assert_eq!(fields.mtime.unwrap(), 1000);
    assert_eq!(fields.atime, None);
    assert_eq!(fields.ctime, None);
    assert_eq!(fields.uname, Some(b"kota".to_vec()));
    assert_eq!(fields.gname, Some(b"ala".to_vec()));
}

#[test]
fn ustar_prefix_leads_the_path() {
    let mut h = finished(tar::Header::new_ustar(), "name", 0);
    h.as_ustar_mut().unwrap().prefix[..6].copy_from_slice(b"prefix");
    let fields = read_fields(&own(&h));
    assert_eq!(fields.path, b"prefix/name".to_vec());
    assert_eq!(fields.path, h.path_bytes().into_owned());
    let mut old = finished(tar::Header::new_old(), "name", 0);
    old.as_mut_bytes()[345..351].copy_from_slice(b"prefix");
    assert_eq!(read_fields(&own(&old)).path, b"name".to_vec());
}

#[test]
fn gnu_block_has_times_and_old_block_has_no_names() {
    let mut h = tar::Header::new_gnu();
    h.as_gnu_mut().unwrap().set_atime(11);
    h.as_gnu_mut().unwrap().set_ctime(12);
    let h = finished(h, "g", 0);
    let fields = read_fields(&own(&h));
    assert_eq!(fields.atime, Some(11));
    assert_eq!(fields.ctime, Some(12));
    assert_eq!(fields.uname, Some(vec![]));
    assert_eq!(fields.link_name, None);
    assert_eq!(fields.entry_type, tar::EntryType::Regular);
    let old = finished(tar::Header::new_old(), "o", 0);
    let fields = read_fields(&own(&old));
    assert_eq!(fields.uname, None);
    assert_eq!(fields.gname, None);
    assert_eq!(fields.atime, None);
    assert_eq!(fields.entry_type, tar::EntryType::new(b'0'));
    assert_eq!(fields.entry_type.as_byte(), b'0');
}

#[test]
fn a_field_that_cannot_be_read_is_an_error() {
    let mut h = finished(tar::Header::new_ustar(), "bad", 0);
    h.as_mut_bytes()[108..116].copy_from_slice(b"zzzzzzz\0");
    let fields = read_fields(&own(&h));
    assert!(fields.uid.is_err());
    assert!(fields.gid.is_ok());
    let entry = resolve(fields, None, None, PaxAttributes::default());
    assert!(entry.is_err());
    let fields = read_fields(&own(&h));
    let pax = PaxAttributes { uid: Some(5), ..PaxAttributes::default() };
    assert_eq!(resolve(fields, None, None, pax).ok().unwrap().uid(), 5);
}

fn plain_fields() -> HeaderFields {
    read_fields(&own(&finished(tar::Header::new_gnu(), "header/path", 10)))
}

#[test]
fn pax_goes_before_gnu_and_gnu_before_the_header() {
    let pax = PaxAttributes {
        path: Some(b"pax/path".to_vec()),
        link_path: Some(b"pax/link".to_vec()),
        size: Some(99),
        uid: Some(1),
        gid: Some(2),
        ..PaxAttributes::default()
    };
    let e = resolve(plain_fields(), Some(b"gnu/name".to_vec()), Some(b"gnu/link".to_vec()), pax)
        .ok()
        .unwrap();
    assert_eq!(e.path().unwrap(), "pax/path");
    assert_eq!(e.link().unwrap(), Some("pax/link"));
    assert_eq!((e.size(), e.uid(), e.gid()), (99, 1, 2));
    let e = resolve(plain_fields(), Some(b"gnu/name".to_vec()), Some(b"gnu/link".to_vec()), PaxAttributes::default())
        .ok()
        .unwrap();
    assert_eq!(e.path().unwrap(), "gnu/name");
    assert_eq!(e.link().unwrap(), Some("gnu/link"));
    assert_eq!((e.size(), e.uid(), e.gid()), (10, 7, 8));
    let e = resolve(plain_fields(), None, None, PaxAttributes::default()).ok().unwrap();
    assert_eq!(e.path().unwrap(), "header/path");
    assert_eq!(e.link().unwrap(), None);
    assert_eq!(e.entry_type(), tar::EntryType::Regular);
}

#[test]
fn a_path_that_is_not_utf8_is_an_error() {
    let e = resolve(plain_fields(), Some(vec![0xff, 0xfe]), Some(vec![0xff]), PaxAttributes::default())
        .ok()
        .unwrap();
    assert!(e.path().is_err());
    assert!(e.link().is_err());
}

#[test]
fn times_are_taken_from_pax_first() {
    let mut gnu = tar::Header::new_gnu();
    gnu.as_gnu_mut().unwrap().set_atime(11);
    let mut a = pax(b"19 atime=1234.5678\n");
    a.extend_from_slice(finished(gnu, "t", 0).as_bytes());
    let e = first_entry(&a);
    assert_eq!(e.path().unwrap(), "t");
    assert_eq!(e.path_bytes(), b"t".as_ref());
    let atime = e.atime().unwrap();
    assert_eq!((atime.secs(), atime.subsec_nanos()), (1234, 567800000));
    assert!(e.ctime().is_none());
    assert_eq!(e.mtime(), FileTime::from_secs(1000));
    assert_eq!(e.uname(), Some(&vec![]));
    let mut gnu = tar::Header::new_gnu();
    gnu.as_gnu_mut().unwrap().set_atime(11);
    gnu.set_username("kota").unwrap();
    let mut b = pax(b"19 mtime=1234.5678\n13 gname=ala\n");
    b.extend_from_slice(finished(gnu, "t", 0).as_bytes());
    let e = first_entry(&b);
    assert_eq!(e.atime(), Some(FileTime::from_secs(11)));
    let mtime = e.mtime();
    assert_eq!((mtime.secs(), mtime.subsec_nanos()), (1234, 567800000));
    assert_eq!(e.uname(), Some(&b"kota".to_vec()));
    assert_eq!(e.gname(), Some(&b"ala".to_vec()));
}

#[test]
fn long_name_and_long_link() {
    let mut a = long_link(b"the/long/link\0");
    a.extend_from_slice(&long_name(b"the/long/name\0"));
    a.extend_from_slice(&ustar("short", 0));
    let e = first_entry(&a);
    assert_eq!(e.path().unwrap(), "the/long/name");
    assert_eq!(e.link().unwrap(), Some("the/long/link"));
}

#[test]
fn a_name_without_nul_is_kept_whole() {
    let mut a = long_name(b"abc");
    a.extend_from_slice(&ustar("short", 0));
    assert_eq!(first_entry(&a).path().unwrap(), "abc");
}

#[test]
fn what_waited_for_an_entry_is_gone_after_it() {
    let mut a = long_name(b"long\0");
    a.extend_from_slice(&pax(b"12 uid=1000\n"));
    a.extend_from_slice(&ustar("one", 0));
    a.extend_from_slice(&ustar("two", 0));
    let (paths, _, end) = coalesce(&[&a]);
    assert_eq!(paths, vec!["long", "two"]);
    assert_eq!(end, Ok(()));
}

#[test]
fn two_long_names_break_the_format() {
    let mut a = long_name(b"one\0");
    a.extend_from_slice(&long_name(b"two\0"));
    a.extend_from_slice(&ustar("short", 0));
    let (paths, _, end) = coalesce(&[&a]);
    assert!(paths.is_empty());
    assert_eq!(end, Err("format: two long name entries describing the same member".to_string()));
}

#[test]
fn two_long_links_break_the_format() {
    let mut a = long_link(b"one\0");
    a.extend_from_slice(&long_link(b"two\0"));
    let (_, _, end) = coalesce(&[&a]);
    assert_eq!(end, Err("format: two long name entries describing the same member".to_string()));
}

#[test]
fn two_pax_records_break_the_format() {
    let mut a = pax(b"10 path=a\n");
    a.extend_from_slice(&pax(b"10 path=b\n"));
    a.extend_from_slice(&ustar("short", 0));
    let (paths, _, end) = coalesce(&[&a]);
    assert!(paths.is_empty());
    assert_eq!(end, Err("format: two long name entries describing the same member".to_string()));
}

#[test]
fn bad_pax_records_break_the_format() {
    let mut a = pax(b"8 patha\n");
    a.extend_from_slice(&ustar("short", 0));
    let (_, _, end) = coalesce(&[&a]);
    assert_eq!(end, Err("format: pax format".to_string()));
}

#[test]
fn a_record_without_its_entry_is_cut_short() {
    let a = long_name(b"name\0");
    assert_eq!(coalesce(&[&a]).2, Err("eof".to_string()));
    let mut b = pax(b"10 path=a\n");
    b.extend_from_slice(&[0u8; 512]);
    assert_eq!(coalesce(&[&b]).2, Err("eof".to_string()));
}

#[test]
fn empty_headers_between_entries_are_passed_over() {
    let mut a = ustar("one", 3);
    a.extend_from_slice(&padded(b"abc"));
    a.extend_from_slice(&[0u8; 512]);
    a.extend_from_slice(&ustar("two", 0));
    a.extend_from_slice(&[0u8; 1024]);
    let (paths, payload, end) = coalesce(&[&a]);
    assert_eq!(paths, vec!["one", "two"]);
    assert_eq!(payload, b"abc".to_vec());
    assert_eq!(end, Ok(()));
    for size in [1usize, 100, 512, 700] {
        let pieces: Vec<&[u8]> = a.chunks(size).collect();
        assert_eq!(coalesce(&pieces), (paths.clone(), payload.clone(), Ok(())));
    }
}

#[test]
fn upstream_failure_passes_through() {
    let mut stream: EntryStream<&'static str> = decode_tar();
    stream.fail("broken pipe");
    match stream.poll() {
        Err(Error::UpstreamError(e)) => assert_eq!(e, "broken pipe"),
        _ => panic!("no failure"),
    }
    let e: Error<u8> = Error::from(3u8);
    assert!(matches!(e, Error::UpstreamError(3)));
}
