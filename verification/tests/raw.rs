use bytes::Bytes;
use tar_async::decode::header::Header;
use tar_async::decode::raw::decode_tar;
use tar_async::decode::raw::padding_of;
use tar_async::decode::raw::Async;
use tar_async::decode::raw::RawTarItem;
use tar_async::decode::raw::RawTarStream;
use tar_async::Error;

fn ustar(name: &str, size: u64) -> Vec<u8> {
    let mut h = tar::Header::new_ustar();
    h.set_path(name).unwrap();
    h.set_size(size);
    h.set_cksum();
    h.as_bytes().to_vec()
}

fn tiny_archive() -> Vec<u8> {
    let mut a = ustar("a.txt", 5);
    a.extend_from_slice(b"hello");
    a.extend_from_slice(&[7u8; 507]);
    a
}

/// Feeds the chunks one by one, polls the framer dry after each, and ends the input.
fn frame(chunks: &[&[u8]]) -> (Vec<String>, Vec<u8>, Result<(), String>) {
    let mut framer: RawTarStream<()> = decode_tar();
    let mut events = Vec::new();
    let mut payload = Vec::new();
    let mut next = 0;
    loop {
        match framer.poll() {
            Ok(Async::Ready(Some(RawTarItem::Header(h)))) => {
                let t = tar::Header::from_byte_slice(&h.block[..]);
                events.push(format!("header {}", String::from_utf8_lossy(&t.path_bytes())));
            }
            Ok(Async::Ready(Some(RawTarItem::EmptyHeader))) => events.push("empty".to_string()),
            Ok(Async::Ready(Some(RawTarItem::Chunk(b)))) => {
                assert!(!b.is_empty());
                payload.extend_from_slice(&b);
            }
            Ok(Async::Ready(None)) => return (events, payload, Ok(())),
            Ok(Async::NotReady) => {
                if next < chunks.len() {
                    assert!(framer.feed(Bytes::from(chunks[next].to_vec())).is_none());
                    next += 1;
                } else {
                    framer.finish();
                }
            }
            Err(Error::UnexpectedEof) => return (events, payload, Err("eof".to_string())),
            Err(e) => return (events, payload, Err(format!("{:?}", e))),
        }
    }
}

#[test]
fn empty_archive_has_two_empty_headers() {
    let zeros = [0u8; 1024];
    let (events, payload, end) = frame(&[&zeros]);
    assert_eq!(events, vec!["empty", "empty"]);
    assert!(payload.is_empty());
    assert_eq!(end, Ok(()));
}

#[test]
fn single_tiny_file_is_framed() {
    let a = tiny_archive();
    let (events, payload, end) = frame(&[&a]);
    assert_eq!(events, vec!["header a.txt"]);
    assert_eq!(payload, vec![0x68, 0x65, 0x6c, 0x6c, 0x6f]);
    assert_eq!(end, Ok(()));
}

#[test]
fn chunks_straddling_the_header_change_nothing() {
    let a = tiny_archive();
    let whole = frame(&[&a]);
    let cut = frame(&[&a[..200], &a[200..400], &a[400..600], &a[600..]]);
    assert_eq!(whole, cut);
    for at in 0..a.len() {
        assert_eq!(frame(&[&a[..at], &a[at..]]), whole);
    }
}

#[test]
fn byte_by_byte_is_the_same() {
    let mut a = tiny_archive();
    a.extend_from_slice(&ustar("b", 0));
    a.extend_from_slice(&[0u8; 1024]);
    let whole = frame(&[&a]);
    let pieces: Vec<&[u8]> = a.chunks(1).collect();
    assert_eq!(frame(&pieces), whole);
    assert_eq!(whole.0, vec!["header a.txt", "header b", "empty", "empty"]);
}

#[test]
fn truncated_payload_is_unexpected_eof() {
    let mut a = ustar("big", 1000);
    a.extend_from_slice(&[1u8; 300]);
    let (events, payload, end) = frame(&[&a]);
    assert_eq!(events, vec!["header big"]);
    assert_eq!(payload, vec![1u8; 300]);
    assert_eq!(end, Err("eof".to_string()));
}

#[test]
fn truncated_header_is_unexpected_eof() {
    let a = tiny_archive();
    let (events, _, end) = frame(&[&a[..100]]);
    assert!(events.is_empty());
    assert_eq!(end, Err("eof".to_string()));
}

#[test]
fn truncated_padding_is_unexpected_eof() {
    let a = tiny_archive();
    let (_, payload, end) = frame(&[&a[..600]]);
    assert_eq!(payload, b"hello".to_vec());
    assert_eq!(end, Err("eof".to_string()));
}

#[test]
fn malformed_size_is_an_io_error() {
    let mut a = ustar("bad", 0);
    a[124..136].copy_from_slice(b"zzzzzzzzzzz\0");
    let (events, _, end) = frame(&[&a]);
    assert!(events.is_empty());
    assert!(end.unwrap_err().starts_with("IoError"));
}

#[test]
fn upstream_failure_is_reported_when_input_runs_out() {
    let mut framer: RawTarStream<u32> = decode_tar();
    let a = tiny_archive();
    assert!(framer.feed(Bytes::from(a[..512].to_vec())).is_none());
    framer.fail(42);
    assert!(matches!(framer.poll(), Ok(Async::Ready(Some(RawTarItem::Header(_))))));
    assert!(matches!(framer.poll(), Err(Error::UpstreamError(42))));
    assert!(matches!(framer.poll(), Ok(Async::NotReady)));
}

#[test]
fn a_chunk_is_handed_back_while_input_is_at_hand() {
    let mut framer: RawTarStream<()> = decode_tar();
    assert!(framer.feed(Bytes::from(vec![0u8; 10])).is_none());
    let back = framer.feed(Bytes::from(vec![1u8; 3]));
    assert_eq!(back, Some(Bytes::from(vec![1u8; 3])));
    assert!(matches!(framer.poll(), Ok(Async::NotReady)));
    assert!(framer.feed(Bytes::from(vec![1u8; 3])).is_none());
}

#[test]
fn padding_fills_the_last_block() {
    assert_eq!(padding_of(0), 0);
    assert_eq!(padding_of(5), 507);
    assert_eq!(padding_of(512), 0);
    assert_eq!(padding_of(513), 511);
    assert_eq!(padding_of(u64::MAX), 1);
}

#[test]
fn header_block_is_plain_bytes() {
    let h = Header { block: [0u8; 512] };
    assert!(tar_async::decode::raw::is_empty_header(&h));
}
