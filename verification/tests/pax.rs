use bytes::BufMut;
use bytes::Bytes;
use bytes::BytesMut;
use tar_async::decode::pax::cut_record;
use tar_async::decode::pax::cut_sep;
use tar_async::decode::pax::parse_number;
use tar_async::decode::pax::parse_size;
use tar_async::decode::pax::parse_time;
use tar_async::decode::pax::ParseError;
use tar_async::decode::pax::PaxAttributes;
use tar_async::decode::pax::PaxDecoder;
use tar_async::decode::time;

fn time_of(t: Option<tar_async::decode::time::FileTime>) -> Option<(u64, u32)> {
    t.map(|t| (t.secs(), t.subsec_nanos()))
}

/// The attributes as plain values, to compare them.
fn plain(a: &PaxAttributes) -> String {
    format!(
        "{:?} {:?} {:?} {:?} {:?} {:?} {:?} {:?} {:?} {:?}",
        a.path,
        a.link_path,
        time_of(a.atime),
        time_of(a.ctime),
        time_of(a.mtime),
        a.uid,
        a.uname,
        a.gid,
        a.gname,
        a.size
    )
}

fn decode(chunks: &[&[u8]]) -> Result<PaxAttributes, ParseError> {
    let mut decoder = PaxDecoder::new();
    for c in chunks {
        decoder.decode(Bytes::from(c.to_vec()))?;
    }
    Ok(decoder.into_attr())
}

#[test]
fn pax_test_parse() {
    let bytes = b"20 path=ala/ma/kota\n30 mtime=1546272612.201798006\n30 atime=1546272612.201798006\n30 ctime=1546272612.20".as_ref();
    let rest_bytes = b"1798006\n".as_ref();

    let mut decoder = PaxDecoder::new();
    decoder.decode(Bytes::from_static(bytes)).unwrap();
    decoder.decode(Bytes::from_static(rest_bytes)).unwrap();
    let attr = decoder.into_attr();
    println!("{:?}", attr);
    assert_eq!(attr.path, Some(b"ala/ma/kota".to_vec()));
    assert_eq!(time_of(attr.mtime), Some((1546272612, 201798006)));
    assert_eq!(time_of(attr.atime), Some((1546272612, 201798006)));
    assert_eq!(time_of(attr.ctime), Some((1546272612, 201798006)));
}

#[test]
fn test_buf() {
    let mut bm = BytesMut::new();
    let kot = Bytes::from(b"ala ma kota\n".as_ref());

    println!("bm.cap={} {}", bm.capacity(), bm.len());
    bm.reserve(kot.len() * 3);
    bm.put(&kot);
    bm.reserve(0);
    bm.put(&kot);
    bm.put(&kot);

    println!("bm.cap={} {}", bm.capacity(), bm.len());
    println!("bm='{}'", std::str::from_utf8(bm.as_ref()).unwrap());
    bm.advance(kot.len() * 2);
    println!("bm.cap={} {}", bm.capacity(), bm.len());
    println!("bm='{}'", std::str::from_utf8(bm.as_ref()).unwrap());
    bm.reserve(kot.len() * 2);
    println!("bm.cap={} {}", bm.capacity(), bm.len());
    println!("bm='{}'", std::str::from_utf8(bm.as_ref()).unwrap());

    bm.put(&kot);
    bm.put(&kot);
    println!("bm.cap={} {}", bm.capacity(), bm.len());
    println!("bm='{}'", std::str::from_utf8(bm.as_ref()).unwrap());
}

#[test]
fn path_record() {
    let a = decode(&[b"20 path=ala/ma/kota\n"]).unwrap();
    assert_eq!(a.path, Some(b"ala/ma/kota".to_vec()));
    assert_eq!(plain(&a), plain(&PaxAttributes { path: Some(b"ala/ma/kota".to_vec()), ..PaxAttributes::default() }));
}

#[test]
fn mtime_record() {
    let a = decode(&[b"30 mtime=1546272612.201798006\n"]).unwrap();
    assert_eq!(time_of(a.mtime), Some((1546272612, 201798006)));
    assert_eq!(a.path, None);
}

#[test]
fn split_at_every_byte_gives_the_same_attributes() {
    let stream = b"20 path=ala/ma/kota\n30 mtime=1546272612.201798006\n30 atime=1546272612.201798006\n";
    assert_eq!(stream.len(), 80);
    let whole = plain(&decode(&[stream]).unwrap());
    for at in 0..=stream.len() {
        assert_eq!(plain(&decode(&[&stream[..at], &stream[at..]]).unwrap()), whole);
    }
    let bytes: Vec<&[u8]> = stream.chunks(1).collect();
    assert_eq!(plain(&decode(&bytes).unwrap()), whole);
}

#[test]
fn record_cut_in_two_is_one_record() {
    let a = decode(&[b"30 ctime=1546272612.20", b"1798006\n"]).unwrap();
    assert_eq!(time_of(a.ctime), Some((1546272612, 201798006)));
}

#[test]
fn every_key_is_taken_in() {
    let a = decode(&[
        b"16 linkpath=a/b\n13 size=1234\n12 uid=1000\n9 gid=+5\n14 uname=kota\n13 gname=ala\n19 comment=ignored\n",
    ])
    .unwrap();
    assert_eq!(a.link_path, Some(b"a/b".to_vec()));
    assert_eq!(a.size, Some(1234));
    assert_eq!(a.uid, Some(1000));
    assert_eq!(a.gid, Some(5));
    assert_eq!(a.uname, Some(b"kota".to_vec()));
    assert_eq!(a.gname, Some(b"ala".to_vec()));
    assert_eq!(a.path, None);
}

#[test]
fn a_later_record_replaces_an_earlier_one() {
    let a = decode(&[b"10 path=a\n10 path=b\n"]).unwrap();
    assert_eq!(a.path, Some(b"b".to_vec()));
}

#[test]
fn invalid_size_char() {
    assert_eq!(parse_size(b"1x"), Err(ParseError::InvalidSizeChar('x')));
    assert_eq!(decode(&[b"2x path=a\n"]).err(), Some(ParseError::InvalidSizeChar('x')));
}

#[test]
fn size_overflow() {
    assert_eq!(parse_size(b"18446744073709551615"), Ok(u64::MAX));
    assert_eq!(parse_size(b"18446744073709551616"), Err(ParseError::Overflow));
    assert_eq!(parse_size(b"99999999999999999999x"), Err(ParseError::Overflow));
    assert_eq!(parse_size(b""), Ok(0));
}

#[test]
fn expected_eol() {
    assert_eq!(decode(&[b"10 path=abc"]).err(), Some(ParseError::ExpectedEol));
    assert_eq!(decode(&[b"1 path=a\n"]).err(), Some(ParseError::ExpectedEol));
    assert_eq!(decode(&[b"0 path=a\n"]).err(), Some(ParseError::ExpectedEol));
    assert_eq!(decode(&[b"2 \n"]).err(), Some(ParseError::ExpectedEol));
}

#[test]
fn expected_eq() {
    assert_eq!(decode(&[b"8 patha\n"]).err(), Some(ParseError::ExpectedEq));
    let mut a = PaxAttributes::default();
    assert_eq!(a.decode_record(b"path"), Err(ParseError::ExpectedEq));
    assert_eq!(a.decode_record(b"path=x=y"), Ok(()));
    assert_eq!(a.path, Some(b"x=y".to_vec()));
}

#[test]
fn expected_utf8() {
    assert_eq!(parse_number(b"12a"), Err(ParseError::ExpectedUtf8));
    assert_eq!(parse_number(b""), Err(ParseError::ExpectedUtf8));
    assert_eq!(parse_number(b"+"), Err(ParseError::ExpectedUtf8));
    assert_eq!(parse_number(b" 1"), Err(ParseError::ExpectedUtf8));
    assert_eq!(parse_number(b"18446744073709551616"), Err(ParseError::ExpectedUtf8));
    assert_eq!(parse_number(b"+42"), Ok(42));
    assert_eq!("+42".parse::<u64>(), Ok(42));
    assert_eq!(decode(&[b"11 uid=abc\n"]).err(), Some(ParseError::ExpectedUtf8));
    assert_eq!(parse_time(&[0x31, 0xff]).err(), Some(ParseError::ExpectedUtf8));
}

#[test]
fn invalid_timestamp() {
    assert_eq!(parse_time(b"1.x").err(), Some(ParseError::InvalidTimestamp));
    assert_eq!(decode(&[b"13 mtime=1.x\n"]).err(), Some(ParseError::InvalidTimestamp));
    assert_eq!(ParseError::from(time::ParseError::Overflow), ParseError::InvalidTimestamp);
}

#[test]
fn an_error_stays() {
    let mut decoder = PaxDecoder::new();
    decoder.decode(Bytes::from_static(b"10 path=a\n8 patha\n")).unwrap_err();
    assert_eq!(decoder.decode(Bytes::from_static(b"10 path=b\n")), Err(ParseError::ExpectedEq));
    assert_eq!(decoder.into_attr().path, Some(b"a".to_vec()));
}

#[test]
fn cut_sep_splits_before_the_separator() {
    assert_eq!(cut_sep(b"ab=cd", b'='), Some((b"ab".as_ref(), b"=cd".as_ref())));
    assert_eq!(cut_sep(b"abcd", b'='), None);
    assert_eq!(cut_sep(b"=", b'='), Some((b"".as_ref(), b"=".as_ref())));
}

#[test]
fn cut_record_waits_for_the_whole_record() {
    assert_eq!(cut_record(b"10 pa"), Ok(None));
    assert_eq!(cut_record(b"10"), Ok(None));
    assert_eq!(cut_record(b""), Ok(None));
    assert_eq!(
        cut_record(b"10 path=a\nrest"),
        Ok(Some((10, b"path=a".as_ref(), b"rest".as_ref())))
    );
}

#[test]
fn records_in_one_chunk() {
    let bytes = b"20 path=ala/ma/kota\n30 mtime=1546272612.201798006\n30 atime=1546272612.201798006\n30 ctime=1546272612.201798006\n".as_ref();
    let mut decoder = tar_async::pax::PaxDecoder::new();
    decoder.decode(Bytes::from_static(bytes)).unwrap();
    let attr = decoder.into_attr();
    assert_eq!(attr.path, Some(b"ala/ma/kota".to_vec()));
    assert_eq!(time_of(attr.ctime), Some((1546272612, 201798006)));
    assert_eq!(time_of(attr.atime), time_of(attr.mtime));
}
