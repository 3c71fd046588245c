//! Extended attributes in the PAX format: records of the form
//! `"<length> <key>=<value>\n"`, where the decimal length counts the whole
//! record. Records follow one another without separators and may arrive in
//! pieces cut at any byte.
use super::buffer::buffer_advance;
use super::buffer::buffer_as_slice;
use super::buffer::buffer_content;
use super::buffer::buffer_try_extend;
use super::buffer::buffer_with_capacity;
use super::buffer::bytes_as_slice;
use super::buffer::bytes_content;
use super::buffer::max_len;
use super::time;
use super::time::decimal_value;
use super::time::is_digit;
use super::time::leading_digits;
use super::time::FileTime;
use bytes::Bytes;
use bytes::BytesMut;
use vstd::prelude::*;
use vstd::slice::slice_subrange;
use vstd::slice::slice_to_vec;

verus! {

/// Why a run of PAX records could not be decoded.
#[derive(Debug, PartialEq, Eq, Clone, Copy)]
pub enum ParseError {
    /// The length prefix of a record holds something other than a digit.
    InvalidSizeChar(char),
    /// A length does not fit: a record's length prefix in 64 bits, or the
    /// pending bytes in the buffer.
    Overflow,
    /// The record does not end in a newline where its length says it ends.
    ExpectedEol,
    /// The record holds no `=`.
    ExpectedEq,
    /// A number is not written as decimal text, or a timestamp is not UTF-8.
    ExpectedUtf8,
    /// A timestamp is not written as seconds with an optional fraction.
    InvalidTimestamp,
}

impl From<time::ParseError> for ParseError {
    fn from(e: time::ParseError) -> (r: Self)
        ensures
            r == ParseError::InvalidTimestamp,
    {
        ParseError::InvalidTimestamp
    }
}

impl vstd::std_specs::convert::FromSpecImpl<time::ParseError> for ParseError {
    open spec fn obeys_from_spec() -> bool {
        true
    }

    open spec fn from_spec(e: time::ParseError) -> Self {
        ParseError::InvalidTimestamp
    }
}

/// The attributes that PAX records can set. An attribute that no record named
/// is `None`.
#[derive(Debug)]
pub struct PaxAttributes {
    pub path: Option<Vec<u8>>,
    pub link_path: Option<Vec<u8>>,
    pub atime: Option<FileTime>,
    pub ctime: Option<FileTime>,
    pub mtime: Option<FileTime>,
    pub uid: Option<u64>,
    pub uname: Option<Vec<u8>>,
    pub gid: Option<u64>,
    pub gname: Option<Vec<u8>>,
    pub size: Option<u64>,
}

/// The attributes as mathematical values: byte strings as sequences, times as
/// pairs of seconds and nanoseconds.
pub ghost struct Attributes {
    pub path: Option<Seq<u8>>,
    pub link_path: Option<Seq<u8>>,
    pub atime: Option<(u64, u32)>,
    pub ctime: Option<(u64, u32)>,
    pub mtime: Option<(u64, u32)>,
    pub uid: Option<u64>,
    pub uname: Option<Seq<u8>>,
    pub gid: Option<u64>,
    pub gname: Option<Seq<u8>>,
    pub size: Option<u64>,
}

/// The content of an optional byte string.
pub open spec fn bytes_of(o: Option<Vec<u8>>) -> Option<Seq<u8>> {
    match o {
        Some(v) => Some(v@),
        None => None,
    }
}

/// The value of an optional time.
pub open spec fn time_of(o: Option<FileTime>) -> Option<(u64, u32)> {
    match o {
        Some(t) => Some(t@),
        None => None,
    }
}

impl View for PaxAttributes {
    type V = Attributes;

    open spec fn view(&self) -> Attributes {
        Attributes {
            path: bytes_of(self.path),
            link_path: bytes_of(self.link_path),
            atime: time_of(self.atime),
            ctime: time_of(self.ctime),
            mtime: time_of(self.mtime),
            uid: self.uid,
            uname: bytes_of(self.uname),
            gid: self.gid,
            gname: bytes_of(self.gname),
            size: self.size,
        }
    }
}

/// The attributes of which none is set.
pub open spec fn no_attributes() -> Attributes {
    Attributes {
        path: None,
        link_path: None,
        atime: None,
        ctime: None,
        mtime: None,
        uid: None,
        uname: None,
        gid: None,
        gname: None,
        size: None,
    }
}

impl Default for PaxAttributes {
    fn default() -> (r: Self)
        ensures
            r@ == no_attributes(),
    {
        PaxAttributes {
            path: None,
            link_path: None,
            atime: None,
            ctime: None,
            mtime: None,
            uid: None,
            uname: None,
            gid: None,
            gname: None,
            size: None,
        }
    }
}

/// The index of the first `sep` in `s`, or the length of `s` where it holds none.
pub open spec fn find(s: Seq<u8>, sep: u8) -> nat
    decreases s.len(),
{
    if s.len() == 0 || s[0] == sep {
        0
    } else {
        1 + find(s.drop_first(), sep)
    }
}

/// What `find` returns: no `sep` before it, and `sep` at it unless it is the end.
pub proof fn lemma_find(s: Seq<u8>, sep: u8)
    ensures
        find(s, sep) <= s.len(),
        find(s, sep) < s.len() ==> s[find(s, sep) as int] == sep,
        forall|j: int| 0 <= j < find(s, sep) ==> #[trigger] s[j] != sep,
    decreases s.len(),
{
    if s.len() > 0 && s[0] != sep {
        let t = s.drop_first();
        lemma_find(t, sep);
        assert forall|j: int| 0 <= j < find(s, sep) implies #[trigger] s[j] != sep by {
            if j > 0 {
                assert(t[j - 1] == s[j]);
            }
        }
    }
}

/// An index with `sep` at it and none before it is what `find` returns.
pub proof fn lemma_find_is(s: Seq<u8>, sep: u8, k: int)
    requires
        0 <= k <= s.len(),
        k < s.len() ==> s[k] == sep,
        forall|j: int| 0 <= j < k ==> #[trigger] s[j] != sep,
    ensures
        find(s, sep) == k,
{
    lemma_find(s, sep);
    let f = find(s, sep) as int;
    if f < k {
        assert(s[f] != sep);
    }
}

/// Splits `bytes` before the first `sep`, which then leads the second part.
/// Returns `None` where `bytes` holds no `sep`.
pub fn cut_sep(bytes: &[u8], sep: u8) -> (r: Option<(&[u8], &[u8])>)
    ensures
        match r {
            Some((head, tail)) => {
                &&& find(bytes@, sep) < bytes@.len()
                &&& head@ == bytes@.take(find(bytes@, sep) as int)
                &&& tail@ == bytes@.skip(find(bytes@, sep) as int)
            },
            None => find(bytes@, sep) == bytes@.len(),
        },
{
    let mut i: usize = 0;
    while i < bytes.len()
        invariant
            i <= bytes.len(),
            forall|j: int| 0 <= j < i ==> #[trigger] bytes@[j] != sep,
        decreases bytes.len() - i,
    {
        if bytes[i] == sep {
            proof {
                lemma_find_is(bytes@, sep, i as int);
            }
            let head = slice_subrange(bytes, 0, i);
            let tail = slice_subrange(bytes, i, bytes.len());
            assert(head@ =~= bytes@.take(i as int));
            assert(tail@ =~= bytes@.skip(i as int));
            return Some((head, tail));
        }
        i += 1;
    }
    proof {
        lemma_find_is(bytes@, sep, i as int);
    }
    None
}

/// The number that a length prefix denotes.
///
/// The prefix is read from the left: a number that outgrows 64 bits is an
/// overflow, and so it is reported even where a byte that is no digit follows.
pub open spec fn size_spec(prefix: Seq<u8>) -> Result<u64, ParseError> {
    let digits = prefix.take(leading_digits(prefix) as int);
    if decimal_value(digits) > u64::MAX {
        Err(ParseError::Overflow)
    } else if leading_digits(prefix) < prefix.len() {
        Err(ParseError::InvalidSizeChar(prefix[leading_digits(prefix) as int] as char))
    } else {
        Ok(decimal_value(digits) as u64)
    }
}

/// Reads the decimal length that leads a record.
pub fn parse_size(bytes: &[u8]) -> (r: Result<u64, ParseError>)
    ensures
        r == size_spec(bytes@),
{
    let mut val: u64 = 0;
    let mut i: usize = 0;
    while i < bytes.len()
        invariant
            i <= bytes.len(),
            forall|j: int| 0 <= j < i ==> is_digit(#[trigger] bytes@[j]),
            val == decimal_value(bytes@.take(i as int)),
        decreases bytes.len() - i,
    {
        let b = bytes[i];
        proof {
            time::lemma_leading_digits_step(bytes@, i as int);
            time::lemma_leading_digits_bound(bytes@);
        }
        if !(b >= 48 && b <= 57) {
            proof {
                assert(bytes@.take(leading_digits(bytes@) as int) =~= bytes@.take(i as int));
            }
            return Err(ParseError::InvalidSizeChar(b as char));
        }
        proof {
            let digits = bytes@.take(leading_digits(bytes@) as int);
            assert(bytes@.take(i + 1).drop_last() =~= bytes@.take(i as int));
            assert(digits.take(i + 1) =~= bytes@.take(i + 1));
            assert forall|j: int| 0 <= j < digits.len() implies is_digit(#[trigger] digits[j]) by {
                time::lemma_leading_digits_run(bytes@, j);
            }
            time::lemma_decimal_value_grows(digits, i + 1);
            assert(decimal_value(bytes@.take(i + 1)) == 10 * val + (b - 48));
        }
        let shifted = match val.checked_mul(10) {
            Some(v) => v,
            None => {
                return Err(ParseError::Overflow);
            },
        };
        val = match shifted.checked_add((b - 48) as u64) {
            Some(v) => v,
            None => {
                return Err(ParseError::Overflow);
            },
        };
        i += 1;
    }
    proof {
        time::lemma_leading_digits_all(bytes@);
        assert(bytes@.take(bytes@.len() as int) =~= bytes@);
    }
    Ok(val)
}

/// Where the first record of `buf` ends: `Ok(Some(len))` for a whole record of
/// `len` bytes, `Ok(None)` while more bytes have to arrive.
///
/// A record is awaited until a space ends its length prefix and as many bytes
/// as the prefix says are there. Its last byte must be a newline, which also
/// rules out a length too short to hold the space and the newline.
pub open spec fn record_spec(buf: Seq<u8>) -> Result<Option<nat>, ParseError> {
    let k = find(buf, 32);
    if k == buf.len() {
        Ok(None)
    } else {
        match size_spec(buf.take(k as int)) {
            Err(e) => Err(e),
            Ok(len) => if len > buf.len() {
                Ok(None)
            } else if len < k + 2 || buf[len - 1] != 10 {
                Err(ParseError::ExpectedEol)
            } else {
                Ok(Some(len as nat))
            },
        }
    }
}

/// The `key=value` part of the first record of `buf`, which is `len` bytes long.
pub open spec fn record_body(buf: Seq<u8>, len: nat) -> Seq<u8> {
    buf.subrange(find(buf, 32) as int + 1, len as int - 1)
}

/// Cuts the first record off `bytes`: returns its length, its `key=value`
/// part and what follows it, or `None` while the record is incomplete.
pub fn cut_record(bytes: &[u8]) -> (r: Result<Option<(usize, &[u8], &[u8])>, ParseError>)
    ensures
        match r {
            Ok(Some((len, record, tail))) => {
                &&& record_spec(bytes@) == Ok::<Option<nat>, ParseError>(Some(len as nat))
                &&& record@ == record_body(bytes@, len as nat)
                &&& tail@ == bytes@.skip(len as int)
            },
            Ok(None) => record_spec(bytes@) == Ok::<Option<nat>, ParseError>(None),
            Err(e) => record_spec(bytes@) == Err::<Option<nat>, ParseError>(e),
        },
{
    let (size_bytes, _tail_bytes) = match cut_sep(bytes, 32) {
        Some(v) => v,
        None => {
            return Ok(None);
        },
    };
    let k = size_bytes.len();
    let record_size = match parse_size(size_bytes) {
        Ok(v) => v,
        Err(e) => {
            return Err(e);
        },
    };
    if record_size > bytes.len() as u64 {
        return Ok(None);
    }
    let len = record_size as usize;
    if len < 2 || len - 2 < k || bytes[len - 1] != 10 {
        return Err(ParseError::ExpectedEol);
    }
    let record = slice_subrange(bytes, k + 1, len - 1);
    let tail = slice_subrange(bytes, len, bytes.len());
    assert(tail@ =~= bytes@.skip(len as int));
    Ok(Some((len, record, tail)))
}

/// The number that decimal text denotes: digits, after an optional `+`.
/// `None` where the text is anything else or the number outgrows 64 bits.
pub open spec fn number_spec(text: Seq<u8>) -> Option<u64> {
    let digits = if text.len() > 0 && text[0] == 43 {
        text.skip(1)
    } else {
        text
    };
    if digits.len() > 0 && leading_digits(digits) == digits.len() && decimal_value(digits)
        <= u64::MAX {
        Some(decimal_value(digits) as u64)
    } else {
        None
    }
}

/// Reads a number written as decimal text.
pub fn parse_number(bytes: &[u8]) -> (r: Result<u64, ParseError>)
    ensures
        match number_spec(bytes@) {
            Some(n) => r == Ok::<u64, ParseError>(n),
            None => r == Err::<u64, ParseError>(ParseError::ExpectedUtf8),
        },
{
    let digits = if bytes.len() > 0 && bytes[0] == 43 {
        slice_subrange(bytes, 1, bytes.len())
    } else {
        bytes
    };
    assert(digits@ =~= if bytes@.len() > 0 && bytes@[0] == 43 {
        bytes@.skip(1)
    } else {
        bytes@
    });
    if digits.len() == 0 {
        return Err(ParseError::ExpectedUtf8);
    }
    proof {
        time::lemma_leading_digits_bound(digits@);
        assert(digits@.take(digits@.len() as int) =~= digits@);
    }
    match parse_size(digits) {
        Ok(n) => Ok(n),
        Err(_) => {
            proof {
                if leading_digits(digits@) == digits@.len() {
                    assert(decimal_value(digits@) > u64::MAX);
                }
            }
            Err(ParseError::ExpectedUtf8)
        },
    }
}

/// `std::str::from_utf8`, asked only whether it accepts: it does exactly where
/// the bytes are well-formed UTF-8.
#[verifier::external_body]
fn is_utf8(bytes: &[u8]) -> (r: bool)
    ensures
        r == vstd::utf8::valid_utf8(bytes@),
{
    std::str::from_utf8(bytes).is_ok()
}

/// The time that the text of a timestamp denotes.
pub open spec fn time_spec(text: Seq<u8>) -> Result<(u64, u32), ParseError> {
    if !vstd::utf8::valid_utf8(text) {
        Err(ParseError::ExpectedUtf8)
    } else {
        match time::parse_spec(text) {
            Ok(t) => Ok(t),
            Err(_) => Err(ParseError::InvalidTimestamp),
        }
    }
}

/// Reads a timestamp written as text.
pub fn parse_time(bytes: &[u8]) -> (r: Result<FileTime, ParseError>)
    ensures
        match r {
            Ok(t) => time_spec(bytes@) == Ok::<(u64, u32), ParseError>(t@),
            Err(e) => time_spec(bytes@) == Err::<(u64, u32), ParseError>(e),
        },
{
    if !is_utf8(bytes) {
        return Err(ParseError::ExpectedUtf8);
    }
    match time::parse_from(bytes) {
        Ok(t) => Ok(t),
        Err(e) => Err(ParseError::from(e)),
    }
}

/// The keys that are understood, as ASCII text.
pub open spec fn key_path() -> Seq<u8> {
    seq![112u8, 97, 116, 104]
}

pub open spec fn key_linkpath() -> Seq<u8> {
    seq![108u8, 105, 110, 107, 112, 97, 116, 104]
}

pub open spec fn key_mtime() -> Seq<u8> {
    seq![109u8, 116, 105, 109, 101]
}

pub open spec fn key_ctime() -> Seq<u8> {
    seq![99u8, 116, 105, 109, 101]
}

pub open spec fn key_atime() -> Seq<u8> {
    seq![97u8, 116, 105, 109, 101]
}

pub open spec fn key_size() -> Seq<u8> {
    seq![115u8, 105, 122, 101]
}

pub open spec fn key_uid() -> Seq<u8> {
    seq![117u8, 105, 100]
}

pub open spec fn key_gid() -> Seq<u8> {
    seq![103u8, 105, 100]
}

pub open spec fn key_uname() -> Seq<u8> {
    seq![117u8, 110, 97, 109, 101]
}

pub open spec fn key_gname() -> Seq<u8> {
    seq![103u8, 110, 97, 109, 101]
}

/// A number read from a record, as `number_spec` with the record's error.
pub open spec fn number_field(text: Seq<u8>) -> Result<u64, ParseError> {
    match number_spec(text) {
        Some(n) => Ok(n),
        None => Err(ParseError::ExpectedUtf8),
    }
}

/// The attributes after one more record, whose `key=value` part is `record`.
///
/// The key ends at the first `=`. A key that is not understood changes
/// nothing; a value that cannot be read leaves the attributes as they were.
pub open spec fn apply_spec(a: Attributes, record: Seq<u8>) -> Result<Attributes, ParseError> {
    let p = find(record, 61);
    let key = record.take(p as int);
    let val = record.skip(p as int + 1);
    if p == record.len() {
        Err(ParseError::ExpectedEq)
    } else if key == key_path() {
        Ok(Attributes { path: Some(val), ..a })
    } else if key == key_linkpath() {
        Ok(Attributes { link_path: Some(val), ..a })
    } else if key == key_mtime() {
        match time_spec(val) {
            Ok(t) => Ok(Attributes { mtime: Some(t), ..a }),
            Err(e) => Err(e),
        }
    } else if key == key_ctime() {
        match time_spec(val) {
            Ok(t) => Ok(Attributes { ctime: Some(t), ..a }),
            Err(e) => Err(e),
        }
    } else if key == key_atime() {
        match time_spec(val) {
            Ok(t) => Ok(Attributes { atime: Some(t), ..a }),
            Err(e) => Err(e),
        }
    } else if key == key_size() {
        match number_field(val) {
            Ok(n) => Ok(Attributes { size: Some(n), ..a }),
            Err(e) => Err(e),
        }
    } else if key == key_uid() {
        match number_field(val) {
            Ok(n) => Ok(Attributes { uid: Some(n), ..a }),
            Err(e) => Err(e),
        }
    } else if key == key_gid() {
        match number_field(val) {
            Ok(n) => Ok(Attributes { gid: Some(n), ..a }),
            Err(e) => Err(e),
        }
    } else if key == key_uname() {
        Ok(Attributes { uname: Some(val), ..a })
    } else if key == key_gname() {
        Ok(Attributes { gname: Some(val), ..a })
    } else {
        Ok(a)
    }
}

/// Whether two byte strings are the same.
fn same_bytes(a: &[u8], b: &[u8]) -> (r: bool)
    ensures
        r == (a@ == b@),
{
    if a.len() != b.len() {
        return false;
    }
    let mut i: usize = 0;
    while i < a.len()
        invariant
            a.len() == b.len(),
            i <= a.len(),
            forall|j: int| 0 <= j < i ==> a@[j] == b@[j],
        decreases a.len() - i,
    {
        if a[i] != b[i] {
            return false;
        }
        i += 1;
    }
    assert(a@ =~= b@);
    true
}

impl PaxAttributes {
    /// Takes one record, given by its `key=value` part, into the attributes.
    pub fn decode_record(&mut self, record: &[u8]) -> (r: Result<(), ParseError>)
        ensures
            match apply_spec(old(self)@, record@) {
                Ok(a) => r is Ok && final(self)@ == a,
                Err(e) => r == Err::<(), ParseError>(e) && *final(self) == *old(self),
            },
    {
        let (key, rest) = match cut_sep(record, 61) {
            Some(v) => v,
            None => {
                return Err(ParseError::ExpectedEq);
            },
        };
        let val = slice_subrange(rest, 1, rest.len());
        assert(val@ =~= record@.skip(find(record@, 61) as int + 1));
        let path: [u8; 4] = [112, 97, 116, 104];
        let linkpath: [u8; 8] = [108, 105, 110, 107, 112, 97, 116, 104];
        let mtime: [u8; 5] = [109, 116, 105, 109, 101];
        let ctime: [u8; 5] = [99, 116, 105, 109, 101];
        let atime: [u8; 5] = [97, 116, 105, 109, 101];
        let size: [u8; 4] = [115, 105, 122, 101];
        let uid: [u8; 3] = [117, 105, 100];
        let gid: [u8; 3] = [103, 105, 100];
        let uname: [u8; 5] = [117, 110, 97, 109, 101];
        let gname: [u8; 5] = [103, 110, 97, 109, 101];
        proof {
            assert(path@ =~= key_path());
            assert(linkpath@ =~= key_linkpath());
            assert(mtime@ =~= key_mtime());
            assert(ctime@ =~= key_ctime());
            assert(atime@ =~= key_atime());
            assert(size@ =~= key_size());
            assert(uid@ =~= key_uid());
            assert(gid@ =~= key_gid());
            assert(uname@ =~= key_uname());
            assert(gname@ =~= key_gname());
        }
        if same_bytes(key, path.as_slice()) {
            self.path = Some(slice_to_vec(val));
        } else if same_bytes(key, linkpath.as_slice()) {
            self.link_path = Some(slice_to_vec(val));
        } else if same_bytes(key, mtime.as_slice()) {
            self.mtime = Some(parse_time(val)?);
        } else if same_bytes(key, ctime.as_slice()) {
            self.ctime = Some(parse_time(val)?);
        } else if same_bytes(key, atime.as_slice()) {
            self.atime = Some(parse_time(val)?);
        } else if same_bytes(key, size.as_slice()) {
            self.size = Some(parse_number(val)?);
        } else if same_bytes(key, uid.as_slice()) {
            self.uid = Some(parse_number(val)?);
        } else if same_bytes(key, gid.as_slice()) {
            self.gid = Some(parse_number(val)?);
        } else if same_bytes(key, uname.as_slice()) {
            self.uname = Some(slice_to_vec(val));
        } else if same_bytes(key, gname.as_slice()) {
            self.gname = Some(slice_to_vec(val));
        }
        Ok(())
    }
}

/// How far a run of records has been decoded.
pub ghost struct Progress {
    /// The attributes that the whole records so far have set.
    pub attributes: Attributes,
    /// The bytes that no whole record has covered yet.
    pub pending: Seq<u8>,
    /// The error that stopped the decoding, if any: it lies at the front of `pending`.
    pub error: Option<ParseError>,
}

/// Decodes the whole records at the front of `buf`, one after the other,
/// starting from the attributes `a`.
pub open spec fn decode_spec(a: Attributes, buf: Seq<u8>) -> Progress
    decreases buf.len(),
{
    match record_spec(buf) {
        Err(e) => Progress { attributes: a, pending: buf, error: Some(e) },
        Ok(None) => Progress { attributes: a, pending: buf, error: None },
        Ok(Some(len)) => match apply_spec(a, record_body(buf, len)) {
            Err(e) => Progress { attributes: a, pending: buf, error: Some(e) },
            Ok(next) => if 0 < len <= buf.len() {
                decode_spec(next, buf.skip(len as int))
            } else {
                Progress { attributes: a, pending: buf, error: None }
            },
        },
    }
}

/// A whole record is at least two bytes long and lies within the buffer.
pub proof fn lemma_record_bounds(buf: Seq<u8>)
    ensures
        match record_spec(buf) {
            Ok(Some(len)) => 2 <= len <= buf.len() && find(buf, 32) + 2 <= len,
            _ => true,
        },
{
    lemma_find(buf, 32);
}

/// Decodes the whole records at the front of `buf` into `attributes`.
/// Returns how many bytes they take, and the error that stopped it, if any.
fn decode_records(attributes: &mut PaxAttributes, buf: &[u8]) -> (r: (usize, Result<(), ParseError>))
    ensures
        r.0 <= buf@.len(),
        final(attributes)@ == decode_spec(old(attributes)@, buf@).attributes,
        buf@.skip(r.0 as int) == decode_spec(old(attributes)@, buf@).pending,
        match decode_spec(old(attributes)@, buf@).error {
            Some(e) => r.1 == Err::<(), ParseError>(e),
            None => r.1 is Ok,
        },
{
    let ghost start = attributes@;
    let total = buf.len();
    let mut adv: usize = 0;
    let mut bb = buf;
    assert(buf@.skip(0) =~= buf@);
    loop
        invariant
            total == buf@.len(),
            adv <= buf@.len(),
            start == old(attributes)@,
            bb@ == buf@.skip(adv as int),
            decode_spec(start, buf@) == decode_spec(attributes@, bb@),
        decreases bb@.len(),
    {
        proof {
            lemma_record_bounds(bb@);
        }
        match cut_record(bb) {
            Err(e) => {
                return (adv, Err(e));
            },
            Ok(None) => {
                return (adv, Ok(()));
            },
            Ok(Some((n, record, b))) => {
                match attributes.decode_record(record) {
                    Err(e) => {
                        return (adv, Err(e));
                    },
                    Ok(()) => {
                        assert(record_spec(bb@) == Ok::<Option<nat>, ParseError>(Some(n as nat)));
                        assert(n <= bb@.len());
                        assert(bb@.len() == buf@.len() - adv);
                        assert(buf@.skip(adv + n) =~= buf@.skip(adv as int).skip(n as int));
                        adv += n;
                        bb = b;
                    },
                }
            },
        }
    }
}

/// Decodes PAX records from bytes that arrive in pieces.
#[derive(Debug)]
pub struct PaxDecoder {
    attributes: PaxAttributes,
    buffer: BytesMut,
    adv: usize,
}

impl PaxDecoder {
    /// The decoder's invariant: its cursor lies within its buffer.
    pub closed spec fn wf(&self) -> bool {
        self.adv <= buffer_content(self.buffer).len()
    }

    /// The attributes that the records decoded so far have set.
    pub closed spec fn attributes(&self) -> Attributes {
        self.attributes@
    }

    /// The bytes received that no whole record has covered yet.
    pub closed spec fn pending(&self) -> Seq<u8> {
        buffer_content(self.buffer).skip(self.adv as int)
    }

    /// A decoder that has seen no bytes.
    pub fn new() -> (r: Self)
        ensures
            r.wf(),
            r.attributes() == no_attributes(),
            r.pending() == Seq::<u8>::empty(),
    {
        PaxDecoder { attributes: PaxAttributes::default(), buffer: buffer_with_capacity(1024), adv: 0 }
    }

    /// Takes the next piece of the records and decodes every record that is
    /// now whole.
    ///
    /// An error leaves the failing record pending, so that every later call
    /// fails on it again. Bytes are refused as an overflow where the pending
    /// bytes would outgrow the buffer.
    pub fn decode(&mut self, bytes: Bytes) -> (r: Result<(), ParseError>)
        requires
            old(self).wf(),
        ensures
            final(self).wf(),
            old(self).pending().len() + bytes_content(bytes).len() > max_len() ==> {
                &&& r == Err::<(), ParseError>(ParseError::Overflow)
                &&& final(self).attributes() == old(self).attributes()
                &&& final(self).pending() == old(self).pending()
            },
            old(self).pending().len() + bytes_content(bytes).len() <= max_len() ==> {
                let p = decode_spec(old(self).attributes(), old(self).pending() + bytes_content(bytes));
                &&& final(self).attributes() == p.attributes
                &&& final(self).pending() == p.pending
                &&& match p.error {
                    Some(e) => r == Err::<(), ParseError>(e),
                    None => r is Ok,
                }
            },
    {
        let adv = self.adv;
        self.adv = 0;
        buffer_advance(&mut self.buffer, adv);
        if !buffer_try_extend(&mut self.buffer, bytes_as_slice(&bytes)) {
            return Err(ParseError::Overflow);
        }
        let consumed = decode_records(&mut self.attributes, buffer_as_slice(&self.buffer));
        self.adv = consumed.0;
        consumed.1
    }

    /// Ends the decoding and hands out the attributes. Bytes still pending
    /// are dropped.
    pub fn into_attr(self) -> (r: PaxAttributes)
        ensures
            r@ == self.attributes(),
    {
        self.attributes
    }
}

/// The first record of a buffer stays what it is when more bytes follow it.
pub proof fn lemma_record_prefix(x: Seq<u8>, y: Seq<u8>)
    ensures
        match record_spec(x) {
            Ok(Some(len)) => {
                &&& record_spec(x + y) == record_spec(x)
                &&& record_body(x + y, len) == record_body(x, len)
                &&& len <= x.len()
                &&& (x + y).skip(len as int) == x.skip(len as int) + y
            },
            _ => true,
        },
{
    lemma_find(x, 32);
    let k = find(x, 32) as int;
    if k < x.len() {
        assert forall|j: int| 0 <= j < k implies #[trigger] (x + y)[j] != 32 by {
            assert((x + y)[j] == x[j]);
        }
        lemma_find_is(x + y, 32, k);
        assert((x + y).take(k) =~= x.take(k));
        match record_spec(x) {
            Ok(Some(len)) => {
                assert((x + y)[len - 1] == x[len - 1]);
                assert(record_body(x + y, len) =~= record_body(x, len));
                assert((x + y).skip(len as int) =~= x.skip(len as int) + y);
            },
            _ => {},
        }
    }
}

/// Where a buffer is cut makes no difference: decoding `x`, and then what is
/// pending of it together with `y`, decodes `x + y`.
pub proof fn lemma_decode_split(a: Attributes, x: Seq<u8>, y: Seq<u8>)
    ensures
        decode_spec(a, x + y) == decode_spec(
            decode_spec(a, x).attributes,
            decode_spec(a, x).pending + y,
        ),
    decreases x.len(),
{
    match record_spec(x) {
        Ok(Some(len)) => {
            lemma_record_prefix(x, y);
            lemma_record_bounds(x);
            match apply_spec(a, record_body(x, len)) {
                Ok(next) => {
                    lemma_decode_split(next, x.skip(len as int), y);
                },
                Err(_) => {},
            }
        },
        _ => {},
    }
}

/// What a decoder holds after it was fed `chunks` one by one, starting with
/// the attributes and the pending bytes of `p`.
pub open spec fn feed_spec(p: Progress, chunks: Seq<Seq<u8>>) -> Progress
    decreases chunks.len(),
{
    if chunks.len() == 0 {
        p
    } else {
        feed_spec(decode_spec(p.attributes, p.pending + chunks.first()), chunks.drop_first())
    }
}

/// Records decode alike however they are cut into chunks: feeding the chunks
/// one by one gives the attributes, the pending bytes and the error that
/// feeding all their bytes at once gives.
pub proof fn lemma_feed_is_decode(a: Attributes, buf: Seq<u8>, chunks: Seq<Seq<u8>>)
    ensures
        feed_spec(decode_spec(a, buf), chunks) == decode_spec(a, buf + chunks.flatten()),
    decreases chunks.len(),
{
    if chunks.len() == 0 {
        assert(buf + chunks.flatten() =~= buf);
    } else {
        let c = chunks.first();
        lemma_decode_split(a, buf, c);
        lemma_feed_is_decode(a, buf + c, chunks.drop_first());
        assert(buf + chunks.flatten() =~= (buf + c) + chunks.drop_first().flatten());
    }
}

/// Two ways of cutting the same bytes into chunks leave a new decoder with the
/// same attributes, the same pending bytes and the same error.
pub proof fn lemma_cut_is_invisible(first: Seq<Seq<u8>>, second: Seq<Seq<u8>>)
    requires
        first.flatten() == second.flatten(),
    ensures
        feed_spec(decode_spec(no_attributes(), Seq::empty()), first) == feed_spec(
            decode_spec(no_attributes(), Seq::empty()),
            second,
        ),
{
    lemma_feed_is_decode(no_attributes(), Seq::empty(), first);
    lemma_feed_is_decode(no_attributes(), Seq::empty(), second);
}

/// An error stays: where decoding `x` stops on an error, decoding `x + y`
/// stops on the same error, with the same attributes.
pub proof fn lemma_error_persists(a: Attributes, x: Seq<u8>, y: Seq<u8>)
    requires
        decode_spec(a, x).error is Some,
    ensures
        decode_spec(a, x + y).error == decode_spec(a, x).error,
        decode_spec(a, x + y).attributes == decode_spec(a, x).attributes,
    decreases x.len(),
{
    lemma_find(x, 32);
    let k = find(x, 32) as int;
    assert(k < x.len());
    assert forall|j: int| 0 <= j < k implies #[trigger] (x + y)[j] != 32 by {
        assert((x + y)[j] == x[j]);
    }
    lemma_find_is(x + y, 32, k);
    assert((x + y).take(k) =~= x.take(k));
    match record_spec(x) {
        Ok(Some(len)) => {
            lemma_record_prefix(x, y);
            lemma_record_bounds(x);
            match apply_spec(a, record_body(x, len)) {
                Ok(next) => {
                    lemma_error_persists(next, x.skip(len as int), y);
                },
                Err(_) => {},
            }
        },
        Ok(None) => {},
        Err(_) => {
            match size_spec(x.take(k)) {
                Ok(len) => {
                    assert(len <= x.len());
                    if len >= 1 {
                        assert((x + y)[len - 1] == x[len - 1]);
                    }
                },
                Err(_) => {},
            }
        },
    }
}

/// What is left pending is no longer than what was to decode.
pub proof fn lemma_pending_bound(a: Attributes, buf: Seq<u8>)
    ensures
        decode_spec(a, buf).pending.len() <= buf.len(),
    decreases buf.len(),
{
    match record_spec(buf) {
        Ok(Some(len)) => {
            lemma_record_bounds(buf);
            match apply_spec(a, record_body(buf, len)) {
                Ok(next) => {
                    lemma_pending_bound(next, buf.skip(len as int));
                },
                Err(_) => {},
            }
        },
        _ => {},
    }
}

} // verus!
