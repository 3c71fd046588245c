//! The metadata coalescer: folds the records that describe the next entry
//! into that entry.
//!
//! A GNU long name, a GNU long link name and PAX extended attributes each come
//! as an entry of their own, whose payload describes the entry that follows.
//! The coalescer takes them in and hands out one item per real entry, with the
//! metadata in force for it, followed by the pieces of its payload.
use super::buffer::buffer_as_slice;
use super::buffer::buffer_content;
use super::buffer::buffer_try_extend;
use super::buffer::buffer_with_capacity;
use super::buffer::bytes_as_slice;
use super::buffer::bytes_content;
use super::buffer::max_len;
use super::header::entry_type_byte;
use super::header::groupname_spec;
use super::header::header_entry_type;
use super::header::header_gid;
use super::header::header_gnu_atime;
use super::header::header_gnu_ctime;
use super::header::header_groupname_bytes;
use super::header::header_is_gnu;
use super::header::header_is_ustar;
use super::header::header_link_name_bytes;
use super::header::header_mtime;
use super::header::header_path_bytes;
use super::header::header_size;
use super::header::header_uid;
use super::header::header_username_bytes;
use super::header::header_is_gnu_longlink;
use super::header::header_is_gnu_longname;
use super::header::header_is_pax_local_extensions;
use super::header::is_gnu_spec;
use super::header::is_ustar_spec;
use super::header::link_name_spec;
use super::header::path_spec;
use super::header::tar_gid;
use super::header::tar_gnu_atime;
use super::header::tar_gnu_ctime;
use super::header::tar_mtime;
use super::header::tar_size;
use super::header::tar_uid;
use super::header::type_byte_spec;
use super::header::username_spec;
use super::header::Header;
use super::pax::bytes_of;
use super::pax::decode_spec;
use super::pax::no_attributes;
use super::pax::time_of;
use super::pax::Attributes;
use super::pax::PaxAttributes;
use super::pax::PaxDecoder;
use super::raw::lemma_raw_progress;
use super::raw::raw_inv;
use super::raw::raw_outcome;
use super::raw::raw_start;
use super::raw::raw_step;
use super::raw::Async;
use super::raw::Polled;
use super::raw::RawItem;
use super::raw::RawState;
use super::raw::RawTarItem;
use super::raw::RawTarStream;
use super::time::FileTime;
use crate::error::Error;
use crate::error::Fault;
use bytes::Bytes;
use bytes::BytesMut;
use std::fmt::Debug;
use std::io;
use tar::EntryType;
use vstd::prelude::*;
use vstd::slice::slice_subrange;
use vstd::string::StringSliceAdditionalSpecFns;
use vstd::slice::slice_to_vec;

verus! {

/// `std::str::from_utf8`, with its error wrapped as an I/O error: it accepts
/// exactly the well-formed UTF-8, and the text it gives holds the same bytes.
#[verifier::external_body]
pub(crate) fn bytes2path(bytes: &[u8]) -> (r: io::Result<&str>)
    ensures
        match r {
            Ok(text) => vstd::utf8::valid_utf8(bytes@) && text.spec_bytes() == bytes@,
            Err(_) => !vstd::utf8::valid_utf8(bytes@),
        },
{
    std::str::from_utf8(bytes).map_err(|e| io::Error::new(io::ErrorKind::Other, e))
}

/// The metadata of one entry of the archive, with everything taken in that
/// the records before it said of it.
#[derive(Debug)]
pub struct TarEntry {
    entry_type: EntryType,
    path_bytes: Vec<u8>,
    link_bytes: Option<Vec<u8>>,
    atime: Option<FileTime>,
    ctime: Option<FileTime>,
    mtime: FileTime,
    uid: u64,
    uname: Option<Vec<u8>>,
    gid: u64,
    gname: Option<Vec<u8>>,
    size: u64,
}

/// The metadata of an entry as contracts speak of it.
pub ghost struct Metadata {
    /// The byte that stands for the entry's type.
    pub entry_type: u8,
    pub path: Seq<u8>,
    pub link: Option<Seq<u8>>,
    pub atime: Option<(u64, u32)>,
    pub ctime: Option<(u64, u32)>,
    pub mtime: (u64, u32),
    pub uid: u64,
    pub uname: Option<Seq<u8>>,
    pub gid: u64,
    pub gname: Option<Seq<u8>>,
    pub size: u64,
}

impl View for TarEntry {
    type V = Metadata;

    closed spec fn view(&self) -> Metadata {
        Metadata {
            entry_type: entry_type_byte(self.entry_type),
            path: self.path_bytes@,
            link: bytes_of(self.link_bytes),
            atime: time_of(self.atime),
            ctime: time_of(self.ctime),
            mtime: self.mtime@,
            uid: self.uid,
            uname: bytes_of(self.uname),
            gid: self.gid,
            gname: bytes_of(self.gname),
            size: self.size,
        }
    }
}

impl TarEntry {
    /// The type of the entry.
    #[inline]
    pub fn entry_type(&self) -> (r: EntryType)
        ensures
            entry_type_byte(r) == self@.entry_type,
    {
        self.entry_type
    }

    /// The path of the entry as text, or an error where it is not UTF-8.
    #[inline]
    pub fn path(&self) -> (r: io::Result<&str>)
        ensures
            match r {
                Ok(text) => vstd::utf8::valid_utf8(self@.path) && text.spec_bytes() == self@.path,
                Err(_) => !vstd::utf8::valid_utf8(self@.path),
            },
    {
        bytes2path(self.path_bytes.as_slice())
    }

    /// The path that the entry links to as text, if it has one, or an error
    /// where it is not UTF-8.
    #[inline]
    pub fn link(&self) -> (r: io::Result<Option<&str>>)
        ensures
            match self@.link {
                Some(bytes) => match r {
                    Ok(Some(text)) => vstd::utf8::valid_utf8(bytes) && text.spec_bytes() == bytes,
                    Ok(None) => false,
                    Err(_) => !vstd::utf8::valid_utf8(bytes),
                },
                None => r matches Ok(None),
            },
    {
        Ok(
            match self.link_bytes.as_ref() {
                Some(bytes) => Some(bytes2path(bytes.as_slice())?),
                None => None,
            },
        )
    }

    /// The size of the entry's content in bytes.
    #[inline]
    pub fn size(&self) -> (r: u64)
        ensures
            r == self@.size,
    {
        self.size
    }

    /// The owner's user id.
    #[inline]
    pub fn uid(&self) -> (r: u64)
        ensures
            r == self@.uid,
    {
        self.uid
    }

    /// The owner's group id.
    #[inline]
    pub fn gid(&self) -> (r: u64)
        ensures
            r == self@.gid,
    {
        self.gid
    }

    /// The time of the last modification.
    #[inline]
    pub fn mtime(&self) -> (r: FileTime)
        ensures
            r@ == self@.mtime,
    {
        self.mtime
    }

    /// The time of the last access, if it is known.
    #[inline]
    pub fn atime(&self) -> (r: Option<FileTime>)
        ensures
            time_of(r) == self@.atime,
    {
        self.atime
    }

    /// The time of the last change of the metadata, if it is known.
    #[inline]
    pub fn ctime(&self) -> (r: Option<FileTime>)
        ensures
            time_of(r) == self@.ctime,
    {
        self.ctime
    }

    /// The path of the entry as bytes.
    #[inline]
    pub fn path_bytes(&self) -> (r: &[u8])
        ensures
            r@ == self@.path,
    {
        self.path_bytes.as_slice()
    }

    /// The owner's user name, if it is known.
    #[inline]
    pub fn uname(&self) -> (r: Option<&Vec<u8>>)
        ensures
            match r {
                Some(name) => self@.uname == Some(name@),
                None => self@.uname is None,
            },
    {
        self.uname.as_ref()
    }

    /// The owner's group name, if it is known.
    #[inline]
    pub fn gname(&self) -> (r: Option<&Vec<u8>>)
        ensures
            match r {
                Some(name) => self@.gname == Some(name@),
                None => self@.gname is None,
            },
    {
        self.gname.as_ref()
    }
}

/// What a header block says of its entry, as the `tar` crate reads it.
#[derive(Debug)]
pub struct HeaderFields {
    pub entry_type: EntryType,
    pub path: Vec<u8>,
    pub link_name: Option<Vec<u8>>,
    pub size: Result<u64, io::Error>,
    pub uid: Result<u64, io::Error>,
    pub gid: Result<u64, io::Error>,
    pub mtime: Result<u64, io::Error>,
    /// The access time of a GNU block, where it has one that can be read.
    pub atime: Option<u64>,
    /// The change time of a GNU block, where it has one that can be read.
    pub ctime: Option<u64>,
    pub uname: Option<Vec<u8>>,
    pub gname: Option<Vec<u8>>,
}

/// The fields of a header block as contracts speak of them: a number that
/// could not be read is `None`.
pub ghost struct Fields {
    pub entry_type: u8,
    pub path: Seq<u8>,
    pub link_name: Option<Seq<u8>>,
    pub size: Option<u64>,
    pub uid: Option<u64>,
    pub gid: Option<u64>,
    pub mtime: Option<u64>,
    pub atime: Option<u64>,
    pub ctime: Option<u64>,
    pub uname: Option<Seq<u8>>,
    pub gname: Option<Seq<u8>>,
}

/// The number that was read, if it was.
pub open spec fn number_of(r: Result<u64, io::Error>) -> Option<u64> {
    match r {
        Ok(v) => Some(v),
        Err(_) => None,
    }
}

impl View for HeaderFields {
    type V = Fields;

    open spec fn view(&self) -> Fields {
        Fields {
            entry_type: entry_type_byte(self.entry_type),
            path: self.path@,
            link_name: bytes_of(self.link_name),
            size: number_of(self.size),
            uid: number_of(self.uid),
            gid: number_of(self.gid),
            mtime: number_of(self.mtime),
            atime: self.atime,
            ctime: self.ctime,
            uname: bytes_of(self.uname),
            gname: bytes_of(self.gname),
        }
    }
}

/// What a header block says of its entry.
pub open spec fn fields_spec(block: Seq<u8>) -> Fields {
    Fields {
        entry_type: type_byte_spec(block),
        path: path_spec(block),
        link_name: link_name_spec(block),
        size: tar_size(block),
        uid: tar_uid(block),
        gid: tar_gid(block),
        mtime: tar_mtime(block),
        atime: if is_gnu_spec(block) {
            tar_gnu_atime(block)
        } else {
            None
        },
        ctime: if is_gnu_spec(block) {
            tar_gnu_ctime(block)
        } else {
            None
        },
        uname: username_spec(block),
        gname: groupname_spec(block),
    }
}

/// Reads the fields of a header block.
pub fn read_fields(header: &Header) -> (r: HeaderFields)
    ensures
        r@ == fields_spec(header@),
{
    let gnu = header_is_gnu(header);
    HeaderFields {
        entry_type: header_entry_type(header),
        path: header_path_bytes(header),
        link_name: header_link_name_bytes(header),
        size: header_size(header),
        uid: header_uid(header),
        gid: header_gid(header),
        mtime: header_mtime(header),
        atime: if gnu {
            header_gnu_atime(header)
        } else {
            None
        },
        ctime: if gnu {
            header_gnu_ctime(header)
        } else {
            None
        },
        uname: header_username_bytes(header),
        gname: header_groupname_bytes(header),
    }
}

/// The first of two optional values that is there.
pub open spec fn or_else<T>(first: Option<T>, second: Option<T>) -> Option<T> {
    match first {
        Some(_) => first,
        None => second,
    }
}

/// A time at the start of a second, if the second is known.
pub open spec fn whole_second(secs: Option<u64>) -> Option<(u64, u32)> {
    match secs {
        Some(s) => Some((s, 0u32)),
        None => None,
    }
}

/// The metadata of an entry: for each field the PAX attribute where there is
/// one, else the GNU long name or long link name where the field is the path
/// or the link, else what the header block says.
///
/// `None` where the block's size cannot be read, or where its user id, group
/// id or modification time cannot be read and no PAX attribute stands in.
pub open spec fn resolve_spec(
    fields: Fields,
    long_name: Option<Seq<u8>>,
    long_link: Option<Seq<u8>>,
    pax: Attributes,
) -> Option<Metadata> {
    let uid = or_else(pax.uid, fields.uid);
    let gid = or_else(pax.gid, fields.gid);
    let mtime = or_else(pax.mtime, whole_second(fields.mtime));
    if fields.size is None || uid is None || gid is None || mtime is None {
        None
    } else {
        Some(
            Metadata {
                entry_type: fields.entry_type,
                path: or_else(pax.path, or_else(long_name, Some(fields.path))).unwrap(),
                link: or_else(pax.link_path, or_else(long_link, fields.link_name)),
                atime: or_else(pax.atime, whole_second(fields.atime)),
                ctime: or_else(pax.ctime, whole_second(fields.ctime)),
                mtime: mtime.unwrap(),
                uid: uid.unwrap(),
                uname: or_else(pax.uname, fields.uname),
                gid: gid.unwrap(),
                gname: or_else(pax.gname, fields.gname),
                size: or_else(pax.size, fields.size).unwrap(),
            },
        )
    }
}

/// The time at the start of a second, if the second is known.
fn from_secs(secs: Option<u64>) -> (r: Option<FileTime>)
    ensures
        time_of(r) == whole_second(secs),
{
    match secs {
        Some(s) => Some(FileTime::from_secs(s)),
        None => None,
    }
}

/// Builds the metadata of an entry from its header block's fields and from
/// what the records before it said: a GNU long name, a GNU long link name and
/// PAX attributes, each of which goes before the block's own field.
pub fn resolve(
    fields: HeaderFields,
    long_name: Option<Vec<u8>>,
    long_link: Option<Vec<u8>>,
    pax: PaxAttributes,
) -> (r: Result<TarEntry, io::Error>)
    ensures
        match r {
            Ok(entry) => resolve_spec(fields@, bytes_of(long_name), bytes_of(long_link), pax@)
                == Some(entry@),
            Err(_) => resolve_spec(fields@, bytes_of(long_name), bytes_of(long_link), pax@)
                is None,
        },
{
    let path_bytes = match pax.path {
        Some(p) => p,
        None => match long_name {
            Some(p) => p,
            None => fields.path,
        },
    };
    let link_bytes = match pax.link_path {
        Some(p) => Some(p),
        None => match long_link {
            Some(p) => Some(p),
            None => fields.link_name,
        },
    };
    let header_size = fields.size?;
    let size = match pax.size {
        Some(size) => size,
        None => header_size,
    };
    let uid = match pax.uid {
        Some(uid) => uid,
        None => fields.uid?,
    };
    let gid = match pax.gid {
        Some(gid) => gid,
        None => fields.gid?,
    };
    let mtime = match pax.mtime {
        Some(mtime) => mtime,
        None => FileTime::from_secs(fields.mtime?),
    };
    let atime = match pax.atime {
        Some(t) => Some(t),
        None => from_secs(fields.atime),
    };
    let ctime = match pax.ctime {
        Some(t) => Some(t),
        None => from_secs(fields.ctime),
    };
    let uname = match pax.uname {
        Some(n) => Some(n),
        None => fields.uname,
    };
    let gname = match pax.gname {
        Some(n) => Some(n),
        None => fields.gname,
    };
    Ok(
        TarEntry {
            entry_type: fields.entry_type,
            path_bytes,
            link_bytes,
            size,
            gid,
            uid,
            mtime,
            ctime,
            atime,
            uname,
            gname,
        },
    )
}

/// One item of the coalesced archive.
#[derive(Debug)]
pub enum TarItem {
    /// The next entry, with its metadata.
    Entry(TarEntry),
    /// A piece of the payload of the entry that came last.
    Chunk(Bytes),
}

/// A coalesced item as contracts speak of it.
pub ghost enum FlatItem {
    Entry(Metadata),
    Chunk(Seq<u8>),
}

impl View for TarItem {
    type V = FlatItem;

    open spec fn view(&self) -> FlatItem {
        match *self {
            TarItem::Entry(e) => FlatItem::Entry(e@),
            TarItem::Chunk(b) => FlatItem::Chunk(bytes_content(b)),
        }
    }
}

/// A poll's answer as a [`Polled`] value.
pub open spec fn flat_outcome<E: Debug + Sync + Send + 'static>(
    r: Result<Async<Option<TarItem>>, Error<E>>,
) -> Polled<FlatItem, E> {
    match r {
        Ok(Async::Ready(Some(item))) => Polled::Item(item@),
        Ok(Async::Ready(None)) => Polled::End,
        Ok(Async::NotReady) => Polled::NotReady,
        Err(e) => Polled::Failed(e@),
    }
}

/// What the coalescer is in the middle of.
pub ghost enum Mode {
    /// Nothing: the next header starts an entry or a record.
    Clean,
    /// A GNU long name, of which these bytes have come.
    InGnuLongName(Seq<u8>),
    /// A GNU long link name, of which these bytes have come.
    InGnuLongLink(Seq<u8>),
    /// PAX records, decoded as far as they have come.
    InPaxExtensions { attributes: Attributes, pending: Seq<u8> },
}

/// The state of a coalescer.
pub ghost struct FlatState<E> {
    /// The framer below.
    pub raw: RawState<E>,
    pub mode: Mode,
    /// The GNU long name that waits for its entry.
    pub long_name: Option<Seq<u8>>,
    /// The GNU long link name that waits for its entry.
    pub long_link: Option<Seq<u8>>,
    /// The PAX attributes that wait for their entry.
    pub pax: Option<Attributes>,
}

/// The state of a coalescer that has seen nothing.
pub open spec fn flat_start<E>() -> FlatState<E> {
    FlatState { raw: raw_start(), mode: Mode::Clean, long_name: None, long_link: None, pax: None }
}

/// The error text for a second record of a kind before one entry.
pub open spec fn twice_text() -> Seq<char> {
    "two long name entries describing the same member"@
}

/// The error text for PAX records that cannot be decoded.
pub open spec fn pax_text() -> Seq<char> {
    "pax format"@
}

/// The error text for a name that outgrows what a buffer can hold.
pub open spec fn too_large_text() -> Seq<char> {
    "long name too large"@
}

/// A GNU name as it was stored: without the NUL that ends it.
pub open spec fn trim_nul(name: Seq<u8>) -> Seq<u8> {
    if name.len() > 0 && name.last() == 0 {
        name.drop_last()
    } else {
        name
    }
}

/// The record that was being taken in is complete: it now waits for its entry.
pub open spec fn commit<E>(s: FlatState<E>) -> FlatState<E> {
    match s.mode {
        Mode::Clean => s,
        Mode::InGnuLongName(name) => FlatState {
            mode: Mode::Clean,
            long_name: Some(trim_nul(name)),
            ..s
        },
        Mode::InGnuLongLink(name) => FlatState {
            mode: Mode::Clean,
            long_link: Some(trim_nul(name)),
            ..s
        },
        Mode::InPaxExtensions { attributes, pending } => FlatState {
            mode: Mode::Clean,
            pax: Some(attributes),
            ..s
        },
    }
}

/// What the coalescer makes of one answer of the framer.
pub ghost enum Turn<E> {
    /// Nothing to hand out yet: the framer is polled again.
    Continue(FlatState<E>),
    /// The answer to the poll.
    Done(FlatState<E>, Polled<FlatItem, E>),
}

/// The PAX attributes that wait for an entry, or none.
pub open spec fn pending_pax(pax: Option<Attributes>) -> Attributes {
    match pax {
        Some(a) => a,
        None => no_attributes(),
    }
}

/// What the coalescer makes of a header block, with nothing in the making.
///
/// A GNU block of type `'L'` or `'K'` starts a long name or a long link name,
/// a ustar block of type `'x'` starts PAX records; a second one of its kind
/// before the entry is an error. Any other block is an entry: it takes what
/// waits for it, and nothing is left waiting.
pub open spec fn header_turn<E>(s: FlatState<E>, block: Seq<u8>) -> Turn<E> {
    let fields = fields_spec(block);
    let fresh = FlatState { long_name: None, long_link: None, pax: None, ..s };
    if is_gnu_spec(block) && (fields.entry_type == 76 || fields.entry_type == 75) {
        if fields.entry_type == 76 && s.long_name is Some {
            Turn::Done(s, Polled::Failed(Fault::Format(twice_text())))
        } else if fields.entry_type == 75 && s.long_link is Some {
            Turn::Done(s, Polled::Failed(Fault::Format(twice_text())))
        } else {
            match fields.size {
                None => Turn::Done(s, Polled::Failed(Fault::Io)),
                Some(size) => if size > max_len() {
                    Turn::Done(s, Polled::Failed(Fault::Format(too_large_text())))
                } else if fields.entry_type == 76 {
                    Turn::Continue(FlatState { mode: Mode::InGnuLongName(Seq::empty()), ..s })
                } else {
                    Turn::Continue(FlatState { mode: Mode::InGnuLongLink(Seq::empty()), ..s })
                },
            }
        }
    } else if is_ustar_spec(block) && fields.entry_type == 120 {
        if s.pax is Some {
            Turn::Done(s, Polled::Failed(Fault::Format(twice_text())))
        } else {
            Turn::Continue(
                FlatState {
                    mode: Mode::InPaxExtensions {
                        attributes: no_attributes(),
                        pending: Seq::empty(),
                    },
                    ..s
                },
            )
        }
    } else {
        match resolve_spec(fields, s.long_name, s.long_link, pending_pax(s.pax)) {
            Some(entry) => Turn::Done(fresh, Polled::Item(FlatItem::Entry(entry))),
            None => Turn::Done(fresh, Polled::Failed(Fault::Io)),
        }
    }
}

/// What the coalescer makes of a piece of payload.
///
/// With nothing in the making it belongs to the entry that came last and is
/// handed on. Else it belongs to the record in the making and is taken in.
pub open spec fn chunk_turn<E>(s: FlatState<E>, chunk: Seq<u8>) -> Turn<E> {
    match s.mode {
        Mode::Clean => Turn::Done(s, Polled::Item(FlatItem::Chunk(chunk))),
        Mode::InGnuLongName(name) => if name.len() + chunk.len() > max_len() {
            Turn::Done(s, Polled::Failed(Fault::Format(too_large_text())))
        } else {
            Turn::Continue(FlatState { mode: Mode::InGnuLongName(name + chunk), ..s })
        },
        Mode::InGnuLongLink(name) => if name.len() + chunk.len() > max_len() {
            Turn::Done(s, Polled::Failed(Fault::Format(too_large_text())))
        } else {
            Turn::Continue(FlatState { mode: Mode::InGnuLongLink(name + chunk), ..s })
        },
        Mode::InPaxExtensions { attributes, pending } => if pending.len() + chunk.len()
            > max_len() {
            Turn::Done(s, Polled::Failed(Fault::Format(pax_text())))
        } else {
            let p = decode_spec(attributes, pending + chunk);
            let next = FlatState {
                mode: Mode::InPaxExtensions { attributes: p.attributes, pending: p.pending },
                ..s
            };
            if p.error is Some {
                Turn::Done(next, Polled::Failed(Fault::Format(pax_text())))
            } else {
                Turn::Continue(next)
            }
        },
    }
}

/// What the coalescer makes of one answer of the framer. In `s` the framer
/// has given the answer already.
///
/// A record in the making ends with the next header block. An empty block or
/// the end of the archive in its place is an error.
pub open spec fn flat_turn<E>(s: FlatState<E>, answer: Polled<RawItem, E>) -> Turn<E> {
    match answer {
        Polled::NotReady => Turn::Done(s, Polled::NotReady),
        Polled::Failed(f) => Turn::Done(s, Polled::Failed(f)),
        Polled::End => if s.mode is Clean {
            Turn::Done(s, Polled::End)
        } else {
            Turn::Done(s, Polled::Failed(Fault::UnexpectedEof))
        },
        Polled::Item(RawItem::EmptyHeader) => if s.mode is Clean {
            Turn::Continue(s)
        } else {
            Turn::Done(s, Polled::Failed(Fault::UnexpectedEof))
        },
        Polled::Item(RawItem::Chunk(chunk)) => chunk_turn(s, chunk),
        Polled::Item(RawItem::Header(block)) => header_turn(commit(s), block),
    }
}

/// One poll of the coalescer: the state after it and what it answers. The
/// framer is polled until an answer of it is one for the caller.
pub open spec fn flat_step<E>(s: FlatState<E>) -> (FlatState<E>, Polled<FlatItem, E>)
    decreases s.raw.tail.len(),
{
    let polled = raw_step(s.raw);
    match flat_turn(FlatState { raw: polled.0, ..s }, polled.1) {
        Turn::Done(next, answer) => (next, answer),
        Turn::Continue(next) => if next.raw.tail.len() < s.raw.tail.len() {
            flat_step(next)
        } else {
            (next, Polled::NotReady)
        },
    }
}

/// Copies a GNU name out of its buffer, without the NUL that ends it.
pub(crate) fn gnu_str_buffer2vec(buf: &[u8]) -> (r: Vec<u8>)
    ensures
        r@ == trim_nul(buf@),
{
    let n = buf.len();
    if n > 0 && buf[n - 1] == 0 {
        let kept = slice_subrange(buf, 0, n - 1);
        assert(kept@ =~= buf@.drop_last());
        slice_to_vec(kept)
    } else {
        slice_to_vec(buf)
    }
}

/// What the coalescer is in the middle of.
enum State {
    Clean,
    InGnuLongName(BytesMut),
    InGnuLongLink(BytesMut),
    InPaxExtensions(PaxDecoder),
}

impl State {
    spec fn mode(self) -> Mode {
        match self {
            State::Clean => Mode::Clean,
            State::InGnuLongName(buf) => Mode::InGnuLongName(buffer_content(buf)),
            State::InGnuLongLink(buf) => Mode::InGnuLongLink(buffer_content(buf)),
            State::InPaxExtensions(decoder) => Mode::InPaxExtensions {
                attributes: decoder.attributes(),
                pending: decoder.pending(),
            },
        }
    }

    spec fn wf(self) -> bool {
        match self {
            State::InPaxExtensions(decoder) => decoder.wf(),
            _ => true,
        }
    }

    /// Hands out the state and leaves `Clean` in its place.
    #[inline]
    fn take(&mut self) -> (r: State)
        ensures
            r == *old(self),
            *final(self) == State::Clean,
    {
        let mut state = State::Clean;
        std::mem::swap(self, &mut state);
        state
    }
}

/// The coalescer, on top of the framer that it polls.
pub struct EntryStream<E> {
    upstream: RawTarStream<E>,
    state: State,
    gnu_long_name: Option<Vec<u8>>,
    gnu_long_link: Option<Vec<u8>>,
    pax_extensions: Option<PaxAttributes>,
}

/// The value of optional PAX attributes.
pub open spec fn attributes_of(o: Option<PaxAttributes>) -> Option<Attributes> {
    match o {
        Some(a) => Some(a@),
        None => None,
    }
}

impl<E: Debug + Sync + Send + 'static> View for EntryStream<E> {
    type V = FlatState<E>;

    closed spec fn view(&self) -> FlatState<E> {
        FlatState {
            raw: self.upstream@,
            mode: self.state.mode(),
            long_name: bytes_of(self.gnu_long_name),
            long_link: bytes_of(self.gnu_long_link),
            pax: attributes_of(self.pax_extensions),
        }
    }
}

impl<E: Debug + Sync + Send + 'static> EntryStream<E> {
    /// The coalescer's invariant: that of its framer and of its PAX decoder.
    pub closed spec fn wf(&self) -> bool {
        self.upstream.wf() && self.state.wf()
    }

    /// The invariant as it shows in the state.
    pub proof fn lemma_wf(&self)
        requires
            self.wf(),
        ensures
            raw_inv(self@.raw),
    {
        self.upstream.lemma_wf();
    }

    /// A coalescer on top of `upstream`, with nothing in the making.
    fn new(upstream: RawTarStream<E>) -> (r: Self)
        requires
            upstream.wf(),
        ensures
            r.wf(),
            r@ == (FlatState { raw: upstream@, ..flat_start::<E>() }),
    {
        EntryStream {
            upstream,
            state: State::Clean,
            gnu_long_name: None,
            gnu_long_link: None,
            pax_extensions: None,
        }
    }

    /// Offers the next chunk of the archive to the framer, which hands it
    /// back where it still has input at hand.
    pub fn feed(&mut self, chunk: Bytes) -> (r: Option<Bytes>)
        requires
            old(self).wf(),
        ensures
            final(self).wf(),
            old(self)@.raw.tail.len() == 0 ==> r is None && final(self)@ == (FlatState {
                raw: RawState { tail: bytes_content(chunk), ..old(self)@.raw },
                ..old(self)@
            }),
            old(self)@.raw.tail.len() > 0 ==> r == Some(chunk) && final(self)@ == old(self)@,
    {
        self.upstream.feed(chunk)
    }

    /// Says that the input has ended.
    pub fn finish(&mut self)
        requires
            old(self).wf(),
        ensures
            final(self).wf(),
            final(self)@ == (FlatState {
                raw: RawState { ended: true, ..old(self)@.raw },
                ..old(self)@
            }),
    {
        self.upstream.finish()
    }

    /// Says that the byte source failed.
    pub fn fail(&mut self, failure: E)
        requires
            old(self).wf(),
        ensures
            final(self).wf(),
            final(self)@ == (FlatState {
                raw: RawState { failure: Some(failure), ..old(self)@.raw },
                ..old(self)@
            }),
    {
        self.upstream.fail(failure)
    }

    /// Lets the record in the making wait for its entry.
    fn commit(&mut self)
        requires
            old(self).wf(),
        ensures
            final(self).wf(),
            final(self)@ == commit(old(self)@),
    {
        match self.state.take() {
            State::Clean => {},
            State::InGnuLongName(buf) => {
                self.gnu_long_name = Some(gnu_str_buffer2vec(buffer_as_slice(&buf)));
            },
            State::InGnuLongLink(buf) => {
                self.gnu_long_link = Some(gnu_str_buffer2vec(buffer_as_slice(&buf)));
            },
            State::InPaxExtensions(decoder) => {
                self.pax_extensions = Some(decoder.into_attr());
            },
        }
    }

    /// Takes in a header block: starts the record that it announces, or
    /// builds the entry that it describes. Returns `None` where the framer
    /// has to be polled again.
    fn poll_next_header(&mut self, header: Header) -> (r: Option<
        Result<Async<Option<TarItem>>, Error<E>>,
    >)
        requires
            old(self).wf(),
        ensures
            final(self).wf(),
            match header_turn(commit(old(self)@), header@) {
                Turn::Continue(next) => r is None && final(self)@ == next,
                Turn::Done(next, answer) => r is Some && final(self)@ == next && flat_outcome(
                    r.unwrap(),
                ) == answer,
            },
    {
        self.commit();
        let fields = read_fields(&header);
        let gnu = header_is_gnu(&header);
        let longname = header_is_gnu_longname(&header);
        let longlink = header_is_gnu_longlink(&header);
        if gnu && (longname || longlink) {
            if longname && self.gnu_long_name.is_some() {
                return Some(Err(Error::Format("two long name entries describing the same member")));
            }
            if longlink && self.gnu_long_link.is_some() {
                return Some(Err(Error::Format("two long name entries describing the same member")));
            }
            let size = match fields.size {
                Ok(size) => size,
                Err(e) => {
                    return Some(Err(Error::IoError(e)));
                },
            };
            if size > (isize::MAX as u64) {
                return Some(Err(Error::Format("long name too large")));
            }
            let buffer = buffer_with_capacity(size as usize);
            if longname {
                self.state = State::InGnuLongName(buffer);
            } else {
                self.state = State::InGnuLongLink(buffer);
            }
            return None;
        }
        if header_is_ustar(&header) && header_is_pax_local_extensions(&header) {
            if self.pax_extensions.is_some() {
                return Some(Err(Error::Format("two long name entries describing the same member")));
            }
            self.state = State::InPaxExtensions(PaxDecoder::new());
            return None;
        }
        let pax = match self.pax_extensions.take() {
            Some(pax) => pax,
            None => PaxAttributes::default(),
        };
        let long_name = self.gnu_long_name.take();
        let long_link = self.gnu_long_link.take();
        match resolve(fields, long_name, long_link, pax) {
            Ok(entry) => Some(Ok(Async::Ready(Some(TarItem::Entry(entry))))),
            Err(e) => Some(Err(Error::IoError(e))),
        }
    }

    /// Takes in a piece of payload: hands it on, or adds it to the record in
    /// the making. Returns `None` where the framer has to be polled again.
    fn poll_data(&mut self, bytes: Bytes) -> (r: Option<Result<Async<Option<TarItem>>, Error<E>>>)
        requires
            old(self).wf(),
        ensures
            final(self).wf(),
            match chunk_turn(old(self)@, bytes_content(bytes)) {
                Turn::Continue(next) => r is None && final(self)@ == next,
                Turn::Done(next, answer) => r is Some && final(self)@ == next && flat_outcome(
                    r.unwrap(),
                ) == answer,
            },
    {
        match self.state.take() {
            State::Clean => Some(Ok(Async::Ready(Some(TarItem::Chunk(bytes))))),
            State::InGnuLongName(mut buf) => {
                let done = buffer_try_extend(&mut buf, bytes_as_slice(&bytes));
                self.state = State::InGnuLongName(buf);
                if done {
                    None
                } else {
                    Some(Err(Error::Format("long name too large")))
                }
            },
            State::InGnuLongLink(mut buf) => {
                let done = buffer_try_extend(&mut buf, bytes_as_slice(&bytes));
                self.state = State::InGnuLongLink(buf);
                if done {
                    None
                } else {
                    Some(Err(Error::Format("long name too large")))
                }
            },
            State::InPaxExtensions(mut decoder) => {
                let decoded = decoder.decode(bytes);
                self.state = State::InPaxExtensions(decoder);
                match decoded {
                    Ok(()) => None,
                    Err(_) => Some(Err(Error::Format("pax format"))),
                }
            },
        }
    }

    /// Makes of one answer of the framer the answer to the poll, or `None`
    /// where the framer has to be polled again.
    fn turn(&mut self, polled: Result<Async<Option<RawTarItem>>, Error<E>>) -> (r: Option<
        Result<Async<Option<TarItem>>, Error<E>>,
    >)
        requires
            old(self).wf(),
        ensures
            final(self).wf(),
            final(self)@.raw == old(self)@.raw,
            match flat_turn(old(self)@, raw_outcome(polled)) {
                Turn::Continue(next) => r is None && final(self)@ == next,
                Turn::Done(next, answer) => r is Some && final(self)@ == next && flat_outcome(
                    r.unwrap(),
                ) == answer,
            },
    {
        let clean = match self.state {
            State::Clean => true,
            _ => false,
        };
        match polled {
            Err(e) => Some(Err(e)),
            Ok(Async::NotReady) => Some(Ok(Async::NotReady)),
            Ok(Async::Ready(None)) => if clean {
                Some(Ok(Async::Ready(None)))
            } else {
                Some(Err(Error::UnexpectedEof))
            },
            Ok(Async::Ready(Some(RawTarItem::EmptyHeader))) => if clean {
                None
            } else {
                Some(Err(Error::UnexpectedEof))
            },
            Ok(Async::Ready(Some(RawTarItem::Chunk(bytes)))) => self.poll_data(bytes),
            Ok(Async::Ready(Some(RawTarItem::Header(header)))) => self.poll_next_header(header),
        }
    }

    /// Polls for the next item: an entry, or a piece of the payload of the
    /// entry that came last.
    pub fn poll(&mut self) -> (r: Result<Async<Option<TarItem>>, Error<E>>)
        requires
            old(self).wf(),
        ensures
            final(self).wf(),
            (final(self)@, flat_outcome(r)) == flat_step(old(self)@),
    {
        loop
            invariant
                self.wf(),
                flat_step(self@) == flat_step(old(self)@),
            decreases self@.raw.tail.len(),
        {
            proof {
                self.lemma_wf();
                lemma_raw_progress(self@.raw);
            }
            let ghost before = self@;
            let polled = self.upstream.poll();
            assert(self@ == (FlatState { raw: raw_step(before.raw).0, ..before }));
            match self.turn(polled) {
                Some(answer) => {
                    return answer;
                },
                None => {},
            }
        }
    }
}

/// A coalescer for an archive that is yet to be fed.
pub fn decode_tar<E: Debug + Sync + Send + 'static>() -> (r: EntryStream<E>)
    ensures
        r.wf(),
        r@ == flat_start::<E>(),
{
    EntryStream::new(super::raw::decode_tar())
}

/// What the coalescer makes of an answer leaves the framer as it is.
pub proof fn lemma_turn_keeps_raw<E>(s: FlatState<E>, answer: Polled<RawItem, E>)
    ensures
        match flat_turn(s, answer) {
            Turn::Continue(next) => next.raw == s.raw && answer is Item,
            Turn::Done(next, given) => next.raw == s.raw && (given is Item ==> answer is Item),
        },
{
}

/// A poll keeps what holds of every framer, and one that answers with an item
/// has used up some of the input at hand.
pub proof fn lemma_flat_progress<E>(s: FlatState<E>)
    requires
        raw_inv(s.raw),
    ensures
        raw_inv(flat_step(s).0.raw),
        flat_step(s).0.raw.tail.len() <= s.raw.tail.len(),
        flat_step(s).1 is Item ==> flat_step(s).0.raw.tail.len() < s.raw.tail.len(),
    decreases s.raw.tail.len(),
{
    let polled = raw_step(s.raw);
    lemma_raw_progress(s.raw);
    lemma_turn_keeps_raw(FlatState { raw: polled.0, ..s }, polled.1);
    match flat_turn(FlatState { raw: polled.0, ..s }, polled.1) {
        Turn::Done(next, answer) => {},
        Turn::Continue(next) => {
            lemma_flat_progress(next);
        },
    }
}

/// A PAX attribute goes before everything else that is said of its field: the
/// entry has the attribute's value whatever the GNU records and the header
/// block say.
pub proof fn lemma_pax_goes_first(
    fields: Fields,
    long_name: Option<Seq<u8>>,
    long_link: Option<Seq<u8>>,
    pax: Attributes,
)
    requires
        resolve_spec(fields, long_name, long_link, pax) is Some,
    ensures
        ({
            let entry = resolve_spec(fields, long_name, long_link, pax).unwrap();
            &&& pax.path matches Some(path) ==> entry.path == path
            &&& pax.link_path matches Some(link) ==> entry.link == Some(link)
            &&& pax.size matches Some(size) ==> entry.size == size
            &&& pax.uid matches Some(uid) ==> entry.uid == uid
            &&& pax.gid matches Some(gid) ==> entry.gid == gid
            &&& pax.uname matches Some(uname) ==> entry.uname == Some(uname)
            &&& pax.gname matches Some(gname) ==> entry.gname == Some(gname)
            &&& pax.mtime matches Some(mtime) ==> entry.mtime == mtime
            &&& pax.atime matches Some(atime) ==> entry.atime == Some(atime)
            &&& pax.ctime matches Some(ctime) ==> entry.ctime == Some(ctime)
        }),
{
}

/// Without a PAX attribute, a GNU long name or long link name goes before the
/// header block's own; without either, the block's own field stands.
pub proof fn lemma_gnu_goes_second(
    fields: Fields,
    long_name: Option<Seq<u8>>,
    long_link: Option<Seq<u8>>,
    pax: Attributes,
)
    requires
        resolve_spec(fields, long_name, long_link, pax) is Some,
    ensures
        ({
            let entry = resolve_spec(fields, long_name, long_link, pax).unwrap();
            &&& entry.entry_type == fields.entry_type
            &&& pax.path is None ==> entry.path == match long_name {
                Some(name) => name,
                None => fields.path,
            }
            &&& pax.link_path is None ==> entry.link == match long_link {
                Some(link) => Some(link),
                None => fields.link_name,
            }
        }),
{
}

/// A poll goes on until the framer's answer is one for the caller: with the
/// framer in order, it never stops short of that.
pub proof fn lemma_flat_step<E>(s: FlatState<E>)
    requires
        raw_inv(s.raw),
    ensures
        flat_step(s) == match flat_turn(
            FlatState { raw: raw_step(s.raw).0, ..s },
            raw_step(s.raw).1,
        ) {
            Turn::Done(next, answer) => (next, answer),
            Turn::Continue(next) => flat_step(next),
        },
{
    let polled = raw_step(s.raw);
    lemma_raw_progress(s.raw);
    lemma_turn_keeps_raw(FlatState { raw: polled.0, ..s }, polled.1);
}

} // verus!
