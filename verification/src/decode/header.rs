//! The 512-byte header block of a tar entry, read through the `tar` crate.
//!
//! The block is held as plain bytes. Each field is read by the `tar` crate:
//! the functions that call it are not verified, and their contracts say what
//! the crate's source shows. The numeric fields, whose encoding takes long to
//! state, are only named.
use std::io;
use tar::EntryType;
use vstd::prelude::*;

verus! {

/// `std::io::Error`, carried through as an opaque value.
#[verifier::external_type_specification]
#[verifier::external_body]
pub struct ExIoError(std::io::Error);

/// `tar::EntryType`, opaque but for [`entry_type_byte`].
#[verifier::external_type_specification]
#[verifier::external_body]
pub struct ExEntryType(EntryType);

/// The size of a header block, and of every block of an archive.
pub const BLOCK_SIZE: usize = 512;

/// One header block.
#[derive(Debug, Clone, Copy)]
pub struct Header {
    pub block: [u8; 512],
}

impl View for Header {
    type V = Seq<u8>;

    open spec fn view(&self) -> Seq<u8> {
        self.block@
    }
}

/// The bytes of `field` before its first NUL, or all of them without one.
pub open spec fn until_nul(field: Seq<u8>) -> Seq<u8> {
    field.take(super::pax::find(field, 0) as int)
}

/// Whether the block carries the magic and the version of the ustar format:
/// `"ustar\0"` and `"00"`.
pub open spec fn is_ustar_spec(block: Seq<u8>) -> bool {
    block.subrange(257, 265) == seq![117u8, 115, 116, 97, 114, 0, 48, 48]
}

/// Whether the block carries the magic and the version of the GNU format:
/// `"ustar "` and `" \0"`.
pub open spec fn is_gnu_spec(block: Seq<u8>) -> bool {
    block.subrange(257, 265) == seq![117u8, 115, 116, 97, 114, 32, 32, 0]
}

/// The byte that stands for the entry's type: the type flag of the block,
/// where the NUL of old archives counts as the `'0'` of a regular file.
pub open spec fn type_byte_spec(block: Seq<u8>) -> u8 {
    if block[156] == 0 {
        48
    } else {
        block[156]
    }
}

/// The path of the entry: its name, after the prefix and a slash where a
/// ustar block has a prefix.
pub open spec fn path_spec(block: Seq<u8>) -> Seq<u8> {
    let name = until_nul(block.subrange(0, 100));
    let prefix = until_nul(block.subrange(345, 500));
    if is_ustar_spec(block) && prefix.len() > 0 {
        prefix + seq![47u8] + name
    } else {
        name
    }
}

/// The link name of the entry, if the block has one.
pub open spec fn link_name_spec(block: Seq<u8>) -> Option<Seq<u8>> {
    if block[157] != 0 {
        Some(until_nul(block.subrange(157, 257)))
    } else {
        None
    }
}

/// The user name of the owner, which only ustar and GNU blocks have.
pub open spec fn username_spec(block: Seq<u8>) -> Option<Seq<u8>> {
    if is_ustar_spec(block) || is_gnu_spec(block) {
        Some(until_nul(block.subrange(265, 297)))
    } else {
        None
    }
}

/// The group name of the owner, which only ustar and GNU blocks have.
pub open spec fn groupname_spec(block: Seq<u8>) -> Option<Seq<u8>> {
    if is_ustar_spec(block) || is_gnu_spec(block) {
        Some(until_nul(block.subrange(297, 329)))
    } else {
        None
    }
}

/// The byte that `EntryType::as_byte` gives for an entry type.
pub uninterp spec fn entry_type_byte(t: EntryType) -> u8;

/// What `tar::Header::entry_size` reads from a block: the number of payload
/// bytes that follow it in the archive, or `None` for a field it rejects.
pub uninterp spec fn tar_entry_size(block: Seq<u8>) -> Option<u64>;

/// What `tar::Header::size` reads from a block: the size of the file, or
/// `None` for a field it rejects.
pub uninterp spec fn tar_size(block: Seq<u8>) -> Option<u64>;

/// What `tar::Header::uid` reads from a block.
pub uninterp spec fn tar_uid(block: Seq<u8>) -> Option<u64>;

/// What `tar::Header::gid` reads from a block.
pub uninterp spec fn tar_gid(block: Seq<u8>) -> Option<u64>;

/// What `tar::Header::mtime` reads from a block.
pub uninterp spec fn tar_mtime(block: Seq<u8>) -> Option<u64>;

/// What `tar::GnuHeader::atime` reads from a GNU block.
pub uninterp spec fn tar_gnu_atime(block: Seq<u8>) -> Option<u64>;

/// What `tar::GnuHeader::ctime` reads from a GNU block.
pub uninterp spec fn tar_gnu_ctime(block: Seq<u8>) -> Option<u64>;

/// Whether a numeric field was read as `expected` says.
pub open spec fn reads_as(r: Result<u64, io::Error>, expected: Option<u64>) -> bool {
    match r {
        Ok(v) => expected == Some(v),
        Err(_) => expected is None,
    }
}

/// `tar::Header::as_ustar`, asked only whether it finds a ustar block: it
/// compares the magic and the version.
#[verifier::external_body]
pub(crate) fn header_is_ustar(h: &Header) -> (r: bool)
    ensures
        r == is_ustar_spec(h@),
{
    tar::Header::from_byte_slice(&h.block[..]).as_ustar().is_some()
}

/// `tar::Header::as_gnu`, asked only whether it finds a GNU block: it
/// compares the magic and the version.
#[verifier::external_body]
pub(crate) fn header_is_gnu(h: &Header) -> (r: bool)
    ensures
        r == is_gnu_spec(h@),
{
    tar::Header::from_byte_slice(&h.block[..]).as_gnu().is_some()
}

/// `tar::Header::entry_type`: the type that the block's type flag stands for.
#[verifier::external_body]
pub(crate) fn header_entry_type(h: &Header) -> (t: EntryType)
    ensures
        entry_type_byte(t) == type_byte_spec(h@),
{
    tar::Header::from_byte_slice(&h.block[..]).entry_type()
}

/// `EntryType::is_gnu_longname` of the block's entry type: true of the type
/// flag `'L'` alone.
#[verifier::external_body]
pub(crate) fn header_is_gnu_longname(h: &Header) -> (r: bool)
    ensures
        r == (type_byte_spec(h@) == 76),
{
    tar::Header::from_byte_slice(&h.block[..]).entry_type().is_gnu_longname()
}

/// `EntryType::is_gnu_longlink` of the block's entry type: true of the type
/// flag `'K'` alone.
#[verifier::external_body]
pub(crate) fn header_is_gnu_longlink(h: &Header) -> (r: bool)
    ensures
        r == (type_byte_spec(h@) == 75),
{
    tar::Header::from_byte_slice(&h.block[..]).entry_type().is_gnu_longlink()
}

/// `EntryType::is_pax_local_extensions` of the block's entry type: true of the
/// type flag `'x'` alone.
#[verifier::external_body]
pub(crate) fn header_is_pax_local_extensions(h: &Header) -> (r: bool)
    ensures
        r == (type_byte_spec(h@) == 120),
{
    tar::Header::from_byte_slice(&h.block[..]).entry_type().is_pax_local_extensions()
}

/// `tar::Header::entry_size`. The result depends on the block alone.
#[verifier::external_body]
pub(crate) fn header_entry_size(h: &Header) -> (r: Result<u64, io::Error>)
    ensures
        reads_as(r, tar_entry_size(h@)),
{
    tar::Header::from_byte_slice(&h.block[..]).entry_size()
}

/// `tar::Header::size`. The result depends on the block alone.
#[verifier::external_body]
pub(crate) fn header_size(h: &Header) -> (r: Result<u64, io::Error>)
    ensures
        reads_as(r, tar_size(h@)),
{
    tar::Header::from_byte_slice(&h.block[..]).size()
}

/// `tar::Header::uid`. The result depends on the block alone.
#[verifier::external_body]
pub(crate) fn header_uid(h: &Header) -> (r: Result<u64, io::Error>)
    ensures
        reads_as(r, tar_uid(h@)),
{
    tar::Header::from_byte_slice(&h.block[..]).uid()
}

/// `tar::Header::gid`. The result depends on the block alone.
#[verifier::external_body]
pub(crate) fn header_gid(h: &Header) -> (r: Result<u64, io::Error>)
    ensures
        reads_as(r, tar_gid(h@)),
{
    tar::Header::from_byte_slice(&h.block[..]).gid()
}

/// `tar::Header::mtime`. The result depends on the block alone.
#[verifier::external_body]
pub(crate) fn header_mtime(h: &Header) -> (r: Result<u64, io::Error>)
    ensures
        reads_as(r, tar_mtime(h@)),
{
    tar::Header::from_byte_slice(&h.block[..]).mtime()
}

/// `tar::GnuHeader::atime` of a GNU block, without the error's text. The
/// result depends on the block alone.
#[verifier::external_body]
pub(crate) fn header_gnu_atime(h: &Header) -> (r: Option<u64>)
    requires
        is_gnu_spec(h@),
    ensures
        r == tar_gnu_atime(h@),
{
    tar::Header::from_byte_slice(&h.block[..]).as_gnu().unwrap().atime().ok()
}

/// `tar::GnuHeader::ctime` of a GNU block, without the error's text. The
/// result depends on the block alone.
#[verifier::external_body]
pub(crate) fn header_gnu_ctime(h: &Header) -> (r: Option<u64>)
    requires
        is_gnu_spec(h@),
    ensures
        r == tar_gnu_ctime(h@),
{
    tar::Header::from_byte_slice(&h.block[..]).as_gnu().unwrap().ctime().ok()
}

/// `tar::Header::path_bytes`, copied out: the name up to its first NUL, led
/// by the prefix and a slash where a ustar block has a prefix.
#[verifier::external_body]
pub(crate) fn header_path_bytes(h: &Header) -> (r: Vec<u8>)
    ensures
        r@ == path_spec(h@),
{
    tar::Header::from_byte_slice(&h.block[..]).path_bytes().into_owned()
}

/// `tar::Header::link_name_bytes`, copied out: the link name up to its first
/// NUL, or `None` where the field starts with a NUL.
#[verifier::external_body]
pub(crate) fn header_link_name_bytes(h: &Header) -> (r: Option<Vec<u8>>)
    ensures
        super::pax::bytes_of(r) == link_name_spec(h@),
{
    tar::Header::from_byte_slice(&h.block[..]).link_name_bytes().map(|b| b.into_owned())
}

/// `tar::Header::username_bytes`, copied out: the user name up to its first
/// NUL, in a ustar or GNU block.
#[verifier::external_body]
pub(crate) fn header_username_bytes(h: &Header) -> (r: Option<Vec<u8>>)
    ensures
        super::pax::bytes_of(r) == username_spec(h@),
{
    tar::Header::from_byte_slice(&h.block[..]).username_bytes().map(|b| b.to_vec())
}

/// `tar::Header::groupname_bytes`, copied out: the group name up to its first
/// NUL, in a ustar or GNU block.
#[verifier::external_body]
pub(crate) fn header_groupname_bytes(h: &Header) -> (r: Option<Vec<u8>>)
    ensures
        super::pax::bytes_of(r) == groupname_spec(h@),
{
    tar::Header::from_byte_slice(&h.block[..]).groupname_bytes().map(|b| b.to_vec())
}

} // verus!
