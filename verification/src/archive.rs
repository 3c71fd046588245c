//! The archive as entries with their paths and sizes, and with the PAX
//! records that describe an entry handed out as they stand.
//!
//! GNU long names and long link names are folded into the entry that follows
//! them, as in [`crate::decode::flat`]. PAX records are gathered and not
//! decoded: the entry carries their bytes.
use crate::decode::buffer::buffer_as_slice;
use crate::decode::buffer::buffer_content;
use crate::decode::buffer::buffer_try_extend;
use crate::decode::buffer::buffer_with_capacity;
use crate::decode::buffer::bytes_as_slice;
use crate::decode::buffer::bytes_content;
use crate::decode::buffer::max_len;
use crate::decode::flat::bytes2path;
use crate::decode::flat::gnu_str_buffer2vec;
use crate::decode::flat::or_else;
use crate::decode::flat::too_large_text;
use crate::decode::flat::trim_nul;
use crate::decode::flat::twice_text;
use crate::decode::header::header_is_gnu;
use crate::decode::header::header_is_gnu_longlink;
use crate::decode::header::header_is_gnu_longname;
use crate::decode::header::header_is_pax_local_extensions;
use crate::decode::header::header_is_ustar;
use crate::decode::header::header_link_name_bytes;
use crate::decode::header::header_path_bytes;
use crate::decode::header::header_size;
use crate::decode::header::is_gnu_spec;
use crate::decode::header::is_ustar_spec;
use crate::decode::header::link_name_spec;
use crate::decode::header::path_spec;
use crate::decode::header::tar_size;
use crate::decode::header::type_byte_spec;
use crate::decode::header::Header;
use crate::decode::pax::bytes_of;
use crate::decode::raw::lemma_raw_progress;
use crate::decode::raw::raw_inv;
use crate::decode::raw::raw_outcome;
use crate::decode::raw::raw_start;
use crate::decode::raw::raw_step;
use crate::decode::raw::Async;
use crate::decode::raw::Polled;
use crate::decode::raw::RawItem;
use crate::decode::raw::RawState;
use crate::decode::raw::RawTarItem;
use crate::decode::raw::RawTarStream;
use crate::error::Error;
use crate::error::Fault;
use bytes::Bytes;
use bytes::BytesMut;
use std::fmt::Debug;
use std::io;
use vstd::prelude::*;
use vstd::slice::slice_to_vec;
use vstd::string::StringSliceAdditionalSpecFns;

verus! {

/// One entry of the archive: its path, the path it links to, its size, and
/// the PAX records that came before it.
#[derive(Debug)]
pub struct TarEntry {
    path_bytes: Vec<u8>,
    link_bytes: Option<Vec<u8>>,
    pax_extensions: Option<Vec<u8>>,
    size: u64,
}

/// An entry as contracts speak of it.
pub ghost struct Member {
    pub path: Seq<u8>,
    pub link: Option<Seq<u8>>,
    /// The PAX records that describe the entry, as they stood in the archive.
    pub pax_extensions: Option<Seq<u8>>,
    pub size: u64,
}

impl View for TarEntry {
    type V = Member;

    closed spec fn view(&self) -> Member {
        Member {
            path: self.path_bytes@,
            link: bytes_of(self.link_bytes),
            pax_extensions: bytes_of(self.pax_extensions),
            size: self.size,
        }
    }
}

impl TarEntry {
    /// The path of the entry as text, or an error where it is not UTF-8.
    pub fn path(&self) -> (r: io::Result<&str>)
        ensures
            match r {
                Ok(text) => vstd::utf8::valid_utf8(self@.path) && text.spec_bytes() == self@.path,
                Err(_) => !vstd::utf8::valid_utf8(self@.path),
            },
    {
        bytes2path(self.path_bytes.as_slice())
    }

    /// The path that the entry links to as text, if it has one, or an error
    /// where it is not UTF-8.
    pub fn link(&self) -> (r: io::Result<Option<&str>>)
        ensures
            match self@.link {
                Some(bytes) => match r {
                    Ok(Some(text)) => vstd::utf8::valid_utf8(bytes) && text.spec_bytes() == bytes,
                    Ok(None) => false,
                    Err(_) => !vstd::utf8::valid_utf8(bytes),
                },
                None => r matches Ok(None),
            },
    {
        Ok(
            match self.link_bytes.as_ref() {
                Some(bytes) => Some(bytes2path(bytes.as_slice())?),
                None => None,
            },
        )
    }

    /// The size of the entry's content in bytes.
    pub fn size(&self) -> (r: u64)
        ensures
            r == self@.size,
    {
        self.size
    }

    /// The PAX records that describe the entry, if there were any.
    pub fn pax_extensions(&self) -> (r: Option<&Vec<u8>>)
        ensures
            match r {
                Some(records) => self@.pax_extensions == Some(records@),
                None => self@.pax_extensions is None,
            },
    {
        self.pax_extensions.as_ref()
    }
}

/// One item of the archive.
#[derive(Debug)]
pub enum TarItem {
    /// The next entry.
    Entry(TarEntry),
    /// A piece of the payload of the entry that came last.
    Chunk(Bytes),
}

/// An item as contracts speak of it.
pub ghost enum Item {
    Entry(Member),
    Chunk(Seq<u8>),
}

impl View for TarItem {
    type V = Item;

    open spec fn view(&self) -> Item {
        match *self {
            TarItem::Entry(e) => Item::Entry(e@),
            TarItem::Chunk(b) => Item::Chunk(bytes_content(b)),
        }
    }
}

/// A poll's answer as a [`Polled`] value.
pub open spec fn outcome<E: Debug + Sync + Send + 'static>(
    r: Result<Async<Option<TarItem>>, Error<E>>,
) -> Polled<Item, E> {
    match r {
        Ok(Async::Ready(Some(item))) => Polled::Item(item@),
        Ok(Async::Ready(None)) => Polled::End,
        Ok(Async::NotReady) => Polled::NotReady,
        Err(e) => Polled::Failed(e@),
    }
}

/// The record that is being gathered.
pub ghost enum Gathering {
    /// None: the next header starts an entry or a record.
    Clean,
    /// A GNU long name, of which these bytes have come.
    InGnuLongName(Seq<u8>),
    /// A GNU long link name, of which these bytes have come.
    InGnuLongLink(Seq<u8>),
    /// PAX records, of which these bytes have come.
    InPaxExtensions(Seq<u8>),
}

/// The state of the stream.
pub ghost struct ArchiveState<E> {
    /// The framer below.
    pub raw: RawState<E>,
    pub gathering: Gathering,
    /// The GNU long name that waits for its entry.
    pub long_name: Option<Seq<u8>>,
    /// The GNU long link name that waits for its entry.
    pub long_link: Option<Seq<u8>>,
    /// The PAX records that wait for their entry.
    pub pax: Option<Seq<u8>>,
}

/// The state of a stream that has seen nothing.
pub open spec fn archive_start<E>() -> ArchiveState<E> {
    ArchiveState {
        raw: raw_start(),
        gathering: Gathering::Clean,
        long_name: None,
        long_link: None,
        pax: None,
    }
}

/// The record that was being gathered is complete: it now waits for its
/// entry. A GNU name loses the NUL that ends it.
pub open spec fn commit<E>(s: ArchiveState<E>) -> ArchiveState<E> {
    match s.gathering {
        Gathering::Clean => s,
        Gathering::InGnuLongName(name) => ArchiveState {
            gathering: Gathering::Clean,
            long_name: Some(trim_nul(name)),
            ..s
        },
        Gathering::InGnuLongLink(name) => ArchiveState {
            gathering: Gathering::Clean,
            long_link: Some(trim_nul(name)),
            ..s
        },
        Gathering::InPaxExtensions(records) => ArchiveState {
            gathering: Gathering::Clean,
            pax: Some(records),
            ..s
        },
    }
}

/// What the stream makes of one answer of the framer.
pub ghost enum Turn<E> {
    /// Nothing to hand out yet: the framer is polled again.
    Continue(ArchiveState<E>),
    /// The answer to the poll.
    Done(ArchiveState<E>, Polled<Item, E>),
}

/// What the stream makes of a header block, with nothing being gathered.
///
/// A GNU block of type `'L'` or `'K'` starts a long name or a long link name,
/// a ustar block of type `'x'` starts PAX records; a second one of its kind
/// before the entry is an error, and so is a size that cannot be read. Any
/// other block is an entry: a GNU long name goes before the block's path, a
/// GNU long link name before its link name, and nothing is left waiting.
pub open spec fn header_turn<E>(s: ArchiveState<E>, block: Seq<u8>) -> Turn<E> {
    let kind = type_byte_spec(block);
    let fresh = ArchiveState { long_name: None, long_link: None, pax: None, ..s };
    let starts = if is_gnu_spec(block) && kind == 76 {
        Some(Gathering::InGnuLongName(Seq::empty()))
    } else if is_gnu_spec(block) && kind == 75 {
        Some(Gathering::InGnuLongLink(Seq::empty()))
    } else if is_ustar_spec(block) && kind == 120 {
        Some(Gathering::InPaxExtensions(Seq::empty()))
    } else {
        None
    };
    let waits = if is_gnu_spec(block) && kind == 76 {
        s.long_name is Some
    } else if is_gnu_spec(block) && kind == 75 {
        s.long_link is Some
    } else {
        s.pax is Some
    };
    match starts {
        Some(gathering) => if waits {
            Turn::Done(s, Polled::Failed(Fault::Format(twice_text())))
        } else {
            match tar_size(block) {
                None => Turn::Done(s, Polled::Failed(Fault::Io)),
                Some(size) => if size > max_len() {
                    Turn::Done(s, Polled::Failed(Fault::Format(too_large_text())))
                } else {
                    Turn::Continue(ArchiveState { gathering, ..s })
                },
            }
        },
        None => match tar_size(block) {
            None => Turn::Done(fresh, Polled::Failed(Fault::Io)),
            Some(size) => Turn::Done(
                fresh,
                Polled::Item(
                    Item::Entry(
                        Member {
                            path: or_else(s.long_name, Some(path_spec(block))).unwrap(),
                            link: or_else(s.long_link, link_name_spec(block)),
                            pax_extensions: s.pax,
                            size,
                        },
                    ),
                ),
            ),
        },
    }
}

/// What the stream makes of a piece of payload: it hands it on, or adds it to
/// the record that is being gathered.
pub open spec fn chunk_turn<E>(s: ArchiveState<E>, chunk: Seq<u8>) -> Turn<E> {
    let gathered = match s.gathering {
        Gathering::Clean => Seq::empty(),
        Gathering::InGnuLongName(bytes) => bytes,
        Gathering::InGnuLongLink(bytes) => bytes,
        Gathering::InPaxExtensions(bytes) => bytes,
    };
    if s.gathering is Clean {
        Turn::Done(s, Polled::Item(Item::Chunk(chunk)))
    } else if gathered.len() + chunk.len() > max_len() {
        Turn::Done(s, Polled::Failed(Fault::Format(too_large_text())))
    } else {
        Turn::Continue(
            ArchiveState {
                gathering: match s.gathering {
                    Gathering::Clean => Gathering::Clean,
                    Gathering::InGnuLongName(bytes) => Gathering::InGnuLongName(bytes + chunk),
                    Gathering::InGnuLongLink(bytes) => Gathering::InGnuLongLink(bytes + chunk),
                    Gathering::InPaxExtensions(bytes) => Gathering::InPaxExtensions(bytes + chunk),
                },
                ..s
            },
        )
    }
}

/// What the stream makes of one answer of the framer. In `s` the framer has
/// given the answer already.
///
/// A record that is being gathered ends with the next header block. An empty
/// block or the end of the archive in its place is an error.
pub open spec fn turn<E>(s: ArchiveState<E>, answer: Polled<RawItem, E>) -> Turn<E> {
    match answer {
        Polled::NotReady => Turn::Done(s, Polled::NotReady),
        Polled::Failed(f) => Turn::Done(s, Polled::Failed(f)),
        Polled::End => if s.gathering is Clean {
            Turn::Done(s, Polled::End)
        } else {
            Turn::Done(s, Polled::Failed(Fault::UnexpectedEof))
        },
        Polled::Item(RawItem::EmptyHeader) => if s.gathering is Clean {
            Turn::Continue(s)
        } else {
            Turn::Done(s, Polled::Failed(Fault::UnexpectedEof))
        },
        Polled::Item(RawItem::Chunk(chunk)) => chunk_turn(s, chunk),
        Polled::Item(RawItem::Header(block)) => header_turn(commit(s), block),
    }
}

/// One poll of the stream: the state after it and what it answers. The framer
/// is polled until an answer of it is one for the caller.
pub open spec fn archive_step<E>(s: ArchiveState<E>) -> (ArchiveState<E>, Polled<Item, E>)
    decreases s.raw.tail.len(),
{
    let polled = raw_step(s.raw);
    match turn(ArchiveState { raw: polled.0, ..s }, polled.1) {
        Turn::Done(next, answer) => (next, answer),
        Turn::Continue(next) => if next.raw.tail.len() < s.raw.tail.len() {
            archive_step(next)
        } else {
            (next, Polled::NotReady)
        },
    }
}

/// The record that is being gathered.
enum State {
    Clean,
    InGnuLongName(BytesMut),
    InGnuLongLink(BytesMut),
    InPaxExtensions(BytesMut),
}

impl State {
    spec fn gathering(self) -> Gathering {
        match self {
            State::Clean => Gathering::Clean,
            State::InGnuLongName(buf) => Gathering::InGnuLongName(buffer_content(buf)),
            State::InGnuLongLink(buf) => Gathering::InGnuLongLink(buffer_content(buf)),
            State::InPaxExtensions(buf) => Gathering::InPaxExtensions(buffer_content(buf)),
        }
    }

    /// Hands out the state and leaves `Clean` in its place.
    fn take(&mut self) -> (r: State)
        ensures
            r == *old(self),
            *final(self) == State::Clean,
    {
        let mut state = State::Clean;
        std::mem::swap(self, &mut state);
        state
    }
}

/// The stream of entries, on top of the framer that it polls.
pub struct EntryStream<E> {
    upstream: RawTarStream<E>,
    state: State,
    gnu_long_name: Option<Vec<u8>>,
    gnu_long_link: Option<Vec<u8>>,
    pax_extensions: Option<Vec<u8>>,
}

impl<E: Debug + Sync + Send + 'static> View for EntryStream<E> {
    type V = ArchiveState<E>;

    closed spec fn view(&self) -> ArchiveState<E> {
        ArchiveState {
            raw: self.upstream@,
            gathering: self.state.gathering(),
            long_name: bytes_of(self.gnu_long_name),
            long_link: bytes_of(self.gnu_long_link),
            pax: bytes_of(self.pax_extensions),
        }
    }
}

impl<E: Debug + Sync + Send + 'static> EntryStream<E> {
    /// The stream's invariant: that of its framer.
    pub closed spec fn wf(&self) -> bool {
        self.upstream.wf()
    }

    /// The invariant as it shows in the state.
    pub proof fn lemma_wf(&self)
        requires
            self.wf(),
        ensures
            raw_inv(self@.raw),
    {
        self.upstream.lemma_wf();
    }

    /// A stream on top of `upstream`, with nothing gathered.
    fn new(upstream: RawTarStream<E>) -> (r: Self)
        requires
            upstream.wf(),
        ensures
            r.wf(),
            r@ == (ArchiveState { raw: upstream@, ..archive_start::<E>() }),
    {
        EntryStream {
            upstream,
            state: State::Clean,
            gnu_long_name: None,
            gnu_long_link: None,
            pax_extensions: None,
        }
    }

    /// Offers the next chunk of the archive to the framer, which hands it
    /// back where it still has input at hand.
    pub fn feed(&mut self, chunk: Bytes) -> (r: Option<Bytes>)
        requires
            old(self).wf(),
        ensures
            final(self).wf(),
            old(self)@.raw.tail.len() == 0 ==> r is None && final(self)@ == (ArchiveState {
                raw: RawState { tail: bytes_content(chunk), ..old(self)@.raw },
                ..old(self)@
            }),
            old(self)@.raw.tail.len() > 0 ==> r == Some(chunk) && final(self)@ == old(self)@,
    {
        self.upstream.feed(chunk)
    }

    /// Says that the input has ended.
    pub fn finish(&mut self)
        requires
            old(self).wf(),
        ensures
            final(self).wf(),
            final(self)@ == (ArchiveState {
                raw: RawState { ended: true, ..old(self)@.raw },
                ..old(self)@
            }),
    {
        self.upstream.finish()
    }

    /// Says that the byte source failed.
    pub fn fail(&mut self, failure: E)
        requires
            old(self).wf(),
        ensures
            final(self).wf(),
            final(self)@ == (ArchiveState {
                raw: RawState { failure: Some(failure), ..old(self)@.raw },
                ..old(self)@
            }),
    {
        self.upstream.fail(failure)
    }

    /// Lets the record that was being gathered wait for its entry.
    fn commit(&mut self)
        requires
            old(self).wf(),
        ensures
            final(self).wf(),
            final(self)@ == commit(old(self)@),
    {
        match self.state.take() {
            State::Clean => {},
            State::InGnuLongName(buf) => {
                self.gnu_long_name = Some(gnu_str_buffer2vec(buffer_as_slice(&buf)));
            },
            State::InGnuLongLink(buf) => {
                self.gnu_long_link = Some(gnu_str_buffer2vec(buffer_as_slice(&buf)));
            },
            State::InPaxExtensions(buf) => {
                self.pax_extensions = Some(slice_to_vec(buffer_as_slice(&buf)));
            },
        }
    }

    /// Takes in a header block: starts the record that it announces, or
    /// builds the entry that it describes. Returns `None` where the framer
    /// has to be polled again.
    fn poll_next_header(&mut self, entry: Header) -> (r: Option<
        Result<Async<Option<TarItem>>, Error<E>>,
    >)
        requires
            old(self).wf(),
        ensures
            final(self).wf(),
            match header_turn(commit(old(self)@), entry@) {
                Turn::Continue(next) => r is None && final(self)@ == next,
                Turn::Done(next, answer) => r is Some && final(self)@ == next && outcome(
                    r.unwrap(),
                ) == answer,
            },
    {
        self.commit();
        let gnu = header_is_gnu(&entry);
        let longname = gnu && header_is_gnu_longname(&entry);
        let longlink = gnu && !longname && header_is_gnu_longlink(&entry);
        let pax = !longname && !longlink && header_is_ustar(&entry)
            && header_is_pax_local_extensions(&entry);
        if longname || longlink || pax {
            let waits = if longname {
                self.gnu_long_name.is_some()
            } else if longlink {
                self.gnu_long_link.is_some()
            } else {
                self.pax_extensions.is_some()
            };
            if waits {
                return Some(Err(Error::Format("two long name entries describing the same member")));
            }
            let size = match header_size(&entry) {
                Ok(size) => size,
                Err(e) => {
                    return Some(Err(Error::IoError(e)));
                },
            };
            if size > (isize::MAX as u64) {
                return Some(Err(Error::Format("long name too large")));
            }
            let buffer = buffer_with_capacity(size as usize);
            if longname {
                self.state = State::InGnuLongName(buffer);
            } else if longlink {
                self.state = State::InGnuLongLink(buffer);
            } else {
                self.state = State::InPaxExtensions(buffer);
            }
            return None;
        }
        let path_bytes = match self.gnu_long_name.take() {
            Some(name) => name,
            None => header_path_bytes(&entry),
        };
        let link_bytes = match self.gnu_long_link.take() {
            Some(name) => Some(name),
            None => header_link_name_bytes(&entry),
        };
        let pax_extensions = self.pax_extensions.take();
        let size = match header_size(&entry) {
            Ok(size) => size,
            Err(e) => {
                return Some(Err(Error::IoError(e)));
            },
        };
        Some(Ok(Async::Ready(Some(TarItem::Entry(TarEntry { path_bytes, link_bytes, pax_extensions, size })))))
    }

    /// Takes in a piece of payload: hands it on, or adds it to the record
    /// that is being gathered. Returns `None` where the framer has to be
    /// polled again.
    fn poll_data(&mut self, bytes: Bytes) -> (r: Option<Result<Async<Option<TarItem>>, Error<E>>>)
        requires
            old(self).wf(),
        ensures
            final(self).wf(),
            match chunk_turn(old(self)@, bytes_content(bytes)) {
                Turn::Continue(next) => r is None && final(self)@ == next,
                Turn::Done(next, answer) => r is Some && final(self)@ == next && outcome(
                    r.unwrap(),
                ) == answer,
            },
    {
        let (state, done) = match self.state.take() {
            State::Clean => {
                return Some(Ok(Async::Ready(Some(TarItem::Chunk(bytes)))));
            },
            State::InGnuLongName(mut buf) => {
                let done = buffer_try_extend(&mut buf, bytes_as_slice(&bytes));
                (State::InGnuLongName(buf), done)
            },
            State::InGnuLongLink(mut buf) => {
                let done = buffer_try_extend(&mut buf, bytes_as_slice(&bytes));
                (State::InGnuLongLink(buf), done)
            },
            State::InPaxExtensions(mut buf) => {
                let done = buffer_try_extend(&mut buf, bytes_as_slice(&bytes));
                (State::InPaxExtensions(buf), done)
            },
        };
        self.state = state;
        if done {
            None
        } else {
            Some(Err(Error::Format("long name too large")))
        }
    }

    /// Polls for the next item: an entry, or a piece of the payload of the
    /// entry that came last.
    pub fn poll(&mut self) -> (r: Result<Async<Option<TarItem>>, Error<E>>)
        requires
            old(self).wf(),
        ensures
            final(self).wf(),
            (final(self)@, outcome(r)) == archive_step(old(self)@),
    {
        loop
            invariant
                self.wf(),
                archive_step(self@) == archive_step(old(self)@),
            decreases self@.raw.tail.len(),
        {
            proof {
                self.lemma_wf();
                lemma_raw_progress(self@.raw);
            }
            let ghost before = self@;
            let polled = self.upstream.poll();
            assert(self@ == (ArchiveState { raw: raw_step(before.raw).0, ..before }));
            let clean = match self.state {
                State::Clean => true,
                _ => false,
            };
            let answer = match polled {
                Err(e) => Some(Err(e)),
                Ok(Async::NotReady) => Some(Ok(Async::NotReady)),
                Ok(Async::Ready(None)) => if clean {
                    Some(Ok(Async::Ready(None)))
                } else {
                    Some(Err(Error::UnexpectedEof))
                },
                Ok(Async::Ready(Some(RawTarItem::EmptyHeader))) => if clean {
                    None
                } else {
                    Some(Err(Error::UnexpectedEof))
                },
                Ok(Async::Ready(Some(RawTarItem::Chunk(bytes)))) => self.poll_data(bytes),
                Ok(Async::Ready(Some(RawTarItem::Header(header)))) => self.poll_next_header(header),
            };
            match answer {
                Some(answer) => {
                    return answer;
                },
                None => {},
            }
        }
    }
}

/// A stream of entries for an archive that is yet to be fed.
pub fn decode_tar<E: Debug + Sync + Send + 'static>() -> (r: EntryStream<E>)
    ensures
        r.wf(),
        r@ == archive_start::<E>(),
{
    EntryStream::new(crate::decode::raw::decode_tar())
}

} // verus!
