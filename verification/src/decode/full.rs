//! The nested entry stream: the archive as a sequence of entries, each with
//! the pieces of its own payload.
//!
//! All entries draw on one coalescer. Each entry that is handed out gets the
//! next number, its epoch, and only the entry of the current epoch can draw
//! payload: an older one finds its payload ended. The next entry is handed
//! out once the payload of the current one is read or given up.
use super::buffer::bytes_content;
use super::buffer::bytes_len;
use super::buffer::bytes_split_to;
use super::flat::flat_start;
use super::flat::flat_step;
use super::flat::lemma_flat_progress;
use super::flat::EntryStream;
use super::flat::FlatItem;
use super::flat::FlatState;
use super::flat::Metadata;
use super::flat::TarEntry;
use super::flat::TarItem;
use super::raw::raw_inv;
use super::raw::Async;
use super::raw::Polled;
use super::raw::RawState;
use crate::error::Error;
use crate::error::Fault;
use bytes::Bytes;
use std::fmt::Debug;
use vstd::prelude::*;

verus! {

/// The state of a nested entry stream.
pub ghost struct DeepState<E> {
    /// The coalescer below.
    pub flat: FlatState<E>,
    /// The epoch of the entry that was handed out last.
    pub position: nat,
    /// How many bytes of that entry's payload are still to be read.
    pub bytes: nat,
}

/// The state of a nested entry stream that has seen nothing.
pub open spec fn deep_start<E>() -> DeepState<E> {
    DeepState { flat: flat_start(), position: 0, bytes: 0 }
}

/// The error text for an entry that turns up inside another entry's payload.
pub open spec fn after_end_text() -> Seq<char> {
    "read after end of file"@
}

/// The error text for an archive with more entries than epochs.
pub open spec fn too_many_text() -> Seq<char> {
    "too many entries"@
}

/// Draws on the coalescer until it answers with anything but payload.
pub open spec fn skip_chunks<E>(s: FlatState<E>) -> (FlatState<E>, Polled<FlatItem, E>)
    decreases s.raw.tail.len(),
{
    let polled = flat_step(s);
    if polled.1 is Item && polled.1->Item_0 is Chunk && polled.0.raw.tail.len() < s.raw.tail.len() {
        skip_chunks(polled.0)
    } else {
        polled
    }
}

/// One poll for the next entry: the state after it, and the entry's metadata
/// with its epoch.
///
/// While payload of the current entry is left to read, the poll has to wait.
/// Else it drops what payload still comes, and the entry that follows gets
/// the next epoch and its size as the payload to read. Where the epochs have
/// run out, the poll fails before it draws on the coalescer.
pub open spec fn next_entry_step<E>(s: DeepState<E>) -> (DeepState<E>, Polled<(Metadata, u64), E>) {
    if s.bytes > 0 {
        (s, Polled::NotReady)
    } else if s.position >= u64::MAX {
        (s, Polled::Failed(Fault::Format(too_many_text())))
    } else {
        let polled = skip_chunks(s.flat);
        let drawn = DeepState { flat: polled.0, ..s };
        match polled.1 {
            Polled::Item(FlatItem::Entry(entry)) => (
                DeepState {
                    flat: polled.0,
                    position: s.position + 1,
                    bytes: entry.size as nat,
                },
                Polled::Item((entry, (s.position + 1) as u64)),
            ),
            Polled::Item(FlatItem::Chunk(_)) => (drawn, Polled::NotReady),
            Polled::NotReady => (drawn, Polled::NotReady),
            Polled::End => (drawn, Polled::End),
            Polled::Failed(f) => (drawn, Polled::Failed(f)),
        }
    }
}

/// One poll for payload by the entry of epoch `position`: the state after it
/// and the piece of payload.
///
/// An entry of another epoch than the current one, and one whose payload is
/// read, finds the end. Else the next piece is drawn from the coalescer and
/// cut to what is left to read. An archive that ends instead is cut short; an
/// entry that turns up instead breaks the format.
pub open spec fn entry_data_step<E>(s: DeepState<E>, position: u64) -> (
    DeepState<E>,
    Polled<Seq<u8>, E>,
) {
    if s.position == position && s.bytes > 0 {
        let polled = flat_step(s.flat);
        let drawn = DeepState { flat: polled.0, ..s };
        match polled.1 {
            Polled::Item(FlatItem::Chunk(chunk)) => if chunk.len() <= s.bytes {
                (
                    DeepState { bytes: (s.bytes - chunk.len()) as nat, ..drawn },
                    Polled::Item(chunk),
                )
            } else {
                (DeepState { bytes: 0, ..drawn }, Polled::Item(chunk.take(s.bytes as int)))
            },
            Polled::Item(FlatItem::Entry(_)) => (
                drawn,
                Polled::Failed(Fault::Format(after_end_text())),
            ),
            Polled::End => (drawn, Polled::Failed(Fault::UnexpectedEof)),
            Polled::NotReady => (drawn, Polled::NotReady),
            Polled::Failed(f) => (drawn, Polled::Failed(f)),
        }
    } else {
        (s, Polled::End)
    }
}

/// The entry of epoch `position` is given up: if it is the current one, what
/// is left of its payload will not be read.
pub open spec fn release_step<E>(s: DeepState<E>, position: u64) -> DeepState<E> {
    if s.position == position {
        DeepState { bytes: 0, ..s }
    } else {
        s
    }
}

/// A poll's answer for payload as a [`Polled`] value.
pub open spec fn data_outcome<E: Debug + Sync + Send + 'static>(
    r: Result<Async<Option<Bytes>>, Error<E>>,
) -> Polled<Seq<u8>, E> {
    match r {
        Ok(Async::Ready(Some(chunk))) => Polled::Item(bytes_content(chunk)),
        Ok(Async::Ready(None)) => Polled::End,
        Ok(Async::NotReady) => Polled::NotReady,
        Err(e) => Polled::Failed(e@),
    }
}

/// A poll's answer for the next entry as a [`Polled`] value.
pub open spec fn entry_outcome<E: Debug + Sync + Send + 'static>(
    r: Result<Async<Option<(TarEntry, u64)>>, Error<E>>,
) -> Polled<(Metadata, u64), E> {
    match r {
        Ok(Async::Ready(Some((entry, position)))) => Polled::Item((entry@, position)),
        Ok(Async::Ready(None)) => Polled::End,
        Ok(Async::NotReady) => Polled::NotReady,
        Err(e) => Polled::Failed(e@),
    }
}

/// An entry of the archive: its metadata and its epoch, by which it draws
/// its payload from the stream that handed it out.
#[derive(Debug)]
pub struct Entry {
    header: TarEntry,
    position: u64,
}

impl Entry {
    /// The metadata of the entry.
    #[inline]
    pub fn header(&self) -> (r: &TarEntry)
        ensures
            *r == self.metadata(),
    {
        &self.header
    }

    /// The epoch of the entry.
    #[inline]
    pub fn position(&self) -> (r: u64)
        ensures
            r == self.epoch(),
    {
        self.position
    }

    /// The metadata of the entry.
    pub closed spec fn metadata(&self) -> TarEntry {
        self.header
    }

    /// The epoch of the entry.
    pub closed spec fn epoch(&self) -> u64 {
        self.position
    }
}

/// A poll's answer with an entry as a [`Polled`] value.
pub open spec fn deep_outcome<E: Debug + Sync + Send + 'static>(
    r: Result<Async<Option<Entry>>, Error<E>>,
) -> Polled<(Metadata, u64), E> {
    match r {
        Ok(Async::Ready(Some(entry))) => Polled::Item((entry.metadata()@, entry.epoch())),
        Ok(Async::Ready(None)) => Polled::End,
        Ok(Async::NotReady) => Polled::NotReady,
        Err(e) => Polled::Failed(e@),
    }
}

/// The nested entry stream, on top of the coalescer that it polls.
pub struct DeepTarStream<E> {
    upstream: EntryStream<E>,
    position: u64,
    bytes: u64,
}

impl<E: Debug + Sync + Send + 'static> View for DeepTarStream<E> {
    type V = DeepState<E>;

    closed spec fn view(&self) -> DeepState<E> {
        DeepState { flat: self.upstream@, position: self.position as nat, bytes: self.bytes as nat }
    }
}

impl<E: Debug + Sync + Send + 'static> DeepTarStream<E> {
    /// The stream's invariant: that of its coalescer.
    pub closed spec fn wf(&self) -> bool {
        self.upstream.wf()
    }

    /// The invariant as it shows in the state.
    pub proof fn lemma_wf(&self)
        requires
            self.wf(),
        ensures
            raw_inv(self@.flat.raw),
            self@.position <= u64::MAX,
            self@.bytes <= u64::MAX,
    {
        self.upstream.lemma_wf();
    }

    /// A stream on top of `upstream`, before its first entry.
    fn new(upstream: EntryStream<E>) -> (r: Self)
        requires
            upstream.wf(),
        ensures
            r.wf(),
            r@ == (DeepState { flat: upstream@, position: 0, bytes: 0 }),
    {
        DeepTarStream { upstream, position: 0, bytes: 0 }
    }

    /// Offers the next chunk of the archive to the framer, which hands it
    /// back where it still has input at hand.
    pub fn feed(&mut self, chunk: Bytes) -> (r: Option<Bytes>)
        requires
            old(self).wf(),
        ensures
            final(self).wf(),
            old(self)@.flat.raw.tail.len() == 0 ==> r is None && final(self)@ == (DeepState {
                flat: FlatState {
                    raw: RawState { tail: bytes_content(chunk), ..old(self)@.flat.raw },
                    ..old(self)@.flat
                },
                ..old(self)@
            }),
            old(self)@.flat.raw.tail.len() > 0 ==> r == Some(chunk) && final(self)@ == old(self)@,
    {
        self.upstream.feed(chunk)
    }

    /// Says that the input has ended.
    pub fn finish(&mut self)
        requires
            old(self).wf(),
        ensures
            final(self).wf(),
            final(self)@ == (DeepState {
                flat: FlatState {
                    raw: RawState { ended: true, ..old(self)@.flat.raw },
                    ..old(self)@.flat
                },
                ..old(self)@
            }),
    {
        self.upstream.finish()
    }

    /// Says that the byte source failed.
    pub fn fail(&mut self, failure: E)
        requires
            old(self).wf(),
        ensures
            final(self).wf(),
            final(self)@ == (DeepState {
                flat: FlatState {
                    raw: RawState { failure: Some(failure), ..old(self)@.flat.raw },
                    ..old(self)@.flat
                },
                ..old(self)@
            }),
    {
        self.upstream.fail(failure)
    }

    /// How many bytes of the current entry's payload are still to be read.
    #[inline]
    pub fn remaining(&self) -> (r: u64)
        ensures
            r == self@.bytes,
    {
        self.bytes
    }

    /// Polls for the next piece of payload of the entry of epoch `position`.
    pub fn poll_entry_data(&mut self, position: u64) -> (r: Result<Async<Option<Bytes>>, Error<E>>)
        requires
            old(self).wf(),
        ensures
            final(self).wf(),
            (final(self)@, data_outcome(r)) == entry_data_step(old(self)@, position),
    {
        if self.position == position && self.bytes > 0 {
            match self.upstream.poll() {
                Ok(Async::Ready(Some(TarItem::Chunk(mut bytes)))) => {
                    let len = bytes_len(&bytes);
                    if len as u64 <= self.bytes {
                        self.bytes = self.bytes - len as u64;
                        Ok(Async::Ready(Some(bytes)))
                    } else {
                        let head = bytes_split_to(&mut bytes, self.bytes as usize);
                        self.bytes = 0;
                        Ok(Async::Ready(Some(head)))
                    }
                },
                Ok(Async::Ready(Some(TarItem::Entry(_)))) => Err(
                    Error::Format("read after end of file"),
                ),
                Ok(Async::Ready(None)) => Err(Error::UnexpectedEof),
                Ok(Async::NotReady) => Ok(Async::NotReady),
                Err(e) => Err(e),
            }
        } else {
            Ok(Async::Ready(None))
        }
    }

    /// Polls for the next entry and its epoch.
    pub fn poll_next_entry(&mut self) -> (r: Result<Async<Option<(TarEntry, u64)>>, Error<E>>)
        requires
            old(self).wf(),
        ensures
            final(self).wf(),
            (final(self)@, entry_outcome(r)) == next_entry_step(old(self)@),
    {
        if self.bytes > 0 {
            return Ok(Async::NotReady);
        }
        if self.position == u64::MAX {
            return Err(Error::Format("too many entries"));
        }
        loop
            invariant
                self.wf(),
                self.position == old(self).position,
                self.bytes == old(self).bytes,
                self.bytes == 0,
                self.position < u64::MAX,
                skip_chunks(self@.flat) == skip_chunks(old(self)@.flat),
            decreases self@.flat.raw.tail.len(),
        {
            proof {
                self.lemma_wf();
                lemma_flat_progress(self@.flat);
            }
            match self.upstream.poll() {
                Ok(Async::Ready(Some(TarItem::Entry(entry)))) => {
                    self.position = self.position + 1;
                    self.bytes = entry.size();
                    return Ok(Async::Ready(Some((entry, self.position))));
                },
                Ok(Async::Ready(Some(TarItem::Chunk(_)))) => {},
                Ok(Async::Ready(None)) => {
                    return Ok(Async::Ready(None));
                },
                Ok(Async::NotReady) => {
                    return Ok(Async::NotReady);
                },
                Err(e) => {
                    return Err(e);
                },
            }
        }
    }

    /// Polls for the next entry.
    pub fn poll(&mut self) -> (r: Result<Async<Option<Entry>>, Error<E>>)
        requires
            old(self).wf(),
        ensures
            final(self).wf(),
            (final(self)@, deep_outcome(r)) == next_entry_step(old(self)@),
    {
        match self.poll_next_entry() {
            Err(e) => Err(e),
            Ok(Async::NotReady) => Ok(Async::NotReady),
            Ok(Async::Ready(None)) => Ok(Async::Ready(None)),
            Ok(Async::Ready(Some((header, position)))) => Ok(
                Async::Ready(Some(Entry { header, position })),
            ),
        }
    }

    /// Gives up the entry of epoch `position`: if it is the current one, what
    /// is left of its payload will not be read, and the next entry can be
    /// polled for.
    pub fn release(&mut self, position: u64)
        requires
            old(self).wf(),
        ensures
            final(self).wf(),
            final(self)@ == release_step(old(self)@, position),
    {
        if self.position == position {
            self.bytes = 0;
        }
    }
}

/// A nested entry stream for an archive that is yet to be fed.
pub fn decode_tar<E: Debug + Sync + Send + 'static>() -> (r: DeepTarStream<E>)
    ensures
        r.wf(),
        r@ == deep_start::<E>(),
{
    DeepTarStream::new(super::flat::decode_tar())
}

/// Epochs exclude one another: once the next entry is handed out, a poll for
/// payload by any other epoch, and so by every entry handed out before, finds
/// the end and changes nothing.
pub proof fn lemma_stale_entry_ends<E>(s: DeepState<E>, stale: u64)
    requires
        next_entry_step(s).1 is Item,
        stale <= s.position,
    ensures
        ({
            let next = next_entry_step(s).0;
            &&& next.position == s.position + 1
            &&& next_entry_step(s).1->Item_0.1 == next.position
            &&& entry_data_step(next, stale) == (next, Polled::<Seq<u8>, E>::End)
            &&& release_step(next, stale) == next
        }),
{
}

/// Payload is counted off: a poll for payload hands out no more than is left
/// to read of the entry and leaves that much less to read. It finds the end
/// only where nothing is left to read or the epoch is not the current one.
pub proof fn lemma_payload_is_counted<E>(s: DeepState<E>, position: u64)
    ensures
        ({
            let polled = entry_data_step(s, position);
            &&& polled.0.position == s.position
            &&& match polled.1 {
                Polled::Item(chunk) => chunk.len() + polled.0.bytes == s.bytes,
                Polled::End => polled.0 == s && (s.bytes == 0 || s.position != position),
                _ => polled.0.bytes == s.bytes,
            }
        }),
{
}

/// The next entry starts with its whole size left to read, and is handed out
/// only when nothing is left to read of the entry before it.
pub proof fn lemma_entry_starts_whole<E>(s: DeepState<E>)
    ensures
        match next_entry_step(s).1 {
            Polled::Item((entry, position)) => s.bytes == 0 && next_entry_step(s).0.bytes
                == entry.size,
            _ => next_entry_step(s).0.bytes == s.bytes && next_entry_step(s).0.position
                == s.position,
        },
{
}

/// What reading an entry's payload came to.
pub ghost struct Reading<E> {
    /// The payload that was handed out, piece after piece.
    pub payload: Seq<u8>,
    /// The state after the last poll.
    pub state: DeepState<E>,
    /// The answer of the last poll, which is no piece of payload unless the
    /// input ran out.
    pub answer: Polled<Seq<u8>, E>,
}

/// The stream with other input at hand.
pub open spec fn deep_with_input<E>(s: DeepState<E>, tail: Seq<u8>) -> DeepState<E> {
    DeepState { flat: FlatState { raw: RawState { tail, ..s.flat.raw }, ..s.flat }, ..s }
}

/// Reads the payload of the entry of epoch `position`: polls for payload and
/// feeds the next chunk whenever the poll has to wait, until the payload ends,
/// a poll fails, or the chunks run out.
pub open spec fn read_entry<E>(s: DeepState<E>, position: u64, chunks: Seq<Seq<u8>>) -> Reading<E>
    decreases chunks.len(), s.flat.raw.tail.len(),
{
    let polled = entry_data_step(s, position);
    match polled.1 {
        Polled::Item(chunk) => if polled.0.flat.raw.tail.len() < s.flat.raw.tail.len() {
            let rest = read_entry(polled.0, position, chunks);
            Reading { payload: chunk + rest.payload, ..rest }
        } else {
            Reading { payload: Seq::empty(), state: polled.0, answer: Polled::NotReady }
        },
        Polled::NotReady => if chunks.len() > 0 {
            read_entry(deep_with_input(polled.0, chunks.first()), position, chunks.drop_first())
        } else {
            Reading { payload: Seq::empty(), state: polled.0, answer: Polled::NotReady }
        },
        answer => Reading { payload: Seq::empty(), state: polled.0, answer },
    }
}

/// Payload is conserved: reading the current entry hands out no more bytes
/// than its size says are left to read, and as many where the payload is read
/// to its end. However the archive is cut into chunks, an entry of size `S`
/// that was just handed out has a payload of `S` bytes unless the reading
/// fails.
pub proof fn lemma_payload_is_conserved<E>(s: DeepState<E>, position: u64, chunks: Seq<Seq<u8>>)
    requires
        raw_inv(s.flat.raw),
        s.position == position,
    ensures
        ({
            let reading = read_entry(s, position, chunks);
            &&& reading.state.position == position
            &&& reading.payload.len() + reading.state.bytes == s.bytes
            &&& reading.answer is End ==> reading.payload.len() == s.bytes
        }),
    decreases chunks.len(), s.flat.raw.tail.len(),
{
    let polled = entry_data_step(s, position);
    lemma_payload_is_counted(s, position);
    lemma_flat_progress(s.flat);
    match polled.1 {
        Polled::Item(chunk) => {
            lemma_payload_is_conserved(polled.0, position, chunks);
        },
        Polled::NotReady => {
            if chunks.len() > 0 {
                lemma_payload_is_conserved(
                    deep_with_input(polled.0, chunks.first()),
                    position,
                    chunks.drop_first(),
                );
            }
        },
        _ => {},
    }
}

/// Skipping payload ends on an answer that is no payload: with the framer in
/// order, it never stops short of that.
pub proof fn lemma_skip_chunks<E>(s: FlatState<E>)
    requires
        raw_inv(s.raw),
    ensures
        raw_inv(skip_chunks(s).0.raw),
        !(skip_chunks(s).1 matches Polled::Item(FlatItem::Chunk(_))),
        skip_chunks(s).1 is Item ==> skip_chunks(s).0.raw.tail.len() < s.raw.tail.len(),
    decreases s.raw.tail.len(),
{
    lemma_flat_progress(s);
    let polled = flat_step(s);
    if polled.1 is Item && polled.1->Item_0 is Chunk {
        lemma_skip_chunks(polled.0);
    }
}

} // verus!
