//! The archive as raw entries: each header block with the stream of its own
//! payload, and nothing folded into anything.
//!
//! The entries draw on one framer. While an entry is handed out the stream is
//! locked: the next entry comes only after the entry is released, and what is
//! left of its payload is then passed over.
use crate::decode::buffer::bytes_content;
use crate::decode::buffer::bytes_len;
use crate::decode::buffer::bytes_split_to;
use crate::decode::header::header_size;
use crate::decode::header::tar_size;
use crate::decode::header::Header;
use crate::decode::raw::lemma_raw_progress;
use crate::decode::raw::raw_inv;
use crate::decode::raw::raw_start;
use crate::decode::raw::raw_step;
use crate::decode::raw::Async;
use crate::decode::raw::Polled;
use crate::decode::raw::RawItem;
use crate::decode::raw::RawState;
use crate::decode::raw::RawTarItem;
use crate::decode::raw::RawTarStream;
use crate::error::Error;
use crate::error::Fault;
use bytes::Bytes;
use std::fmt::Debug;
use vstd::prelude::*;

verus! {

/// The state of a stream of raw entries.
pub ghost struct EntriesState<E> {
    /// The framer below.
    pub raw: RawState<E>,
    /// Whether an entry is handed out and not released.
    pub locked: bool,
}

/// The state of a stream that has seen nothing.
pub open spec fn entries_start<E>() -> EntriesState<E> {
    EntriesState { raw: raw_start(), locked: false }
}

/// The error text for a header block that turns up inside an entry's payload.
pub open spec fn after_end_text() -> Seq<char> {
    "read after end of file"@
}

/// One poll for the next entry: the state after it, and the entry's header
/// block with the size of its payload.
///
/// While the stream is locked the poll has to wait. Else payload and empty
/// blocks are passed over up to the next header block, whose entry is handed
/// out with the size that the block gives, and the stream is locked.
pub open spec fn entry_step<E>(s: EntriesState<E>) -> (EntriesState<E>, Polled<(Seq<u8>, u64), E>)
    decreases s.raw.tail.len(),
{
    if s.locked {
        (s, Polled::NotReady)
    } else {
        let polled = raw_step(s.raw);
        let drawn = EntriesState { raw: polled.0, ..s };
        match polled.1 {
            Polled::Item(RawItem::Header(block)) => match tar_size(block) {
                Some(size) => (
                    EntriesState { raw: polled.0, locked: true },
                    Polled::Item((block, size)),
                ),
                None => (drawn, Polled::Failed(Fault::Io)),
            },
            Polled::Item(_) => if polled.0.tail.len() < s.raw.tail.len() {
                entry_step(drawn)
            } else {
                (drawn, Polled::NotReady)
            },
            Polled::NotReady => (drawn, Polled::NotReady),
            Polled::End => (drawn, Polled::End),
            Polled::Failed(f) => (drawn, Polled::Failed(f)),
        }
    }
}

/// One poll for payload by an entry of which `real_bytes` are left to read:
/// the state after it, what is then left to read, and the piece of payload.
///
/// An entry whose payload is read finds the end. Else the next piece is drawn
/// from the framer and cut to what is left to read. An archive that ends
/// instead is cut short; a block that turns up instead breaks the format.
pub open spec fn payload_step<E>(s: EntriesState<E>, real_bytes: u64) -> (
    EntriesState<E>,
    u64,
    Polled<Seq<u8>, E>,
) {
    if real_bytes == 0 {
        (s, real_bytes, Polled::End)
    } else {
        let polled = raw_step(s.raw);
        let drawn = EntriesState { raw: polled.0, ..s };
        match polled.1 {
            Polled::Item(RawItem::Chunk(chunk)) => if chunk.len() <= real_bytes {
                (drawn, (real_bytes - chunk.len()) as u64, Polled::Item(chunk))
            } else {
                (drawn, 0, Polled::Item(chunk.take(real_bytes as int)))
            },
            Polled::Item(_) => (
                drawn,
                real_bytes,
                Polled::Failed(Fault::Format(after_end_text())),
            ),
            Polled::End => (drawn, real_bytes, Polled::Failed(Fault::UnexpectedEof)),
            Polled::NotReady => (drawn, real_bytes, Polled::NotReady),
            Polled::Failed(f) => (drawn, real_bytes, Polled::Failed(f)),
        }
    }
}

/// An entry of the raw archive: its header block, and how much of its payload
/// is left to read.
#[derive(Debug)]
pub struct RawAsyncEntry {
    header: Header,
    real_bytes: u64,
}

impl RawAsyncEntry {
    /// The header block of the entry.
    pub closed spec fn block(&self) -> Seq<u8> {
        self.header@
    }

    /// How many bytes of the entry's payload are left to read.
    pub closed spec fn left(&self) -> u64 {
        self.real_bytes
    }

    /// The header block of the entry.
    pub fn header(&self) -> (r: &Header)
        ensures
            r@ == self.block(),
    {
        &self.header
    }
}

/// A poll's answer with an entry as a [`Polled`] value.
pub open spec fn entry_outcome<E: Debug + Sync + Send + 'static>(
    r: Result<Async<Option<RawAsyncEntry>>, Error<E>>,
) -> Polled<(Seq<u8>, u64), E> {
    match r {
        Ok(Async::Ready(Some(entry))) => Polled::Item((entry.block(), entry.left())),
        Ok(Async::Ready(None)) => Polled::End,
        Ok(Async::NotReady) => Polled::NotReady,
        Err(e) => Polled::Failed(e@),
    }
}

/// A poll's answer for payload as a [`Polled`] value.
pub open spec fn payload_outcome<E: Debug + Sync + Send + 'static>(
    r: Result<Async<Option<Bytes>>, Error<E>>,
) -> Polled<Seq<u8>, E> {
    match r {
        Ok(Async::Ready(Some(chunk))) => Polled::Item(bytes_content(chunk)),
        Ok(Async::Ready(None)) => Polled::End,
        Ok(Async::NotReady) => Polled::NotReady,
        Err(e) => Polled::Failed(e@),
    }
}

/// The stream of raw entries, on top of the framer that it polls.
pub struct RawEntryStream<E> {
    upstream: RawTarStream<E>,
    locked: bool,
}

impl<E: Debug + Sync + Send + 'static> View for RawEntryStream<E> {
    type V = EntriesState<E>;

    closed spec fn view(&self) -> EntriesState<E> {
        EntriesState { raw: self.upstream@, locked: self.locked }
    }
}

impl<E: Debug + Sync + Send + 'static> RawEntryStream<E> {
    /// The stream's invariant: that of its framer.
    pub closed spec fn wf(&self) -> bool {
        self.upstream.wf()
    }

    /// The invariant as it shows in the state.
    pub proof fn lemma_wf(&self)
        requires
            self.wf(),
        ensures
            raw_inv(self@.raw),
    {
        self.upstream.lemma_wf();
    }

    /// Offers the next chunk of the archive to the framer, which hands it
    /// back where it still has input at hand.
    pub fn feed(&mut self, chunk: Bytes) -> (r: Option<Bytes>)
        requires
            old(self).wf(),
        ensures
            final(self).wf(),
            old(self)@.raw.tail.len() == 0 ==> r is None && final(self)@ == (EntriesState {
                raw: RawState { tail: bytes_content(chunk), ..old(self)@.raw },
                ..old(self)@
            }),
            old(self)@.raw.tail.len() > 0 ==> r == Some(chunk) && final(self)@ == old(self)@,
    {
        self.upstream.feed(chunk)
    }

    /// Says that the input has ended.
    pub fn finish(&mut self)
        requires
            old(self).wf(),
        ensures
            final(self).wf(),
            final(self)@ == (EntriesState {
                raw: RawState { ended: true, ..old(self)@.raw },
                ..old(self)@
            }),
    {
        self.upstream.finish()
    }

    /// Says that the byte source failed.
    pub fn fail(&mut self, failure: E)
        requires
            old(self).wf(),
        ensures
            final(self).wf(),
            final(self)@ == (EntriesState {
                raw: RawState { failure: Some(failure), ..old(self)@.raw },
                ..old(self)@
            }),
    {
        self.upstream.fail(failure)
    }

    /// Whether an entry is handed out and not released.
    pub fn is_locked(&self) -> (r: bool)
        ensures
            r == self@.locked,
    {
        self.locked
    }

    /// Polls for the next entry.
    pub fn poll(&mut self) -> (r: Result<Async<Option<RawAsyncEntry>>, Error<E>>)
        requires
            old(self).wf(),
        ensures
            final(self).wf(),
            (final(self)@, entry_outcome(r)) == entry_step(old(self)@),
    {
        if self.locked {
            return Ok(Async::NotReady);
        }
        loop
            invariant
                self.wf(),
                !self.locked,
                entry_step(self@) == entry_step(old(self)@),
            decreases self@.raw.tail.len(),
        {
            proof {
                self.lemma_wf();
                lemma_raw_progress(self@.raw);
            }
            match self.upstream.poll() {
                Ok(Async::Ready(Some(RawTarItem::Header(header)))) => {
                    let size = match header_size(&header) {
                        Ok(size) => size,
                        Err(e) => {
                            return Err(Error::IoError(e));
                        },
                    };
                    self.locked = true;
                    return Ok(Async::Ready(Some(RawAsyncEntry { header, real_bytes: size })));
                },
                Ok(Async::Ready(Some(_))) => {},
                Ok(Async::Ready(None)) => {
                    return Ok(Async::Ready(None));
                },
                Ok(Async::NotReady) => {
                    return Ok(Async::NotReady);
                },
                Err(e) => {
                    return Err(e);
                },
            }
        }
    }

    /// Polls for the next piece of an entry's payload.
    pub fn poll_entry(&mut self, entry: &mut RawAsyncEntry) -> (r: Result<
        Async<Option<Bytes>>,
        Error<E>,
    >)
        requires
            old(self).wf(),
        ensures
            final(self).wf(),
            final(entry).block() == old(entry).block(),
            (final(self)@, final(entry).left(), payload_outcome(r)) == payload_step(
                old(self)@,
                old(entry).left(),
            ),
    {
        if entry.real_bytes == 0 {
            return Ok(Async::Ready(None));
        }
        match self.upstream.poll() {
            Ok(Async::Ready(Some(RawTarItem::Chunk(mut bytes)))) => {
                let len = bytes_len(&bytes);
                if len as u64 <= entry.real_bytes {
                    entry.real_bytes = entry.real_bytes - len as u64;
                    Ok(Async::Ready(Some(bytes)))
                } else {
                    let head = bytes_split_to(&mut bytes, entry.real_bytes as usize);
                    entry.real_bytes = 0;
                    Ok(Async::Ready(Some(head)))
                }
            },
            Ok(Async::Ready(Some(_))) => Err(Error::Format("read after end of file")),
            Ok(Async::Ready(None)) => Err(Error::UnexpectedEof),
            Ok(Async::NotReady) => Ok(Async::NotReady),
            Err(e) => Err(e),
        }
    }

    /// Takes back the entry that was handed out: the stream is unlocked, and
    /// what is left of the entry's payload will be passed over.
    pub fn release(&mut self, entry: RawAsyncEntry)
        requires
            old(self).wf(),
        ensures
            final(self).wf(),
            final(self)@ == (EntriesState { locked: false, ..old(self)@ }),
    {
        self.locked = false;
    }
}

/// A stream of raw entries for an archive that is yet to be fed.
pub fn decode_tar<E: Debug + Sync + Send + 'static>() -> (r: RawEntryStream<E>)
    ensures
        r.wf(),
        r@ == entries_start::<E>(),
{
    RawEntryStream { upstream: crate::decode::raw::decode_tar(), locked: false }
}

/// Payload is counted off: a poll for payload hands out no more than is left
/// to read of the entry and leaves that much less to read. It finds the end
/// only where nothing is left to read.
pub proof fn lemma_payload_is_counted<E>(s: EntriesState<E>, real_bytes: u64)
    ensures
        ({
            let polled = payload_step(s, real_bytes);
            match polled.2 {
                Polled::Item(chunk) => chunk.len() + polled.1 == real_bytes,
                Polled::End => polled.0 == s && real_bytes == 0,
                _ => polled.1 == real_bytes,
            }
        }),
{
}

/// The stream hands out one entry at a time: after an entry is handed out,
/// every poll for the next has to wait and changes nothing until the entry is
/// released.
pub proof fn lemma_one_entry_at_a_time<E>(s: EntriesState<E>)
    requires
        entry_step(s).1 is Item,
    ensures
        entry_step(s).0.locked,
        entry_step(entry_step(s).0) == (entry_step(s).0, Polled::<(Seq<u8>, u64), E>::NotReady),
    decreases s.raw.tail.len(),
{
    if !s.locked {
        let polled = raw_step(s.raw);
        match polled.1 {
            Polled::Item(RawItem::Header(_)) => {},
            Polled::Item(_) => {
                if polled.0.tail.len() < s.raw.tail.len() {
                    lemma_one_entry_at_a_time(EntriesState { raw: polled.0, ..s });
                }
            },
            _ => {},
        }
    }
}

} // verus!
