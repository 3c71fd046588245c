//! The raw framer: cuts a stream of byte chunks into header blocks and payload.
//!
//! An archive is a run of 512-byte blocks. A header block announces a payload,
//! which follows it and is padded to whole blocks; a block of zeros announces
//! nothing. The framer is fed the archive in chunks of any size and is polled
//! for the next item: a header, an empty block, or a piece of payload.
use super::buffer::buffer_as_slice;
use super::buffer::buffer_clear;
use super::buffer::buffer_content;
use super::buffer::buffer_extend_from_slice;
use super::buffer::buffer_len;
use super::buffer::buffer_with_capacity;
use super::buffer::bytes_as_slice;
use super::buffer::bytes_content;
use super::buffer::bytes_len;
use super::buffer::bytes_split_to;
use super::header::header_entry_size;
use super::header::tar_entry_size;
use super::header::Header;
use crate::error::Error;
use crate::error::Fault;
use bytes::Bytes;
use bytes::BytesMut;
use std::fmt::Debug;
use vstd::prelude::*;

verus! {

/// The answer to a poll that may have to wait for input.
#[derive(Debug)]
pub enum Async<T> {
    /// The value is there.
    Ready(T),
    /// Nothing yet: more input has to be fed first or, in a stream of nested
    /// entries, the entry that is out has to be read or released.
    NotReady,
}

/// One item of the framed archive.
#[derive(Debug)]
pub enum RawTarItem {
    /// A header block that is not all zeros.
    Header(Header),
    /// A block of zeros.
    EmptyHeader,
    /// A piece of the payload that the last header announced.
    Chunk(Bytes),
}

/// A framed item as contracts speak of it.
pub ghost enum RawItem {
    Header(Seq<u8>),
    EmptyHeader,
    Chunk(Seq<u8>),
}

impl View for RawTarItem {
    type V = RawItem;

    open spec fn view(&self) -> RawItem {
        match *self {
            RawTarItem::Header(h) => RawItem::Header(h@),
            RawTarItem::EmptyHeader => RawItem::EmptyHeader,
            RawTarItem::Chunk(b) => RawItem::Chunk(bytes_content(b)),
        }
    }
}

/// What a poll came to, as contracts speak of it.
pub ghost enum Polled<T, E> {
    /// The next item.
    Item(T),
    /// Nothing yet: more input has to be fed first or, in a stream of nested
    /// entries, the entry that is out has to be read or released.
    NotReady,
    /// The stream has ended.
    End,
    /// The poll failed.
    Failed(Fault<E>),
}

/// A poll's answer as a [`Polled`] value.
pub open spec fn raw_outcome<E: Debug + Sync + Send + 'static>(
    r: Result<Async<Option<RawTarItem>>, Error<E>>,
) -> Polled<RawItem, E> {
    match r {
        Ok(Async::Ready(Some(item))) => Polled::Item(item@),
        Ok(Async::Ready(None)) => Polled::End,
        Ok(Async::NotReady) => Polled::NotReady,
        Err(e) => Polled::Failed(e@),
    }
}

/// The state of a framer.
pub ghost struct RawState<E> {
    /// The bytes of a header block that is not whole yet.
    pub buffer: Seq<u8>,
    /// The input at hand: what is left of the chunk that was fed last.
    pub tail: Seq<u8>,
    /// How many bytes of payload are still to come.
    pub payload: nat,
    /// How many bytes of padding follow the payload.
    pub padding: nat,
    /// Whether the input was said to have ended.
    pub ended: bool,
    /// The failure of the byte source that waits to be reported.
    pub failure: Option<E>,
}

/// The state of a framer that has seen nothing.
pub open spec fn raw_start<E>() -> RawState<E> {
    RawState {
        buffer: Seq::empty(),
        tail: Seq::empty(),
        payload: 0,
        padding: 0,
        ended: false,
        failure: None,
    }
}

/// The padding after a payload of `size` bytes: what it lacks to whole blocks.
pub open spec fn padding_spec(size: nat) -> nat {
    ((512 - size % 512) % 512) as nat
}

/// Whether a block holds zeros only.
pub open spec fn is_zero_block(block: Seq<u8>) -> bool {
    forall|i: int| 0 <= i < block.len() ==> block[i] == 0
}

/// A poll that finds no input at hand: it reports the failure of the byte
/// source if there is one, else the end of the input if it was announced,
/// which is an error unless the archive stands `at_boundary` between two
/// entries; else it has to wait.
pub open spec fn starve<E>(s: RawState<E>, at_boundary: bool) -> (RawState<E>, Polled<RawItem, E>) {
    match s.failure {
        Some(e) => (RawState { failure: None, ..s }, Polled::Failed(Fault::Upstream(e))),
        None => if !s.ended {
            (s, Polled::NotReady)
        } else if at_boundary {
            (s, Polled::End)
        } else {
            (s, Polled::Failed(Fault::UnexpectedEof))
        },
    }
}

/// A poll between two entries: it completes the next header block from the
/// input at hand, or keeps what there is of it.
///
/// A whole block of zeros is an empty header. Any other block is a header,
/// whose size field sets the payload and the padding to come.
pub open spec fn header_step<E>(s: RawState<E>) -> (RawState<E>, Polled<RawItem, E>) {
    let need = 512 - s.buffer.len();
    if s.tail.len() >= need {
        let block = s.buffer + s.tail.take(need);
        let rest = RawState { buffer: Seq::empty(), tail: s.tail.skip(need), ..s };
        if is_zero_block(block) {
            (rest, Polled::Item(RawItem::EmptyHeader))
        } else {
            match tar_entry_size(block) {
                None => (rest, Polled::Failed(Fault::Io)),
                Some(size) => (
                    RawState { payload: size as nat, padding: padding_spec(size as nat), ..rest },
                    Polled::Item(RawItem::Header(block)),
                ),
            }
        }
    } else {
        let kept = RawState { buffer: s.buffer + s.tail, tail: Seq::empty(), ..s };
        starve(kept, kept.buffer.len() == 0)
    }
}

/// One poll of the framer: the state after it and what it answers.
///
/// Inside a payload, the input at hand is handed out as far as the payload
/// goes. Padding is dropped without a word, and the poll goes on to the next
/// header where the padding is through.
pub open spec fn raw_step<E>(s: RawState<E>) -> (RawState<E>, Polled<RawItem, E>) {
    if s.payload > 0 {
        if s.tail.len() == 0 {
            starve(s, false)
        } else {
            let m = if s.tail.len() <= s.payload {
                s.tail.len()
            } else {
                s.payload
            };
            (
                RawState { tail: s.tail.skip(m as int), payload: (s.payload - m) as nat, ..s },
                Polled::Item(RawItem::Chunk(s.tail.take(m as int))),
            )
        }
    } else if s.padding > 0 {
        let d = if s.tail.len() <= s.padding {
            s.tail.len()
        } else {
            s.padding
        };
        let t = RawState { tail: s.tail.skip(d as int), padding: (s.padding - d) as nat, ..s };
        if t.padding > 0 {
            starve(t, false)
        } else {
            header_step(t)
        }
    } else {
        header_step(s)
    }
}

/// What holds of every framer: a header block in the making is not whole,
/// and the padding is less than a block.
pub open spec fn raw_inv<E>(s: RawState<E>) -> bool {
    s.buffer.len() < 512 && s.padding < 512
}

/// A poll keeps what holds of every framer, and one that answers with an item
/// has used up some of the input at hand.
pub proof fn lemma_raw_progress<E>(s: RawState<E>)
    requires
        raw_inv(s),
    ensures
        raw_inv(raw_step(s).0),
        raw_step(s).0.tail.len() <= s.tail.len(),
        raw_step(s).1 is Item ==> raw_step(s).0.tail.len() < s.tail.len(),
{
}

/// The padding after a payload of `size` bytes.
pub fn padding_of(size: u64) -> (r: u64)
    ensures
        r == padding_spec(size as nat),
        r < 512,
{
    (512 - size % 512) % 512
}

/// Whether a header block holds zeros only.
pub fn is_empty_header(header: &Header) -> (r: bool)
    ensures
        r == is_zero_block(header@),
{
    let mut i: usize = 0;
    while i < 512
        invariant
            i <= 512,
            forall|j: int| 0 <= j < i ==> header@[j] == 0,
        decreases 512 - i,
    {
        if header.block[i] != 0 {
            return false;
        }
        i += 1;
    }
    true
}

/// Puts a header block together from its two parts.
fn assemble(first: &[u8], second: &[u8]) -> (r: Header)
    requires
        first@.len() + second@.len() == 512,
    ensures
        r@ == first@ + second@,
{
    let mut block = [0u8;512];
    let k = first.len();
    let mut i: usize = 0;
    while i < 512
        invariant
            i <= 512,
            k == first@.len(),
            first@.len() + second@.len() == 512,
            forall|j: int| 0 <= j < i ==> block@[j] == (first@ + second@)[j],
        decreases 512 - i,
    {
        let b = if i < k {
            first[i]
        } else {
            second[i - k]
        };
        block[i] = b;
        i += 1;
    }
    assert(block@ =~= first@ + second@);
    Header { block }
}

/// The framer.
pub struct RawTarStream<E> {
    buffer: BytesMut,
    tail: Option<Bytes>,
    payload: u64,
    padding: u64,
    ended: bool,
    failure: Option<E>,
}

impl<E: Debug + Sync + Send + 'static> View for RawTarStream<E> {
    type V = RawState<E>;

    closed spec fn view(&self) -> RawState<E> {
        RawState {
            buffer: buffer_content(self.buffer),
            tail: match self.tail {
                Some(b) => bytes_content(b),
                None => Seq::empty(),
            },
            payload: self.payload as nat,
            padding: self.padding as nat,
            ended: self.ended,
            failure: self.failure,
        }
    }
}

impl<E: Debug + Sync + Send + 'static> RawTarStream<E> {
    /// The framer's invariant: a header block in the making is not whole, the
    /// padding is less than a block, and no empty chunk is kept.
    pub closed spec fn wf(&self) -> bool {
        &&& buffer_content(self.buffer).len() < 512
        &&& self.padding < 512
        &&& match self.tail {
            Some(b) => bytes_content(b).len() > 0,
            None => true,
        }
    }

    /// The invariant as it shows in the state.
    pub proof fn lemma_wf(&self)
        requires
            self.wf(),
        ensures
            raw_inv(self@),
    {
    }

    /// A framer that has seen nothing.
    pub fn new() -> (r: Self)
        ensures
            r.wf(),
            r@ == raw_start::<E>(),
    {
        RawTarStream {
            buffer: buffer_with_capacity(BLOCK),
            tail: None,
            payload: 0,
            padding: 0,
            ended: false,
            failure: None,
        }
    }

    /// Offers the next chunk of the archive. The framer takes it where it has
    /// no input at hand; else it hands the chunk back, to be offered again
    /// after the next poll that answers `NotReady`.
    pub fn feed(&mut self, chunk: Bytes) -> (r: Option<Bytes>)
        requires
            old(self).wf(),
        ensures
            final(self).wf(),
            old(self)@.tail.len() == 0 ==> r is None && final(self)@ == (RawState {
                tail: bytes_content(chunk),
                ..old(self)@
            }),
            old(self)@.tail.len() > 0 ==> r == Some(chunk) && final(self)@ == old(self)@,
    {
        if self.tail.is_some() {
            return Some(chunk);
        }
        if bytes_len(&chunk) > 0 {
            self.tail = Some(chunk);
        } else {
            assert(bytes_content(chunk) =~= Seq::<u8>::empty());
        }
        None
    }

    /// Says that the input has ended: no chunk follows those that were fed.
    pub fn finish(&mut self)
        requires
            old(self).wf(),
        ensures
            final(self).wf(),
            final(self)@ == (RawState { ended: true, ..old(self)@ }),
    {
        self.ended = true;
    }

    /// Says that the byte source failed. The failure is reported by the poll
    /// that would have had to wait for input.
    pub fn fail(&mut self, failure: E)
        requires
            old(self).wf(),
        ensures
            final(self).wf(),
            final(self)@ == (RawState { failure: Some(failure), ..old(self)@ }),
    {
        self.failure = Some(failure);
    }

    /// Answers a poll that finds no input at hand.
    fn starve(&mut self, at_boundary: bool) -> (r: Result<Async<Option<RawTarItem>>, Error<E>>)
        requires
            old(self).wf(),
        ensures
            final(self).wf(),
            (final(self)@, raw_outcome(r)) == starve(old(self)@, at_boundary),
    {
        match self.failure.take() {
            Some(e) => Err(Error::UpstreamError(e)),
            None => if !self.ended {
                Ok(Async::NotReady)
            } else if at_boundary {
                Ok(Async::Ready(None))
            } else {
                Err(Error::UnexpectedEof)
            },
        }
    }

    /// Takes up to `limit` bytes from the front of the input at hand.
    /// Returns `None` where there is no input at hand.
    fn fetch_entry_bytes(&mut self, limit: u64) -> (r: Option<Bytes>)
        requires
            old(self).wf(),
            limit > 0,
        ensures
            final(self).wf(),
            match r {
                None => old(self)@.tail.len() == 0 && final(self)@ == old(self)@,
                Some(b) => {
                    let m = if old(self)@.tail.len() <= limit {
                        old(self)@.tail.len()
                    } else {
                        limit as nat
                    };
                    &&& old(self)@.tail.len() > 0
                    &&& bytes_content(b) == old(self)@.tail.take(m as int)
                    &&& final(self)@ == (RawState {
                        tail: old(self)@.tail.skip(m as int),
                        ..old(self)@
                    })
                },
            },
    {
        match self.tail.take() {
            None => None,
            Some(mut bytes) => {
                let len = bytes_len(&bytes);
                if len as u64 <= limit {
                    assert(bytes_content(bytes).take(len as int) =~= bytes_content(bytes));
                    assert(bytes_content(bytes).skip(len as int) =~= Seq::<u8>::empty());
                    Some(bytes)
                } else {
                    let head = bytes_split_to(&mut bytes, limit as usize);
                    self.tail = Some(bytes);
                    Some(head)
                }
            },
        }
    }

    /// Completes the next header block from the input at hand, or keeps what
    /// there is of it.
    fn fetch_header(&mut self) -> (r: Result<Async<Option<RawTarItem>>, Error<E>>)
        requires
            old(self).wf(),
        ensures
            final(self).wf(),
            (final(self)@, raw_outcome(r)) == header_step(old(self)@),
    {
        let need = BLOCK - buffer_len(&self.buffer);
        match self.fetch_entry_bytes(need as u64) {
            None => {
                assert(self@.buffer + self@.tail =~= self@.buffer);
            },
            Some(bytes) => {
                if bytes_len(&bytes) == need {
                    let header = assemble(buffer_as_slice(&self.buffer), bytes_as_slice(&bytes));
                    buffer_clear(&mut self.buffer);
                    if is_empty_header(&header) {
                        return Ok(Async::Ready(Some(RawTarItem::EmptyHeader)));
                    }
                    let size = match header_entry_size(&header) {
                        Ok(size) => size,
                        Err(e) => {
                            return Err(Error::IoError(e));
                        },
                    };
                    self.payload = size;
                    self.padding = padding_of(size);
                    return Ok(Async::Ready(Some(RawTarItem::Header(header))));
                }
                assert(bytes_content(bytes) =~= old(self)@.tail);
                buffer_extend_from_slice(&mut self.buffer, bytes_as_slice(&bytes));
            },
        }
        let at_boundary = buffer_len(&self.buffer) == 0;
        self.starve(at_boundary)
    }

    /// Polls for the next item.
    pub fn poll(&mut self) -> (r: Result<Async<Option<RawTarItem>>, Error<E>>)
        requires
            old(self).wf(),
        ensures
            final(self).wf(),
            (final(self)@, raw_outcome(r)) == raw_step(old(self)@),
    {
        if self.payload > 0 {
            return match self.fetch_entry_bytes(self.payload) {
                None => self.starve(false),
                Some(bytes) => {
                    self.payload = self.payload - bytes_len(&bytes) as u64;
                    Ok(Async::Ready(Some(RawTarItem::Chunk(bytes))))
                },
            };
        }
        if self.padding > 0 {
            match self.fetch_entry_bytes(self.padding) {
                None => {
                    assert(self@.tail.skip(0) =~= self@.tail);
                },
                Some(bytes) => {
                    self.padding = self.padding - bytes_len(&bytes) as u64;
                },
            }
            if self.padding > 0 {
                return self.starve(false);
            }
        }
        self.fetch_header()
    }
}

/// The capacity of the buffer in which a header block is put together.
const BLOCK: usize = 512;

/// A framer for an archive that is yet to be fed.
pub fn decode_tar<E: Debug + Sync + Send + 'static>() -> (r: RawTarStream<E>)
    ensures
        r.wf(),
        r@ == raw_start::<E>(),
{
    RawTarStream::new()
}

/// Padding is never seen: while padding is due, what the bytes are that fill
/// it makes no difference to the poll. And a piece of payload never reaches
/// into the padding: it holds no more than is left of the payload.
pub proof fn lemma_padding_is_invisible<E>(s: RawState<E>, other: Seq<u8>)
    requires
        raw_inv(s),
        other.len() == s.tail.len(),
        s.payload == 0 ==> other.skip(s.padding as int) == s.tail.skip(s.padding as int),
        s.payload > 0 ==> other == s.tail,
    ensures
        raw_step(RawState { tail: other, ..s }) == raw_step(s),
        raw_step(s).1 matches Polled::Item(RawItem::Chunk(chunk)) ==> chunk.len() <= s.payload
            && chunk.len() + raw_step(s).0.payload == s.payload,
{
    if s.payload == 0 && s.padding > 0 {
        let d = if s.tail.len() <= s.padding {
            s.tail.len() as int
        } else {
            s.padding as int
        };
        assert(other.skip(d) =~= s.tail.skip(d)) by {
            if s.tail.len() > s.padding {
            } else {
                assert(other.skip(d).len() == 0);
            }
        }
    } else if s.payload == 0 {
        assert(other.skip(0) =~= other);
        assert(s.tail.skip(0) =~= s.tail);
    }
}

} // verus!
