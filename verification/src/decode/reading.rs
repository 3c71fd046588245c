//! Reading the nested entry stream from its first entry to its last, and how
//! what is read depends on the chunks in which the archive comes: not at all.
use super::buffer::max_len;
use super::chunking::alike;
use super::chunking::bytewise;
use super::chunking::flat_drain;
use super::chunking::flat_run;
use super::chunking::lemma_bytewise_add;
use super::chunking::lemma_bytewise_one;
use super::chunking::pieces;
use super::chunking::with_input;
use super::chunking::with_raw;
use super::chunking::Run;
use super::flat::flat_step;
use super::flat::lemma_flat_progress;
use super::flat::FlatItem;
use super::flat::FlatState;
use super::full::after_end_text;
use super::full::deep_start;
use super::full::entry_data_step;
use super::full::lemma_skip_chunks;
use super::full::next_entry_step;
use super::full::skip_chunks;
use super::full::too_many_text;
use super::full::DeepState;
use super::raw::raw_inv;
use super::raw::Polled;
use super::raw::RawState;
use crate::error::Fault;
use vstd::prelude::*;

verus! {

/// What holds of every nested entry stream: its framer is in order, and its
/// counters are within 64 bits.
pub open spec fn deep_inv<E>(d: DeepState<E>) -> bool {
    raw_inv(d.flat.raw) && d.position <= u64::MAX && d.bytes <= u64::MAX
}

/// One poll of a reader that reads every entry to its end: for payload while
/// there is payload left to read, else for the next entry. Entries and pieces
/// of payload come out as one sequence of items.
pub open spec fn reader_step<E>(d: DeepState<E>) -> (DeepState<E>, Polled<FlatItem, E>) {
    if d.bytes > 0 {
        let polled = entry_data_step(d, d.position as u64);
        (
            polled.0,
            match polled.1 {
                Polled::Item(chunk) => Polled::Item(FlatItem::Chunk(chunk)),
                Polled::NotReady => Polled::NotReady,
                Polled::End => Polled::End,
                Polled::Failed(f) => Polled::Failed(f),
            },
        )
    } else {
        let polled = next_entry_step(d);
        (
            polled.0,
            match polled.1 {
                Polled::Item((entry, _)) => Polled::Item(FlatItem::Entry(entry)),
                Polled::NotReady => Polled::NotReady,
                Polled::End => Polled::End,
                Polled::Failed(f) => Polled::Failed(f),
            },
        )
    }
}

/// A poll of the reader keeps what holds of every stream, and one that
/// answers with an item has used up some of the input at hand.
pub proof fn lemma_reader_progress<E>(d: DeepState<E>)
    requires
        deep_inv(d),
    ensures
        deep_inv(reader_step(d).0),
        reader_step(d).0.flat.raw.tail.len() <= d.flat.raw.tail.len(),
        reader_step(d).1 is Item ==> reader_step(d).0.flat.raw.tail.len()
            < d.flat.raw.tail.len(),
{
    lemma_flat_progress(d.flat);
    lemma_skip_chunks(d.flat);
    lemma_skip_keeps(d.flat);
}

/// Skipping payload uses up input at hand and adds none.
pub proof fn lemma_skip_keeps<E>(s: FlatState<E>)
    requires
        raw_inv(s.raw),
    ensures
        skip_chunks(s).0.raw.tail.len() <= s.raw.tail.len(),
    decreases s.raw.tail.len(),
{
    lemma_flat_progress(s);
    let polled = flat_step(s);
    if polled.1 is Item && polled.1->Item_0 is Chunk {
        lemma_skip_keeps(polled.0);
    }
}

/// What a run of polls of the reader came to.
pub ghost struct Session<E> {
    /// The entries and the pieces of their payload, in order.
    pub items: Seq<FlatItem>,
    /// The state after the last poll.
    pub state: DeepState<E>,
    /// The answer of the last poll, which is no item.
    pub answer: Polled<FlatItem, E>,
}

/// Polls the reader until it answers with something else than an item.
pub open spec fn deep_drain<E>(d: DeepState<E>) -> Session<E>
    decreases d.flat.raw.tail.len(),
{
    let polled = reader_step(d);
    match polled.1 {
        Polled::Item(item) => if polled.0.flat.raw.tail.len() < d.flat.raw.tail.len() {
            let rest = deep_drain(polled.0);
            Session { items: seq![item] + rest.items, ..rest }
        } else {
            Session { items: Seq::empty(), state: polled.0, answer: Polled::NotReady }
        },
        answer => Session { items: Seq::empty(), state: polled.0, answer },
    }
}

/// The stream on top of another coalescer state.
pub open spec fn with_flat<E>(d: DeepState<E>, flat: FlatState<E>) -> DeepState<E> {
    DeepState { flat, ..d }
}

/// Reads an archive that comes in chunks, every entry to its end: polls the
/// reader, feeds the next chunk whenever it has to wait, and says that the
/// input has ended when it has to wait after the last chunk.
pub open spec fn deep_run<E>(d: DeepState<E>, chunks: Seq<Seq<u8>>) -> Session<E>
    decreases chunks.len(),
{
    let drained = deep_drain(d);
    if !(drained.answer is NotReady) {
        drained
    } else if chunks.len() == 0 {
        let last = deep_drain(
            with_flat(
                drained.state,
                with_raw(drained.state.flat, RawState { ended: true, ..drained.state.flat.raw }),
            ),
        );
        Session { items: drained.items + last.items, ..last }
    } else {
        let rest = deep_run(
            with_flat(drained.state, with_input(drained.state.flat, chunks.first())),
            chunks.drop_first(),
        );
        Session { items: drained.items + rest.items, ..rest }
    }
}

/// What the reader makes of the coalescer's items.
pub ghost struct Told<E> {
    /// The entries and the pieces of payload that the reader hands out.
    pub items: Seq<FlatItem>,
    /// The epoch of the entry that was handed out last.
    pub position: nat,
    /// How many bytes of that entry's payload are still to be read.
    pub bytes: nat,
    /// The error on which the reader stopped, if it did.
    pub failed: Option<Fault<E>>,
}

/// What the reader makes of the coalescer's items, with `bytes` left to read
/// of the entry of epoch `position`.
///
/// Payload is handed out as far as there is payload left to read and is
/// dropped beyond that. An entry is handed out when nothing is left to read;
/// before that it breaks the format. The reader stops when the epochs have run
/// out.
pub open spec fn told<E>(position: nat, bytes: nat, items: Seq<FlatItem>) -> Told<E>
    decreases items.len(),
{
    if bytes == 0 && position >= u64::MAX {
        Told {
            items: Seq::empty(),
            position,
            bytes,
            failed: Some(Fault::Format(too_many_text())),
        }
    } else if items.len() == 0 {
        Told { items: Seq::empty(), position, bytes, failed: None }
    } else {
        match items.first() {
            FlatItem::Chunk(chunk) => if bytes == 0 {
                told(position, bytes, items.drop_first())
            } else {
                let m = if chunk.len() <= bytes {
                    chunk.len()
                } else {
                    bytes
                };
                let rest = told::<E>(position, (bytes - m) as nat, items.drop_first());
                Told { items: seq![FlatItem::Chunk(chunk.take(m as int))] + rest.items, ..rest }
            },
            FlatItem::Entry(entry) => if bytes > 0 {
                Told {
                    items: Seq::empty(),
                    position,
                    bytes,
                    failed: Some(Fault::Format(after_end_text())),
                }
            } else {
                let rest = told::<E>(position + 1, entry.size as nat, items.drop_first());
                Told { items: seq![FlatItem::Entry(entry)] + rest.items, ..rest }
            },
        }
    }
}

/// The reader's answer when the coalescer answers with something else than an
/// item: the same, but that the end of the archive cuts a payload short.
pub open spec fn told_answer<E>(answer: Polled<FlatItem, E>, bytes: nat) -> Polled<FlatItem, E> {
    match answer {
        Polled::End => if bytes > 0 {
            Polled::Failed(Fault::UnexpectedEof)
        } else {
            Polled::End
        },
        other => other,
    }
}

/// What a run of the reader comes to according to the run of the coalescer
/// below it.
pub open spec fn follows<E>(session: Session<E>, d: DeepState<E>, run: Run<E>) -> bool {
    let t = told::<E>(d.position, d.bytes, run.items);
    &&& session.items == t.items
    &&& match t.failed {
        Some(f) => session.answer == Polled::<FlatItem, E>::Failed(f),
        None => {
            &&& session.state == (DeepState { flat: run.state, position: t.position, bytes: t.bytes })
            &&& session.answer == told_answer(run.answer, t.bytes)
        },
    }
}

/// A drain of the reader hands out what the reader makes of the drain of the
/// coalescer.
pub proof fn lemma_drain_told<E>(d: DeepState<E>)
    requires
        deep_inv(d),
    ensures
        follows(deep_drain(d), d, flat_drain(d.flat)),
        deep_inv(deep_drain(d).state),
    decreases d.flat.raw.tail.len(),
{
    lemma_flat_progress(d.flat);
    lemma_reader_progress(d);
    let polled = flat_step(d.flat);
    let fd = flat_drain(d.flat);
    if d.bytes > 0 {
        match polled.1 {
            Polled::Item(FlatItem::Chunk(chunk)) => {
                let next = reader_step(d).0;
                lemma_drain_told(next);
                assert(fd.items.first() == FlatItem::Chunk(chunk));
                assert(fd.items.drop_first() =~= flat_drain(polled.0).items);
                assert(chunk.take(chunk.len() as int) =~= chunk);
            },
            Polled::Item(FlatItem::Entry(entry)) => {
                assert(fd.items.first() == FlatItem::Entry(entry));
            },
            _ => {},
        }
    } else if d.position >= u64::MAX {
    } else {
        match polled.1 {
            Polled::Item(FlatItem::Chunk(chunk)) => {
                let next = with_flat(d, polled.0);
                lemma_skip_chunks(d.flat);
                assert(skip_chunks(d.flat) == skip_chunks(polled.0));
                assert(reader_step(d) == reader_step(next));
                lemma_reader_progress(next);
                assert(deep_drain(d) == deep_drain(next));
                lemma_drain_told(next);
                assert(fd.items.first() == FlatItem::Chunk(chunk));
                assert(fd.items.drop_first() =~= flat_drain(polled.0).items);
            },
            Polled::Item(FlatItem::Entry(entry)) => {
                let next = reader_step(d).0;
                lemma_drain_told(next);
                assert(fd.items.first() == FlatItem::Entry(entry));
                assert(fd.items.drop_first() =~= flat_drain(polled.0).items);
            },
            _ => {},
        }
    }
}

/// What the reader makes of items that follow one another: of the first as it
/// is, and of the others as it stands after the first, unless it stopped.
pub proof fn lemma_told_add<E>(position: nat, bytes: nat, x: Seq<FlatItem>, y: Seq<FlatItem>)
    ensures
        ({
            let first = told::<E>(position, bytes, x);
            let whole = told::<E>(position, bytes, x + y);
            let rest = told::<E>(first.position, first.bytes, y);
            match first.failed {
                Some(_) => whole == first,
                None => whole == (Told { items: first.items + rest.items, ..rest }),
            }
        }),
    decreases x.len(),
{
    let first = told::<E>(position, bytes, x);
    let rest = told::<E>(first.position, first.bytes, y);
    if bytes == 0 && position >= u64::MAX {
    } else if x.len() == 0 {
        assert(x + y =~= y);
        assert(first.items + rest.items =~= rest.items);
    } else {
        assert((x + y).first() == x.first());
        assert((x + y).drop_first() =~= x.drop_first() + y);
        match x.first() {
            FlatItem::Chunk(chunk) => {
                if bytes == 0 {
                    lemma_told_add::<E>(position, bytes, x.drop_first(), y);
                } else {
                    let m = if chunk.len() <= bytes {
                        chunk.len()
                    } else {
                        bytes
                    };
                    lemma_told_add::<E>(position, (bytes - m) as nat, x.drop_first(), y);
                    let inner = told::<E>(position, (bytes - m) as nat, x.drop_first());
                    let head = seq![FlatItem::Chunk(chunk.take(m as int))];
                    assert((head + inner.items) + rest.items =~= head + (inner.items + rest.items));
                }
            },
            FlatItem::Entry(entry) => {
                if bytes == 0 {
                    lemma_told_add::<E>(position + 1, entry.size as nat, x.drop_first(), y);
                    let inner = told::<E>(position + 1, entry.size as nat, x.drop_first());
                    let head = seq![FlatItem::Entry(entry)];
                    assert((head + inner.items) + rest.items =~= head + (inner.items + rest.items));
                }
            },
        }
    }
}

/// What a run of the reader came to, as the run of the coalescer below it
/// determines it.
pub open spec fn run_follows<E>(session: Session<E>, d: DeepState<E>, run: Run<E>) -> bool {
    let t = told::<E>(d.position, d.bytes, run.items);
    &&& session.items == t.items
    &&& session.answer == match t.failed {
        Some(f) => Polled::<FlatItem, E>::Failed(f),
        None => told_answer(run.answer, t.bytes),
    }
}

/// Reading the nested stream hands out what the reader makes of the items of
/// the coalescer, fed the same chunks.
pub proof fn lemma_run_told<E>(d: DeepState<E>, chunks: Seq<Seq<u8>>)
    requires
        deep_inv(d),
    ensures
        run_follows(deep_run(d, chunks), d, flat_run(d.flat, chunks)),
    decreases chunks.len(),
{
    let dd = deep_drain(d);
    let fd = flat_drain(d.flat);
    lemma_drain_told(d);
    let t = told::<E>(d.position, d.bytes, fd.items);
    if fd.answer is NotReady {
        if chunks.len() == 0 {
            let ended = with_raw(fd.state, RawState { ended: true, ..fd.state.raw });
            let last = flat_drain(ended);
            lemma_told_add::<E>(d.position, d.bytes, fd.items, last.items);
            if t.failed is None {
                lemma_drain_told(with_flat(dd.state, ended));
            }
        } else {
            let fed = with_input(fd.state, chunks.first());
            let rest = flat_run(fed, chunks.drop_first());
            lemma_told_add::<E>(d.position, d.bytes, fd.items, rest.items);
            if t.failed is None {
                lemma_run_told(with_flat(dd.state, fed), chunks.drop_first());
            }
        }
    }
}

/// The reader made the same of two sequences of items, but for the pieces into
/// which payload is cut.
pub open spec fn same_told<E>(a: Told<E>, b: Told<E>) -> bool {
    &&& bytewise(a.items) == bytewise(b.items)
    &&& a.position == b.position
    &&& a.bytes == b.bytes
    &&& a.failed == b.failed
}

/// Items led by one more item are byte by byte that item's pieces and then
/// the others'.
proof fn lemma_bytewise_first(item: FlatItem, rest: Seq<FlatItem>)
    ensures
        bytewise(seq![item] + rest) == pieces(item) + bytewise(rest),
{
    lemma_bytewise_add(seq![item], rest);
    lemma_bytewise_one(item);
}

/// The reader makes the same of a piece of payload as of its bytes one by one.
proof fn lemma_told_pieces<E>(position: nat, bytes: nat, chunk: Seq<u8>, rest: Seq<FlatItem>)
    ensures
        same_told(
            told::<E>(position, bytes, seq![FlatItem::Chunk(chunk)] + rest),
            told::<E>(position, bytes, pieces(FlatItem::Chunk(chunk)) + rest),
        ),
    decreases chunk.len(),
{
    let whole = seq![FlatItem::Chunk(chunk)] + rest;
    let apart = pieces(FlatItem::Chunk(chunk)) + rest;
    assert(whole.first() == FlatItem::Chunk(chunk));
    assert(whole.drop_first() =~= rest);
    if bytes == 0 && position >= u64::MAX {
    } else if chunk.len() == 0 {
        assert(apart =~= rest);
        if bytes > 0 {
            let after = told::<E>(position, bytes, rest);
            assert(chunk.take(0) =~= chunk);
            lemma_bytewise_first(FlatItem::Chunk(chunk), after.items);
            assert(pieces(FlatItem::Chunk(chunk)) =~= Seq::<FlatItem>::empty());
            assert(pieces(FlatItem::Chunk(chunk)) + bytewise(after.items) =~= bytewise(
                after.items,
            ));
        }
    } else {
        let byte = seq![chunk[0]];
        let later = chunk.skip(1);
        assert(apart.first() == FlatItem::Chunk(byte));
        assert(apart.drop_first() =~= pieces(FlatItem::Chunk(later)) + rest);
        if bytes == 0 {
            lemma_told_pieces::<E>(position, bytes, later, rest);
            let joined = seq![FlatItem::Chunk(later)] + rest;
            assert(joined.first() == FlatItem::Chunk(later));
            assert(joined.drop_first() =~= rest);
        } else {
            let left = (bytes - 1) as nat;
            lemma_told_pieces::<E>(position, left, later, rest);
            let joined = seq![FlatItem::Chunk(later)] + rest;
            assert(joined.first() == FlatItem::Chunk(later));
            assert(joined.drop_first() =~= rest);
            assert(byte.take(1) =~= byte);
            let m = if chunk.len() <= bytes {
                chunk.len()
            } else {
                bytes
            };
            let by_bytes = told::<E>(position, left, pieces(FlatItem::Chunk(later)) + rest);
            let by_chunk = told::<E>(position, left, joined);
            lemma_bytewise_first(FlatItem::Chunk(byte), by_bytes.items);
            let after = told::<E>(position, (bytes - m) as nat, rest);
            lemma_bytewise_first(FlatItem::Chunk(chunk.take(m as int)), after.items);
            if left == 0 {
                assert(chunk.take(1) =~= byte);
                if position >= u64::MAX {
                } else {
                    assert(by_chunk == after);
                }
            } else {
                let k = (m - 1) as int;
                lemma_bytewise_first(FlatItem::Chunk(later.take(k)), after.items);
                assert(chunk.take(m as int) =~= byte + later.take(k));
                super::chunking::lemma_pieces_add(byte, later.take(k));
                assert((pieces(FlatItem::Chunk(byte)) + pieces(FlatItem::Chunk(later.take(k))))
                    + bytewise(after.items) =~= pieces(FlatItem::Chunk(byte)) + (pieces(
                    FlatItem::Chunk(later.take(k)),
                ) + bytewise(after.items)));
            }
        }
    }
}

/// The reader makes the same of items as of the same items byte by byte.
pub proof fn lemma_told_bytewise<E>(position: nat, bytes: nat, items: Seq<FlatItem>)
    ensures
        same_told(told::<E>(position, bytes, items), told::<E>(position, bytes, bytewise(items))),
    decreases items.len(),
{
    if items.len() == 0 {
    } else {
        let first = items.first();
        let rest = items.drop_first();
        assert(items =~= seq![first] + rest);
        lemma_bytewise_first(first, rest);
        match first {
            FlatItem::Chunk(chunk) => {
                lemma_told_pieces::<E>(position, bytes, chunk, bytewise(rest));
                let joined = seq![first] + bytewise(rest);
                assert(joined.first() == first);
                assert(joined.drop_first() =~= bytewise(rest));
                if bytes == 0 && position >= u64::MAX {
                } else if bytes == 0 {
                    lemma_told_bytewise::<E>(position, bytes, rest);
                } else {
                    let m = if chunk.len() <= bytes {
                        chunk.len()
                    } else {
                        bytes
                    };
                    let left = (bytes - m) as nat;
                    lemma_told_bytewise::<E>(position, left, rest);
                    let head = FlatItem::Chunk(chunk.take(m as int));
                    lemma_bytewise_first(head, told::<E>(position, left, rest).items);
                    lemma_bytewise_first(head, told::<E>(position, left, bytewise(rest)).items);
                }
            },
            FlatItem::Entry(entry) => {
                assert(pieces(first) =~= seq![first]);
                let joined = seq![first] + bytewise(rest);
                assert(joined.first() == first);
                assert(joined.drop_first() =~= bytewise(rest));
                if bytes == 0 && position < u64::MAX {
                    lemma_told_bytewise::<E>(position + 1, entry.size as nat, rest);
                    lemma_bytewise_first(
                        first,
                        told::<E>(position + 1, entry.size as nat, rest).items,
                    );
                    lemma_bytewise_first(
                        first,
                        told::<E>(position + 1, entry.size as nat, bytewise(rest)).items,
                    );
                }
            },
        }
    }
}

/// Two sessions handed out the same but for the pieces into which payload is
/// cut, and ended the same way.
pub open spec fn same_session<E>(a: Session<E>, b: Session<E>) -> bool {
    bytewise(a.items) == bytewise(b.items) && a.answer == b.answer
}

/// Chunking is invisible to the reader: two ways of cutting the same archive
/// into chunks give the same entries, each with the same payload byte by
/// byte, and the same end or the same error. This holds of archives that a
/// buffer could hold.
pub proof fn lemma_reading_is_chunk_invariant<E>(first: Seq<Seq<u8>>, second: Seq<Seq<u8>>)
    requires
        first.flatten() == second.flatten(),
        first.flatten().len() <= max_len(),
    ensures
        same_session(deep_run(deep_start::<E>(), first), deep_run(deep_start::<E>(), second)),
{
    let d = deep_start::<E>();
    super::chunking::lemma_chunking_is_invisible::<E>(first, second);
    lemma_run_told(d, first);
    lemma_run_told(d, second);
    let one = flat_run(d.flat, first);
    let other = flat_run(d.flat, second);
    lemma_told_bytewise::<E>(d.position, d.bytes, one.items);
    lemma_told_bytewise::<E>(d.position, d.bytes, other.items);
}

} // verus!
