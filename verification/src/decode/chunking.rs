//! How the decoders' output depends on the chunks in which an archive comes:
//! not at all, but for the pieces into which payload is cut.
use super::buffer::max_len;
use super::flat::flat_step;
use super::flat::flat_turn;
use super::flat::FlatItem;
use super::flat::FlatState;
use super::flat::Mode;
use super::flat::Turn;
use super::pax::decode_spec;
use super::raw::lemma_raw_progress;
use super::raw::raw_inv;
use super::raw::raw_step;
use super::raw::Polled;
use super::raw::RawItem;
use super::raw::RawState;
use vstd::prelude::*;

verus! {

/// The framer with other input at hand.
pub open spec fn with_tail<E>(r: RawState<E>, tail: Seq<u8>) -> RawState<E> {
    RawState { tail, ..r }
}

/// How a poll of the framer relates to the poll with the further input `y`
/// at hand: it comes to the same, unless it ran out of input, and then the
/// poll with `y` comes to what the next poll, with `y` alone, comes to. Only
/// a piece of payload grows by the payload that follows it.
pub open spec fn raw_boundary<E>(r: RawState<E>, y: Seq<u8>) -> bool {
    let first = raw_step(r);
    let whole = raw_step(with_tail(r, r.tail + y));
    let same = (with_tail(first.0, first.0.tail + y), first.1);
    let rest = raw_step(with_tail(first.0, y));
    match first.1 {
        Polled::NotReady => first.0.tail.len() == 0 && whole == rest,
        Polled::End => false,
        Polled::Failed(_) => whole == same,
        Polled::Item(RawItem::Chunk(chunk)) => if first.0.payload > 0 && y.len() > 0 {
            &&& first.0.tail.len() == 0
            &&& rest.1 matches Polled::Item(RawItem::Chunk(more))
            &&& whole == (rest.0, Polled::<RawItem, E>::Item(RawItem::Chunk(chunk + more)))
        } else {
            whole == same
        },
        Polled::Item(_) => whole == same,
    }
}

/// More input at hand changes a poll between two entries only where it ran
/// out of input.
proof fn lemma_header_boundary<E>(r: RawState<E>, y: Seq<u8>)
    requires
        raw_inv(r),
        !r.ended,
        r.failure is None,
        r.payload == 0,
        r.padding == 0,
    ensures
        raw_boundary(r, y),
{
    let x = r.tail;
    let first = raw_step(r);
    let need = 512 - r.buffer.len();
    if x.len() >= need {
        assert((x + y).take(need) =~= x.take(need));
        assert((x + y).skip(need) =~= x.skip(need) + y);
    } else {
        let need2 = need - x.len();
        assert(first.0.buffer == r.buffer + x);
        if y.len() >= need2 {
            assert(r.buffer + (x + y).take(need) =~= (r.buffer + x) + y.take(need2));
            assert((x + y).skip(need) =~= y.skip(need2));
        } else {
            assert(r.buffer + (x + y) =~= (r.buffer + x) + y);
        }
    }
}

/// More input at hand changes a poll inside a payload only where it ran out
/// of input.
proof fn lemma_payload_boundary<E>(r: RawState<E>, y: Seq<u8>)
    requires
        raw_inv(r),
        !r.ended,
        r.failure is None,
        r.payload > 0,
    ensures
        raw_boundary(r, y),
{
    let x = r.tail;
    if x.len() == 0 {
        assert(x + y =~= y);
    } else if x.len() < r.payload && y.len() > 0 {
        let m = if y.len() <= r.payload - x.len() {
            y.len() as int
        } else {
            r.payload - x.len()
        };
        assert((x + y).take(x.len() + m) =~= x.take(x.len() as int) + y.take(m));
        assert((x + y).skip(x.len() + m) =~= y.skip(m));
        assert(x.skip(x.len() as int) =~= Seq::<u8>::empty());
    } else if x.len() <= r.payload {
        assert((x + y).take(x.len() as int) =~= x.take(x.len() as int));
        assert((x + y).skip(x.len() as int) =~= x.skip(x.len() as int) + y);
    } else {
        assert((x + y).take(r.payload as int) =~= x.take(r.payload as int));
        assert((x + y).skip(r.payload as int) =~= x.skip(r.payload as int) + y);
    }
}

/// More input at hand changes a poll of the framer only where it ran out of
/// input.
pub proof fn lemma_raw_boundary<E>(r: RawState<E>, y: Seq<u8>)
    requires
        raw_inv(r),
        !r.ended,
        r.failure is None,
    ensures
        raw_boundary(r, y),
{
    let x = r.tail;
    if r.payload > 0 {
        lemma_payload_boundary(r, y);
    } else if r.padding > 0 {
        let d = if x.len() <= r.padding {
            x.len() as int
        } else {
            r.padding as int
        };
        let t = RawState { tail: x.skip(d), padding: (r.padding - d) as nat, ..r };
        if t.padding > 0 {
            // The input ran out inside the padding.
            let d2 = if y.len() <= t.padding {
                y.len() as int
            } else {
                t.padding as int
            };
            assert(x.skip(d).len() == 0);
            assert((x + y).skip(d + d2) =~= y.skip(d2));
            assert(with_tail(t, y).tail.skip(d2) =~= y.skip(d2));
        } else {
            assert((x + y).skip(d) =~= x.skip(d) + y);
            lemma_header_boundary(t, y);
            assert(raw_step(r) == raw_step(t));
            assert(raw_step(with_tail(r, x + y)) == raw_step(with_tail(t, t.tail + y)));
        }
    } else {
        lemma_header_boundary(r, y);
    }
}

/// The coalescer on top of another framer state.
pub open spec fn with_raw<E>(s: FlatState<E>, raw: RawState<E>) -> FlatState<E> {
    FlatState { raw, ..s }
}

/// The coalescer with other input at hand.
pub open spec fn with_input<E>(s: FlatState<E>, tail: Seq<u8>) -> FlatState<E> {
    with_raw(s, with_tail(s.raw, tail))
}

/// What a run of polls came to.
pub ghost struct Run<E> {
    /// The items that were handed out, in order.
    pub items: Seq<FlatItem>,
    /// The state after the last poll.
    pub state: FlatState<E>,
    /// The answer of the last poll, which is no item.
    pub answer: Polled<FlatItem, E>,
}

/// Polls the coalescer until it answers with something else than an item.
pub open spec fn flat_drain<E>(s: FlatState<E>) -> Run<E>
    decreases s.raw.tail.len(),
{
    let polled = flat_step(s);
    match polled.1 {
        Polled::Item(item) => if polled.0.raw.tail.len() < s.raw.tail.len() {
            let rest = flat_drain(polled.0);
            Run { items: seq![item] + rest.items, ..rest }
        } else {
            Run { items: Seq::empty(), state: polled.0, answer: Polled::NotReady }
        },
        answer => Run { items: Seq::empty(), state: polled.0, answer },
    }
}

/// Reads an archive that comes in chunks: polls the coalescer, feeds it the
/// next chunk whenever it has to wait, and says that the input has ended when
/// it has to wait after the last chunk.
pub open spec fn flat_run<E>(s: FlatState<E>, chunks: Seq<Seq<u8>>) -> Run<E>
    decreases chunks.len(),
{
    let drained = flat_drain(s);
    if !(drained.answer is NotReady) {
        drained
    } else if chunks.len() == 0 {
        let last = flat_drain(with_raw(drained.state, RawState { ended: true, ..drained.state.raw }));
        Run { items: drained.items + last.items, ..last }
    } else {
        let rest = flat_run(with_input(drained.state, chunks.first()), chunks.drop_first());
        Run { items: drained.items + rest.items, ..rest }
    }
}

/// An item byte by byte: a piece of payload as one piece for each of its bytes.
pub open spec fn pieces(item: FlatItem) -> Seq<FlatItem> {
    match item {
        FlatItem::Chunk(chunk) => Seq::new(chunk.len(), |i: int| FlatItem::Chunk(seq![chunk[i]])),
        entry => seq![entry],
    }
}

/// Items with the payload byte by byte: what was handed out, with the
/// boundaries between pieces of payload forgotten.
pub open spec fn bytewise(items: Seq<FlatItem>) -> Seq<FlatItem>
    decreases items.len(),
{
    if items.len() == 0 {
        Seq::empty()
    } else {
        bytewise(items.drop_last()) + pieces(items.last())
    }
}

/// Items that follow one another are byte by byte what each of them is.
pub proof fn lemma_bytewise_add(a: Seq<FlatItem>, b: Seq<FlatItem>)
    ensures
        bytewise(a + b) == bytewise(a) + bytewise(b),
    decreases b.len(),
{
    if b.len() == 0 {
        assert(a + b =~= a);
        assert(bytewise(a) + bytewise(b) =~= bytewise(a));
    } else {
        assert((a + b).drop_last() =~= a + b.drop_last());
        assert((a + b).last() == b.last());
        lemma_bytewise_add(a, b.drop_last());
        assert(bytewise(a + b) =~= bytewise(a) + bytewise(b));
    }
}

/// A piece of payload is byte by byte what its two parts are.
pub proof fn lemma_pieces_add(a: Seq<u8>, b: Seq<u8>)
    ensures
        pieces(FlatItem::Chunk(a + b)) == pieces(FlatItem::Chunk(a)) + pieces(FlatItem::Chunk(b)),
{
    assert(pieces(FlatItem::Chunk(a + b)) =~= pieces(FlatItem::Chunk(a)) + pieces(
        FlatItem::Chunk(b),
    ));
}

/// One item is byte by byte its pieces.
pub proof fn lemma_bytewise_one(item: FlatItem)
    ensures
        bytewise(seq![item]) == pieces(item),
{
    assert(seq![item].drop_last() =~= Seq::<FlatItem>::empty());
    assert(seq![item].last() == item);
    assert(bytewise(seq![item].drop_last()) =~= Seq::<FlatItem>::empty());
    assert(bytewise(seq![item]) == bytewise(seq![item].drop_last()) + pieces(seq![item].last()));
    assert(bytewise(seq![item]) =~= pieces(item));
}

/// A verdict of the coalescer on top of another framer state.
pub open spec fn turn_with_raw<E>(t: Turn<E>, raw: RawState<E>) -> Turn<E> {
    match t {
        Turn::Continue(next) => Turn::Continue(with_raw(next, raw)),
        Turn::Done(next, answer) => Turn::Done(with_raw(next, raw), answer),
    }
}

/// What the coalescer makes of an answer does not depend on the framer.
pub proof fn lemma_turn_raw<E>(s: FlatState<E>, raw: RawState<E>, answer: Polled<RawItem, E>)
    ensures
        flat_turn(with_raw(s, raw), answer) == turn_with_raw(flat_turn(s, answer), raw),
{
}

/// Input can still come: the framer is in order, the input has not ended, and
/// the byte source has not failed.
pub open spec fn input_open<E>(s: FlatState<E>) -> bool {
    raw_inv(s.raw) && !s.raw.ended && s.raw.failure is None
}

/// How many bytes the record in the making holds.
pub open spec fn mode_len(mode: Mode) -> nat {
    match mode {
        Mode::Clean => 0,
        Mode::InGnuLongName(name) => name.len(),
        Mode::InGnuLongLink(name) => name.len(),
        Mode::InPaxExtensions { attributes, pending } => pending.len(),
    }
}

/// The record in the making, the input at hand and `more` bytes of input
/// together are no more than a buffer can hold.
pub open spec fn within_limit<E>(s: FlatState<E>, more: nat) -> bool {
    mode_len(s.mode) + s.raw.tail.len() + more <= max_len()
}

/// A drain, one poll of the framer at a time.
pub open spec fn drain_unfolded<E>(s: FlatState<E>) -> Run<E> {
    let polled = raw_step(s.raw);
    match flat_turn(with_raw(s, polled.0), polled.1) {
        Turn::Continue(next) => flat_drain(next),
        Turn::Done(next, Polled::Item(item)) => Run {
            items: seq![item] + flat_drain(next).items,
            ..flat_drain(next)
        },
        Turn::Done(next, answer) => Run { items: Seq::empty(), state: next, answer },
    }
}

/// A drain goes one poll of the framer at a time.
pub proof fn lemma_drain_unfold<E>(s: FlatState<E>)
    requires
        raw_inv(s.raw),
    ensures
        flat_drain(s) == drain_unfolded(s),
{
    let polled = raw_step(s.raw);
    lemma_raw_progress(s.raw);
    super::flat::lemma_flat_step(s);
    super::flat::lemma_turn_keeps_raw(with_raw(s, polled.0), polled.1);
    match flat_turn(with_raw(s, polled.0), polled.1) {
        Turn::Continue(next) => {
            super::flat::lemma_flat_progress(next);
        },
        Turn::Done(next, answer) => {},
    }
}

/// A poll of the framer and what the coalescer makes of it move bytes from
/// the input at hand to the record in the making, and add none.
pub proof fn lemma_turn_limit<E>(s: FlatState<E>)
    requires
        input_open(s),
        within_limit(s, 0),
    ensures
        ({
            let polled = raw_step(s.raw);
            let next = match flat_turn(with_raw(s, polled.0), polled.1) {
                Turn::Continue(next) => next,
                Turn::Done(next, _) => next,
            };
            &&& next.raw == polled.0
            &&& input_open(next)
            &&& mode_len(next.mode) + next.raw.tail.len() <= mode_len(s.mode) + s.raw.tail.len()
        }),
{
    let polled = raw_step(s.raw);
    lemma_raw_progress(s.raw);
    match polled.1 {
        Polled::Item(RawItem::Chunk(chunk)) => {
            assert(chunk.len() + polled.0.tail.len() == s.raw.tail.len());
            match s.mode {
                Mode::InPaxExtensions { attributes, pending } => {
                    super::pax::lemma_pending_bound(attributes, pending + chunk);
                },
                _ => {},
            }
        },
        _ => {},
    }
}

/// A drain that finds no input at hand has to wait and changes nothing but
/// what the framer keeps of a header block.
proof fn lemma_drain_starved<E>(s: FlatState<E>)
    requires
        input_open(s),
        raw_step(s.raw).1 is NotReady,
    ensures
        flat_drain(s) == (Run {
            items: Seq::empty(),
            state: with_raw(s, raw_step(s.raw).0),
            answer: Polled::NotReady,
        }),
{
    lemma_drain_unfold(s);
}

/// How a drain relates to the drain with the further input `y` at hand: what
/// is handed out is the same byte by byte, whether `y` is there at once or is
/// fed when the coalescer has to wait; and where the drain fails, the drain
/// with `y` fails alike.
pub open spec fn split_holds<E>(s: FlatState<E>, y: Seq<u8>) -> bool {
    let first = flat_drain(s);
    let whole = flat_drain(with_input(s, s.raw.tail + y));
    if first.answer is NotReady {
        let rest = flat_drain(with_input(first.state, y));
        &&& first.state.raw.tail.len() == 0
        &&& input_open(first.state)
        &&& within_limit(first.state, y.len())
        &&& bytewise(whole.items) == bytewise(first.items + rest.items)
        &&& whole.state == rest.state
        &&& whole.answer == rest.answer
    } else {
        &&& bytewise(whole.items) == bytewise(first.items)
        &&& whole.answer == first.answer
    }
}

/// The split where the input at hand runs out inside a payload: the next
/// piece of payload comes in two parts, or in one.
proof fn lemma_split_chunk<E>(s: FlatState<E>, y: Seq<u8>)
    requires
        input_open(s),
        within_limit(s, y.len()),
        y.len() > 0,
        raw_step(s.raw).1 is Item,
        raw_step(s.raw).1->Item_0 is Chunk,
        raw_step(s.raw).0.payload > 0,
    ensures
        split_holds(s, y),
{
    let r = s.raw;
    let x = r.tail;
    let first = raw_step(r);
    let chunk = first.1->Item_0->Chunk_0;
    let rest = raw_step(with_tail(first.0, y));
    lemma_raw_boundary(r, y);
    lemma_raw_progress(r);
    let more = rest.1->Item_0->Chunk_0;
    let whole = with_input(s, x + y);
    assert(raw_step(whole.raw) == (rest.0, Polled::<RawItem, E>::Item(RawItem::Chunk(chunk + more))));
    assert(chunk.len() == x.len());
    lemma_raw_progress(with_tail(first.0, y));
    assert(more.len() + rest.0.tail.len() == y.len());
    lemma_drain_unfold(s);
    lemma_drain_unfold(whole);
    let s1 = with_raw(s, first.0);
    lemma_turn_raw(s, first.0, first.1);
    lemma_turn_raw(s, rest.0, Polled::<RawItem, E>::Item(RawItem::Chunk(chunk + more)));
    assert(with_raw(whole, rest.0) == with_raw(s, rest.0));
    assert(raw_step(first.0).1 is NotReady && raw_step(first.0).0 == first.0);
    match s.mode {
        Mode::Clean => {
            lemma_drain_starved(s1);
            let after = with_input(s1, y);
            lemma_drain_unfold(after);
            assert(with_raw(after, rest.0) == with_raw(s, rest.0));
            let tail_run = flat_drain(with_raw(s, rest.0));
            let c1 = FlatItem::Chunk(chunk);
            let c2 = FlatItem::Chunk(more);
            let c = FlatItem::Chunk(chunk + more);
            assert(flat_drain(s).items =~= seq![c1]);
            assert(flat_drain(after).items == seq![c2] + tail_run.items);
            assert(flat_drain(whole).items == seq![c] + tail_run.items);
            lemma_bytewise_add(seq![c], tail_run.items);
            lemma_bytewise_add(seq![c1], seq![c2] + tail_run.items);
            lemma_bytewise_add(seq![c2], tail_run.items);
            lemma_bytewise_one(c);
            lemma_bytewise_one(c1);
            lemma_bytewise_one(c2);
            lemma_pieces_add(chunk, more);
            assert(bytewise(seq![c] + tail_run.items) =~= bytewise(
                seq![c1] + (seq![c2] + tail_run.items),
            ));
        },
        Mode::InGnuLongName(name) => {
            let n1 = FlatState { mode: Mode::InGnuLongName(name + chunk), ..s1 };
            lemma_drain_starved(n1);
            let after = with_input(n1, y);
            lemma_drain_unfold(after);
            lemma_turn_raw(n1, rest.0, rest.1);
            assert((name + chunk) + more =~= name + (chunk + more));
            assert(with_raw(after, rest.0) == with_raw(n1, rest.0));
        },
        Mode::InGnuLongLink(name) => {
            let n1 = FlatState { mode: Mode::InGnuLongLink(name + chunk), ..s1 };
            lemma_drain_starved(n1);
            let after = with_input(n1, y);
            lemma_drain_unfold(after);
            lemma_turn_raw(n1, rest.0, rest.1);
            assert((name + chunk) + more =~= name + (chunk + more));
            assert(with_raw(after, rest.0) == with_raw(n1, rest.0));
        },
        Mode::InPaxExtensions { attributes, pending } => {
            let head = decode_spec(attributes, pending + chunk);
            super::pax::lemma_pending_bound(attributes, pending + chunk);
            assert((pending + chunk) + more =~= pending + (chunk + more));
            if head.error is Some {
                super::pax::lemma_error_persists(attributes, pending + chunk, more);
            } else {
                super::pax::lemma_decode_split(attributes, pending + chunk, more);
                let n1 = FlatState {
                    mode: Mode::InPaxExtensions { attributes: head.attributes, pending: head.pending },
                    ..s1
                };
                lemma_drain_starved(n1);
                let after = with_input(n1, y);
                lemma_drain_unfold(after);
                lemma_turn_raw(n1, rest.0, rest.1);
                assert(with_raw(after, rest.0) == with_raw(n1, rest.0));
            }
        },
    }
}

/// Where the input is cut makes no difference to a drain but for the pieces
/// into which payload is cut.
pub proof fn lemma_split<E>(s: FlatState<E>, y: Seq<u8>)
    requires
        input_open(s),
        within_limit(s, y.len()),
    ensures
        split_holds(s, y),
    decreases s.raw.tail.len(),
{
    let r = s.raw;
    let x = r.tail;
    let first = raw_step(r);
    let whole = with_input(s, x + y);
    lemma_raw_boundary(r, y);
    lemma_raw_progress(r);
    lemma_drain_unfold(s);
    lemma_drain_unfold(whole);
    lemma_turn_limit(s);
    let s1 = with_raw(s, first.0);
    let grown = with_tail(first.0, first.0.tail + y);
    match first.1 {
        Polled::NotReady => {
            let after = with_input(s1, y);
            lemma_drain_unfold(after);
            assert(with_raw(after, raw_step(after.raw).0) == with_raw(
                whole,
                raw_step(whole.raw).0,
            ));
            assert(flat_drain(s).items + flat_drain(after).items =~= flat_drain(after).items);
        },
        Polled::End => {},
        Polled::Failed(f) => {
            assert(raw_step(whole.raw) == (grown, first.1));
        },
        Polled::Item(item) => {
            if item is Chunk && first.0.payload > 0 && y.len() > 0 {
                lemma_split_chunk(s, y);
            } else {
                assert(raw_step(whole.raw) == (grown, first.1));
                lemma_turn_raw(s1, grown, first.1);
                assert(with_raw(whole, grown) == with_raw(s1, grown));
                assert(with_raw(s1, first.0) == s1);
                match flat_turn(s1, first.1) {
                    Turn::Continue(next) => {
                        assert(with_raw(next, grown) == with_input(next, next.raw.tail + y));
                        lemma_split(next, y);
                    },
                    Turn::Done(next, Polled::Item(out)) => {
                        assert(with_raw(next, grown) == with_input(next, next.raw.tail + y));
                        lemma_split(next, y);
                        let d = flat_drain(next);
                        let w = flat_drain(with_input(next, next.raw.tail + y));
                        lemma_bytewise_add(seq![out], w.items);
                        lemma_bytewise_add(seq![out], d.items);
                        if d.answer is NotReady {
                            let rest = flat_drain(with_input(d.state, y));
                            lemma_bytewise_add(seq![out], d.items + rest.items);
                            assert((seq![out] + d.items) + rest.items =~= seq![out] + (d.items
                                + rest.items));
                        }
                    },
                    Turn::Done(next, answer) => {},
                }
            }
        },
    }
}

/// Two runs hand out the same but for the pieces into which payload is cut,
/// and end the same way.
pub open spec fn alike<E>(a: Run<E>, b: Run<E>) -> bool {
    bytewise(a.items) == bytewise(b.items) && a.answer == b.answer
}

/// Reading an archive in chunks comes to what reading it in one piece comes to.
pub proof fn lemma_run_is_whole<E>(s: FlatState<E>, chunks: Seq<Seq<u8>>)
    requires
        input_open(s),
        within_limit(s, chunks.flatten().len()),
    ensures
        alike(
            flat_run(s, chunks),
            flat_run(with_input(s, s.raw.tail + chunks.flatten()), Seq::empty()),
        ),
    decreases chunks.len(),
{
    let x = s.raw.tail;
    let y = chunks.flatten();
    if chunks.len() == 0 {
        assert(x + y =~= x);
        assert(with_input(s, x + y) == s);
    } else {
        let c = chunks.first();
        let later = chunks.drop_first();
        assert(y == c + later.flatten());
        lemma_split(s, y);
        let d = flat_drain(s);
        let whole = flat_drain(with_input(s, x + y));
        if d.answer is NotReady {
            let fed = with_input(d.state, c);
            lemma_run_is_whole(fed, later);
            assert(with_input(fed, fed.raw.tail + later.flatten()) == with_input(d.state, y));
            let rest = flat_drain(with_input(d.state, y));
            let left = flat_run(fed, later);
            let right = flat_run(with_input(d.state, y), Seq::empty());
            lemma_bytewise_add(d.items, left.items);
            lemma_bytewise_add(d.items, rest.items);
            if rest.answer is NotReady {
                let last = flat_drain(
                    with_raw(rest.state, RawState { ended: true, ..rest.state.raw }),
                );
                lemma_bytewise_add(rest.items, last.items);
                lemma_bytewise_add(whole.items, last.items);
                assert(bytewise(d.items) + (bytewise(rest.items) + bytewise(last.items))
                    =~= (bytewise(d.items) + bytewise(rest.items)) + bytewise(last.items));
            }
        }
    }
}

/// Chunking is invisible: two ways of cutting the same archive into chunks
/// give the same entries with the same payload, byte by byte, and the same
/// end or the same error. This holds of archives that a buffer could hold.
pub proof fn lemma_chunking_is_invisible<E>(first: Seq<Seq<u8>>, second: Seq<Seq<u8>>)
    requires
        first.flatten() == second.flatten(),
        first.flatten().len() <= max_len(),
    ensures
        alike(
            flat_run(super::flat::flat_start::<E>(), first),
            flat_run(super::flat::flat_start::<E>(), second),
        ),
{
    let s = super::flat::flat_start::<E>();
    lemma_run_is_whole(s, first);
    lemma_run_is_whole(s, second);
}

/// Output follows the input: what was handed out for the input so far stands
/// when more input comes. The items for a longer input are, byte by byte, the
/// items for the shorter one and then others, so that entries come out in the
/// order in which they stand in the archive.
pub proof fn lemma_output_follows_input<E>(s: FlatState<E>, more: Seq<u8>)
    requires
        input_open(s),
        within_limit(s, more.len()),
    ensures
        bytewise(flat_drain(s).items).is_prefix_of(
            bytewise(flat_drain(with_input(s, s.raw.tail + more)).items),
        ),
{
    lemma_split(s, more);
    let d = flat_drain(s);
    if d.answer is NotReady {
        let rest = flat_drain(with_input(d.state, more));
        lemma_bytewise_add(d.items, rest.items);
    }
}

} // verus!
