//! Properties of the book that span several operations.

use vstd::prelude::*;
use crate::binance::{parsed_levels, RawDepthUpdate, RawLevel, RestDepthSnapshot};
use crate::binance::RawEvent;
use crate::feed::{feed_step, BookModel, FeedInput, FeedLine};
use crate::ieee::is_zero;
use crate::orderbook::{continues, BookState};
use crate::orderbook::{
    indexed, is_level_of, keyed_by_price, level_applied, lists_side, replay, replay_apply, replay_step,
    side_applied, snapshot_start, synced_from, OrderBook, Replay,
};
use crate::schema::PriceLevel;

verus! {

/// A book side after canonical levels, as a consumer of `Depth` events
/// applies them: a zero quantity removes the price, any other sets it.
pub open spec fn levels_applied(m: Map<u64, PriceLevel>, levels: Seq<PriceLevel>) -> Map<u64, PriceLevel>
    decreases levels.len(),
{
    if levels.len() == 0 {
        m
    } else {
        let rest = levels_applied(m, levels.drop_last());
        let l = levels.last();
        if is_zero(l.quantity_bits) {
            rest.remove(l.price_bits)
        } else {
            rest.insert(l.price_bits, l)
        }
    }
}

/// Whether an event straddles the id right after `id`: `U <= id + 1 <= u`.
pub open spec fn straddles(id: u64, e: RawDepthUpdate) -> bool {
    e.first_update_id <= id + 1 && id + 1 <= e.final_update_id
}

/// Replaying the concatenation of two event runs is replaying the second
/// run from where the first one left the book.
pub proof fn lemma_replay_concat(id: u64, init: Replay, a: Seq<RawDepthUpdate>, b: Seq<RawDepthUpdate>)
    ensures
        replay(id, init, a + b) == replay(id, replay(id, init, a), b),
    decreases b.len(),
{
    if b.len() == 0 {
        assert(a + b =~= a);
    } else {
        lemma_replay_concat(id, init, a, b.drop_last());
        assert((a + b).drop_last() =~= a + b.drop_last());
        assert((a + b).last() == b.last());
    }
}

/// Step 3 of the procedure: a buffered event already reflected in the
/// snapshot (`u` <= the snapshot's `lastUpdateId`) changes nothing,
/// wherever it stands in the buffer.
pub proof fn law_stale_event_is_dropped(
    s: RestDepthSnapshot,
    before: Seq<RawDepthUpdate>,
    stale: RawDepthUpdate,
    after: Seq<RawDepthUpdate>,
)
    requires
        stale.final_update_id <= s.last_update_id,
    ensures
        synced_from(s, before + seq![stale] + after) == synced_from(s, before + after),
{
    let id: u64 = s.last_update_id;
    let init = snapshot_start(s);
    lemma_replay_concat(id, init, before + seq![stale], after);
    lemma_replay_concat(id, init, before, seq![stale]);
    lemma_replay_concat(id, init, before, after);
    assert(seq![stale].drop_last() =~= Seq::<RawDepthUpdate>::empty());
    assert(replay(id, replay(id, init, before), seq![stale]) == replay_step(
        id,
        replay(id, replay(id, init, before), Seq::empty()),
        stale,
    ));
}

/// Replaying buffered events never takes the book's update id below the
/// snapshot's: every event applied on top of a snapshot ends after it.
pub proof fn law_synced_book_is_not_behind_the_snapshot(s: RestDepthSnapshot, buffered: Seq<RawDepthUpdate>)
    ensures
        synced_from(s, buffered).last_update_id >= s.last_update_id,
    decreases buffered.len(),
{
    if buffered.len() > 0 {
        law_synced_book_is_not_behind_the_snapshot(s, buffered.drop_last());
    }
}

/// Before an event has been applied, a run of events none of which
/// straddles the snapshot id leaves the book where it was.
pub proof fn lemma_no_straddle_no_change(id: u64, init: Replay, events: Seq<RawDepthUpdate>)
    requires
        !init.started,
        init.last_update_id == id,
        forall|i: int| 0 <= i < events.len() ==> !straddles(id, #[trigger] events[i]),
    ensures
        replay(id, init, events) == init,
    decreases events.len(),
{
    if events.len() > 0 {
        lemma_no_straddle_no_change(id, init, events.drop_last());
        assert(!straddles(id, events[events.len() - 1]));
    }
}

/// Step 4 of the procedure: the first buffered event applied on top of a
/// snapshot is the first one with `U <= lastUpdateId + 1 <= u`; every
/// event before it is dropped, and the events after it are replayed on top
/// of it (each one only if it continues the chain of update ids).
pub proof fn law_first_applied_event_straddles(
    s: RestDepthSnapshot,
    before: Seq<RawDepthUpdate>,
    first: RawDepthUpdate,
    after: Seq<RawDepthUpdate>,
)
    requires
        forall|i: int| 0 <= i < before.len() ==> !straddles(s.last_update_id, #[trigger] before[i]),
        straddles(s.last_update_id, first),
    ensures
        synced_from(s, before + seq![first] + after) == replay(
            s.last_update_id,
            Replay {
                started: true,
                halted: false,
                last_update_id: first.final_update_id,
                bids: side_applied(snapshot_start(s).bids, first.bids@),
                asks: side_applied(snapshot_start(s).asks, first.asks@),
            },
            after,
        ),
{
    let id: u64 = s.last_update_id;
    let init = snapshot_start(s);
    lemma_replay_concat(id, init, before + seq![first], after);
    lemma_replay_concat(id, init, before, seq![first]);
    lemma_no_straddle_no_change(id, init, before);
    assert(seq![first].drop_last() =~= Seq::<RawDepthUpdate>::empty());
    assert(replay(id, init, seq![first]) == replay_step(id, replay(id, init, Seq::empty()), first));
}

/// When no buffered event straddles the snapshot id, the synced book is
/// exactly the snapshot.
pub proof fn law_no_straddling_event_keeps_snapshot(s: RestDepthSnapshot, buffered: Seq<RawDepthUpdate>)
    requires
        forall|i: int| 0 <= i < buffered.len() ==> !straddles(s.last_update_id, #[trigger] buffered[i]),
    ensures
        synced_from(s, buffered).last_update_id == s.last_update_id,
        synced_from(s, buffered).bids == indexed(parsed_levels(s.bids@)),
        synced_from(s, buffered).asks == indexed(parsed_levels(s.asks@)),
{
    lemma_no_straddle_no_change(s.last_update_id, snapshot_start(s), buffered);
}

/// Indexing levels that all agree with a side gives the part of the side
/// at their prices.
proof fn lemma_indexed_agrees(m: Map<u64, PriceLevel>, levels: Seq<PriceLevel>)
    requires
        forall|i: int| 0 <= i < levels.len() ==> #[trigger] m.contains_key(levels[i].price_bits)
            && m[levels[i].price_bits] == levels[i],
    ensures
        forall|k: u64| #[trigger] indexed(levels).contains_key(k) <==> exists|i: int|
            0 <= i < levels.len() && levels[i].price_bits == k,
        forall|k: u64| #[trigger] indexed(levels).contains_key(k) ==> indexed(levels)[k] == m[k],
    decreases levels.len(),
{
    if levels.len() > 0 {
        let init = levels.drop_last();
        assert forall|i: int| 0 <= i < init.len() implies #[trigger] m.contains_key(init[i].price_bits)
            && m[init[i].price_bits] == init[i] by {
            assert(init[i] == levels[i]);
            assert(m.contains_key(levels[i].price_bits));
        }
        lemma_indexed_agrees(m, init);
        let last = levels.last();
        assert(m.contains_key(levels[levels.len() - 1].price_bits));
        assert forall|k: u64| #[trigger] indexed(levels).contains_key(k) implies exists|i: int|
            0 <= i < levels.len() && levels[i].price_bits == k by {
            assert(indexed(levels) == indexed(init).insert(last.price_bits, last));
            if k != last.price_bits {
                assert(indexed(init).contains_key(k));
                let i: int = choose|i: int| 0 <= i < init.len() && init[i].price_bits == k;
                assert(levels[i] == init[i]);
            } else {
                assert(levels[levels.len() - 1].price_bits == k);
            }
        }
        assert forall|k: u64| (exists|i: int| 0 <= i < levels.len() && levels[i].price_bits == k)
            implies #[trigger] indexed(levels).contains_key(k) by {
            let i: int = choose|i: int| 0 <= i < levels.len() && levels[i].price_bits == k;
            if i < levels.len() - 1 {
                assert(init[i] == levels[i]);
                assert(indexed(init).contains_key(k));
            }
        }
        assert forall|k: u64| #[trigger] indexed(levels).contains_key(k) implies indexed(levels)[k]
            == m[k] by {
            if k != last.price_bits {
                assert(indexed(init).contains_key(k));
            }
        }
    }
}

/// A `Snapshot` event rebuilds the book: indexing the levels that
/// `export_levels` lists for a side gives that side back exactly.
pub proof fn law_exported_levels_rebuild_the_book(
    book: OrderBook,
    bids: Seq<PriceLevel>,
    asks: Seq<PriceLevel>,
)
    requires
        book.wf(),
        lists_side(book.bid_levels(), bids),
        lists_side(book.ask_levels(), asks),
    ensures
        indexed(bids) == book.bid_levels(),
        indexed(asks) == book.ask_levels(),
{
    lemma_listed_side_rebuilds(book.bid_levels(), bids);
    lemma_listed_side_rebuilds(book.ask_levels(), asks);
}

proof fn lemma_listed_side_rebuilds(m: Map<u64, PriceLevel>, levels: Seq<PriceLevel>)
    requires
        keyed_by_price(m),
        lists_side(m, levels),
    ensures
        indexed(levels) == m,
{
    assert forall|i: int| 0 <= i < levels.len() implies #[trigger] m.contains_key(levels[i].price_bits)
        && m[levels[i].price_bits] == levels[i] by {
        assert(lists_side(m, levels));
        assert(is_level_of(m, levels[i]));
        let k: u64 = choose|k: u64| #[trigger] m.contains_key(k) && m[k] == levels[i];
        assert(m.contains_key(k));
    }
    lemma_indexed_agrees(m, levels);
    assert forall|k: u64| #[trigger] m.contains_key(k) implies indexed(levels).contains_key(k) by {
        assert(levels.contains(m[k]));
        let i: int = choose|i: int| 0 <= i < levels.len() && levels[i] == m[k];
        assert(levels[i].price_bits == k);
    }
    assert forall|k: u64| #[trigger] indexed(levels).contains_key(k) implies m.contains_key(k) by {
        let i: int = choose|i: int| 0 <= i < levels.len() && levels[i].price_bits == k;
        assert(m.contains_key(levels[i].price_bits));
    }
    assert(indexed(levels) =~= m);
}

/// A `Depth` event carries exactly what changed the book: applying its
/// canonical levels (zero removes, anything else sets) to a side gives the
/// same side as applying the wire levels it was made from.
pub proof fn law_depth_event_replays_the_update(m: Map<u64, PriceLevel>, raw: Seq<RawLevel>)
    ensures
        levels_applied(m, parsed_levels(raw)) == side_applied(m, raw),
    decreases raw.len(),
{
    if raw.len() > 0 {
        law_depth_event_replays_the_update(m, raw.drop_last());
        let l = raw.last();
        match (l.price, l.quantity) {
            (Some(p), Some(q)) => {
                let parsed = parsed_levels(raw);
                assert(parsed.drop_last() == parsed_levels(raw.drop_last()));
            },
            _ => {},
        }
    }
}

/// The quantity of the last complete wire level at price `k`, if any.
pub open spec fn last_touch(updates: Seq<RawLevel>, k: u64) -> Option<u64>
    decreases updates.len(),
{
    if updates.len() == 0 {
        None
    } else {
        let l = updates.last();
        if l.price == Some(k) && l.quantity is Some {
            l.quantity
        } else {
            last_touch(updates.drop_last(), k)
        }
    }
}

/// What a side holds at one price after wire levels: the last complete level
/// at that price decides (a zero removes it), and without one the price is
/// as it was.
pub proof fn lemma_side_applied_at(m: Map<u64, PriceLevel>, updates: Seq<RawLevel>, k: u64)
    ensures
        ({
            let r = side_applied(m, updates);
            match last_touch(updates, k) {
                Some(q) => if is_zero(q) {
                    !r.contains_key(k)
                } else {
                    r.contains_key(k) && r[k] == PriceLevel { price_bits: k, quantity_bits: q }
                },
                None => (r.contains_key(k) == m.contains_key(k)) && (m.contains_key(k) ==> r[k] == m[k]),
            }
        }),
    decreases updates.len(),
{
    if updates.len() > 0 {
        lemma_side_applied_at(m, updates.drop_last(), k);
    }
}

/// Applying the same wire levels twice leaves a side as applying them once.
pub proof fn law_applying_levels_twice_is_applying_them_once(m: Map<u64, PriceLevel>, updates: Seq<RawLevel>)
    ensures
        side_applied(side_applied(m, updates), updates) == side_applied(m, updates),
{
    let once = side_applied(m, updates);
    let twice = side_applied(once, updates);
    assert forall|k: u64| #[trigger] twice.contains_key(k) == once.contains_key(k) && (once.contains_key(
        k,
    ) ==> twice[k] == once[k]) by {
        lemma_side_applied_at(m, updates, k);
        lemma_side_applied_at(once, updates, k);
    }
    assert(twice =~= once);
}

/// Events that follow one another without a missed update id, the first
/// right after the snapshot: `U` of the first is the snapshot id + 1, each
/// later `U` is the previous `u` + 1, and no event ends before it starts.
pub open spec fn chained_after(id: u64, events: Seq<RawDepthUpdate>) -> bool {
    &&& forall|i: int| 0 <= i < events.len() ==> #[trigger] events[i].first_update_id
        <= events[i].final_update_id
    &&& events.len() > 0 ==> events[0].first_update_id == id + 1
    &&& forall|i: int| 0 < i < events.len() ==> #[trigger] events[i].first_update_id == events[i
        - 1].final_update_id + 1
}

/// The book after applying events one by one, as `apply_event` does on a
/// synced book.
pub open spec fn applied_in_turn(r: Replay, events: Seq<RawDepthUpdate>) -> Replay
    decreases events.len(),
{
    if events.len() == 0 {
        r
    } else {
        replay_apply(applied_in_turn(r, events.drop_last()), events.last())
    }
}

/// In a chain after `id`, every event starts after `id`.
proof fn lemma_chained_events_start_after(id: u64, events: Seq<RawDepthUpdate>, i: int)
    requires
        chained_after(id, events),
        0 <= i < events.len(),
    ensures
        events[i].first_update_id > id,
    decreases i,
{
    if i > 0 {
        lemma_chained_events_start_after(id, events, i - 1);
        assert(events[i - 1].first_update_id <= events[i - 1].final_update_id);
        assert(events[i].first_update_id == events[i - 1].final_update_id + 1);
    }
}

/// Buffering then syncing is syncing then applying: for events that chain
/// on from the snapshot, holding them until the snapshot arrives gives the
/// same book as applying them live after it, and each of them continues the
/// book it is applied to (so `apply_event` accepts every one).
pub proof fn law_buffered_then_synced_is_synced_then_applied(
    s: RestDepthSnapshot,
    events: Seq<RawDepthUpdate>,
)
    requires
        chained_after(s.last_update_id, events),
    ensures
        synced_from(s, events) == applied_in_turn(snapshot_start(s), events),
        forall|i: int| 0 <= i < events.len() ==> #[trigger] events[i].first_update_id == applied_in_turn(
            snapshot_start(s),
            events.take(i),
        ).last_update_id + 1,
    decreases events.len(),
{
    let id: u64 = s.last_update_id;
    assert forall|i: int| 0 <= i < events.len() implies #[trigger] events[i].first_update_id
        == applied_in_turn(snapshot_start(s), events.take(i)).last_update_id + 1 by {
        if i > 0 {
            assert(events.take(i).last() == events[i - 1]);
            assert(events[i].first_update_id == events[i - 1].final_update_id + 1);
        } else {
            assert(events.take(i) =~= Seq::<RawDepthUpdate>::empty());
        }
    }
    if events.len() > 0 {
        let init = events.drop_last();
        let n: int = events.len() - 1;
        assert(chained_after(id, init)) by {
            assert forall|i: int| 0 <= i < init.len() implies #[trigger] init[i].first_update_id
                <= init[i].final_update_id by {
                assert(init[i] == events[i]);
            }
            assert forall|i: int| 0 < i < init.len() implies #[trigger] init[i].first_update_id
                == init[i - 1].final_update_id + 1 by {
                assert(init[i] == events[i]);
                assert(init[i - 1] == events[i - 1]);
            }
        }
        law_buffered_then_synced_is_synced_then_applied(s, init);
        let e = events[n];
        assert(events.last() == e);
        assert(e.first_update_id <= e.final_update_id);
        lemma_chained_events_start_after(id, events, n);
        if n > 0 {
            assert(e.first_update_id == events[n - 1].final_update_id + 1);
            assert(init.last() == events[n - 1]);
        } else {
            assert(init =~= Seq::<RawDepthUpdate>::empty());
        }
    }
}

/// The book after the feed loop has handled the inputs in order.
pub open spec fn run(m: BookModel, inputs: Seq<FeedInput>) -> BookModel
    decreases inputs.len(),
{
    if inputs.len() == 0 {
        m
    } else {
        feed_step(run(m, inputs.drop_last()), inputs.last()).0
    }
}

/// The lines the feed loop produces for the inputs, one per input.
pub open spec fn run_lines(m: BookModel, inputs: Seq<FeedInput>) -> Seq<FeedLine>
    decreases inputs.len(),
{
    if inputs.len() == 0 {
        Seq::empty()
    } else {
        run_lines(m, inputs.drop_last()).push(feed_step(run(m, inputs.drop_last()), inputs.last()).1)
    }
}

/// The book a consumer of the printed lines rebuilds: a snapshot line sets
/// the update id and both sides, a depth line applies its levels (a zero
/// quantity removes the price) and takes its `u`; nothing before the first
/// snapshot line.
pub open spec fn line_book(lines: Seq<FeedLine>) -> Option<(u64, Map<u64, PriceLevel>, Map<u64, PriceLevel>)>
    decreases lines.len(),
{
    if lines.len() == 0 {
        None
    } else {
        let prev = line_book(lines.drop_last());
        match lines.last() {
            FeedLine::Snapshot { last_update_id, bids, asks } => Some((last_update_id, bids, asks)),
            FeedLine::Depth { first_update_id, final_update_id, bids, asks } => match prev {
                Some(b) => Some((final_update_id, levels_applied(b.1, bids), levels_applied(b.2, asks))),
                None => None,
            },
            _ => prev,
        }
    }
}

/// The update id of a rebuilt book (0 when there is none yet).
pub open spec fn rebuilt_id(b: Option<(u64, Map<u64, PriceLevel>, Map<u64, PriceLevel>)>) -> u64 {
    match b {
        Some((id, _, _)) => id,
        None => 0,
    }
}

/// Requests still unanswered after the lines: the first snapshot request,
/// plus one per resync, less one per snapshot received or request failed,
/// plus one per request made again after a failure.
pub open spec fn open_requests(lines: Seq<FeedLine>) -> int
    decreases lines.len(),
{
    if lines.len() == 0 {
        1
    } else {
        open_requests(lines.drop_last()) + match lines.last() {
            FeedLine::Resync => 1int,
            FeedLine::Snapshot { .. } => -1int,
            FeedLine::FetchFailed => -1int,
            FeedLine::Refetch => 0int,
            _ => 0int,
        }
    }
}

/// A snapshot or a failed request only ever answers a request still open.
pub open spec fn answers_open_requests(m: BookModel, inputs: Seq<FeedInput>) -> bool {
    forall|j: int|
        0 <= j < inputs.len() && (inputs[j] is SnapshotArrived || inputs[j] is SnapshotFailed)
            ==> open_requests(#[trigger] run_lines(m, inputs.take(j))) >= 1
}

/// A synced book is exactly what a consumer rebuilds from the lines printed
/// so far: the latest snapshot line, then the depth lines after it.
pub proof fn law_printed_lines_rebuild_the_live_book(m: BookModel, inputs: Seq<FeedInput>)
    requires
        m.state == BookState::AwaitingSnapshot,
    ensures
        run_lines(m, inputs).len() == inputs.len(),
        run(m, inputs).state == BookState::Synced ==> line_book(run_lines(m, inputs)) == Some(
            (run(m, inputs).last_update_id, run(m, inputs).bids, run(m, inputs).asks),
        ),
    decreases inputs.len(),
{
    if inputs.len() > 0 {
        let prefix = inputs.drop_last();
        law_printed_lines_rebuild_the_live_book(m, prefix);
        let before = run(m, prefix);
        let lines = run_lines(m, inputs);
        assert(lines.drop_last() =~= run_lines(m, prefix));
        match inputs.last() {
            FeedInput::Stream(RawEvent::DepthUpdate(raw)) => {
                if before.state == BookState::Synced && continues(before.last_update_id, raw) {
                    law_depth_event_replays_the_update(before.bids, raw.bids@);
                    law_depth_event_replays_the_update(before.asks, raw.asks@);
                }
            },
            _ => {},
        }
    }
}

/// No gaps in the printed stream: every depth line comes after a snapshot
/// line, and its `U` is one past the `u` of the depth line before it, or
/// past the snapshot's update id when it is the first after that snapshot.
pub proof fn law_printed_depth_lines_have_no_gaps(m: BookModel, inputs: Seq<FeedInput>)
    requires
        m.state == BookState::AwaitingSnapshot,
    ensures
        forall|j: int|
            0 <= j < run_lines(m, inputs).len() && #[trigger] run_lines(m, inputs)[j] is Depth ==> {
                &&& line_book(run_lines(m, inputs).take(j)) is Some
                &&& run_lines(m, inputs)[j]->Depth_first_update_id == rebuilt_id(
                    line_book(run_lines(m, inputs).take(j)),
                ) + 1
            },
    decreases inputs.len(),
{
    law_printed_lines_rebuild_the_live_book(m, inputs);
    if inputs.len() > 0 {
        let prefix = inputs.drop_last();
        law_printed_depth_lines_have_no_gaps(m, prefix);
        law_printed_lines_rebuild_the_live_book(m, prefix);
        let before = run(m, prefix);
        let lines = run_lines(m, inputs);
        let prev = run_lines(m, prefix);
        let n = prev.len() as int;
        assert(lines.drop_last() =~= prev);
        assert forall|j: int| 0 <= j < lines.len() && #[trigger] lines[j] is Depth implies {
            &&& line_book(lines.take(j)) is Some
            &&& lines[j]->Depth_first_update_id == rebuilt_id(line_book(lines.take(j))) + 1
        } by {
            if j < n {
                assert(lines.take(j) =~= prev.take(j));
                assert(lines[j] == prev[j]);
            } else {
                assert(lines.take(j) =~= prev);
                assert(lines[j] == feed_step(before, inputs.last()).1);
            }
        }
    }
}

/// Snapshot requests: at most one is ever open, and while one is open the
/// book awaits a snapshot (a synced book has none open). Since a failed
/// request is made again while the book awaits a snapshot, a book that
/// awaits one always has exactly one request open: it is never left
/// waiting for a snapshot nobody asked for.
pub proof fn law_at_most_one_snapshot_request_is_open(m: BookModel, inputs: Seq<FeedInput>)
    requires
        m.state == BookState::AwaitingSnapshot,
        answers_open_requests(m, inputs),
    ensures
        0 <= open_requests(run_lines(m, inputs)) <= 1,
        open_requests(run_lines(m, inputs)) == 1 ==> run(m, inputs).state
            == BookState::AwaitingSnapshot,
        run(m, inputs).state == BookState::Synced ==> open_requests(run_lines(m, inputs)) == 0,
        run(m, inputs).state == BookState::AwaitingSnapshot ==> open_requests(run_lines(m, inputs))
            == 1,
    decreases inputs.len(),
{
    if inputs.len() > 0 {
        let prefix = inputs.drop_last();
        let n = prefix.len() as int;
        assert(answers_open_requests(m, prefix)) by {
            assert forall|j: int|
                0 <= j < prefix.len() && (prefix[j] is SnapshotArrived || prefix[j] is SnapshotFailed)
                    implies open_requests(#[trigger] run_lines(m, prefix.take(j))) >= 1 by {
                assert(prefix.take(j) =~= inputs.take(j));
                assert(prefix[j] == inputs[j]);
                assert(open_requests(run_lines(m, inputs.take(j))) >= 1);
            }
        }
        law_at_most_one_snapshot_request_is_open(m, prefix);
        let lines = run_lines(m, inputs);
        assert(lines.drop_last() =~= run_lines(m, prefix));
        assert(inputs.take(n) =~= prefix);
        assert(inputs[n] == inputs.last());
        if inputs.last() is SnapshotArrived || inputs.last() is SnapshotFailed {
            assert(open_requests(run_lines(m, inputs.take(n))) >= 1);
        }
    }
}

} // verus!
