//! Local order-book maintenance following the exchange's documented
//! procedure for spot depth streams:
//!
//! 1. Buffer diff events arriving on the stream before a snapshot exists.
//! 2. Fetch a REST snapshot (`lastUpdateId`, full bids and asks).
//! 3. Drop any buffered event whose `u` <= `lastUpdateId`.
//! 4. The first event applied must satisfy `U <= lastUpdateId + 1 <= u`.
//! 5. Once synced, each new event's `U` must equal the previous event's
//!    `u` + 1; any other value means a message was missed and the book is
//!    invalid until resynced from a fresh snapshot.
//!
//! A book side maps the bit pattern of a price to the level at that price.

use std::collections::HashMap;
use vstd::prelude::*;
use crate::binance::{parse_levels, parsed_levels, RawDepthUpdate, RawLevel, RestDepthSnapshot};
use crate::ieee::{greater, is_nan, is_zero, less, price_greater, price_less, quantity_is_zero};
use vstd::std_specs::hash::spec_hash_map_iter;
use vstd::std_specs::iter::IteratorSpec;
use crate::schema::PriceLevel;

verus! {

broadcast use vstd::std_specs::hash::group_hash_axioms;

/// Whether the book is waiting for a snapshot or tracking the stream.
#[derive(Debug, Clone, Copy, PartialEq, Eq, Structural)]
pub enum BookState {
    AwaitingSnapshot,
    Synced,
}

/// One symbol's local book.
pub struct OrderBook {
    pub symbol: String,
    pub state: BookState,
    pub last_update_id: u64,
    bids: HashMap<u64, PriceLevel>,
    asks: HashMap<u64, PriceLevel>,
    buffer: Vec<RawDepthUpdate>,
}

/// Returned when a gap is detected in the update-id sequence: the caller
/// must discard local state and resync from a fresh REST snapshot.
#[derive(Debug, Clone, Copy, PartialEq, Eq, Structural)]
pub struct GapDetected {
    pub expected_first_update_id: u64,
    pub got_first_update_id: u64,
}

/// A book side after one wire level: a level that did not parse changes
/// nothing, a zero quantity removes the price, any other quantity sets it.
pub open spec fn level_applied(m: Map<u64, PriceLevel>, l: RawLevel) -> Map<u64, PriceLevel> {
    match (l.price, l.quantity) {
        (Some(p), Some(q)) => if is_zero(q) {
            m.remove(p)
        } else {
            m.insert(p, PriceLevel { price_bits: p, quantity_bits: q })
        },
        _ => m,
    }
}

/// A book side after the wire levels, applied in order.
pub open spec fn side_applied(m: Map<u64, PriceLevel>, updates: Seq<RawLevel>) -> Map<u64, PriceLevel>
    decreases updates.len(),
{
    if updates.len() == 0 {
        m
    } else {
        level_applied(side_applied(m, updates.drop_last()), updates.last())
    }
}

/// A book side holding the given levels, each under its price; a later
/// level replaces an earlier one at the same price.
pub open spec fn indexed(levels: Seq<PriceLevel>) -> Map<u64, PriceLevel>
    decreases levels.len(),
{
    if levels.len() == 0 {
        Map::empty()
    } else {
        indexed(levels.drop_last()).insert(levels.last().price_bits, levels.last())
    }
}

/// Every level of the side sits under its own price.
pub open spec fn keyed_by_price(m: Map<u64, PriceLevel>) -> bool {
    forall|k: u64| #[trigger] m.contains_key(k) ==> m[k].price_bits == k
}

impl OrderBook {
    /// The symbol, as text.
    pub closed spec fn symbol_view(&self) -> Seq<char> {
        self.symbol@
    }

    /// The resync state.
    pub closed spec fn state_view(&self) -> BookState {
        self.state
    }

    /// The id of the last update reflected in the book.
    pub closed spec fn last_id(&self) -> u64 {
        self.last_update_id
    }

    /// The bid side.
    pub closed spec fn bid_levels(&self) -> Map<u64, PriceLevel> {
        self.bids@
    }

    /// The ask side.
    pub closed spec fn ask_levels(&self) -> Map<u64, PriceLevel> {
        self.asks@
    }

    /// The diff events held until the next snapshot, oldest first.
    pub closed spec fn pending(&self) -> Seq<RawDepthUpdate> {
        self.buffer@
    }

    /// Each side keeps every level under its own price.
    pub open spec fn wf(&self) -> bool {
        keyed_by_price(self.bid_levels()) && keyed_by_price(self.ask_levels())
    }

    /// The resync state (the `state` field).
    pub fn current_state(&self) -> (r: BookState)
        ensures
            r == self.state_view(),
    {
        self.state
    }

    /// The id of the last update reflected in the book (the
    /// `last_update_id` field).
    pub fn current_last_id(&self) -> (r: u64)
        ensures
            r == self.last_id(),
    {
        self.last_update_id
    }

    /// A copy of the symbol (the `symbol` field).
    pub fn symbol_text(&self) -> (r: String)
        ensures
            r@ == self.symbol_view(),
    {
        self.symbol.clone()
    }

    /// An empty book awaiting its first snapshot.
    pub fn new(symbol: &str) -> (r: Self)
        ensures
            r.symbol_view() == symbol@,
            r.state_view() == BookState::AwaitingSnapshot,
            r.last_id() == 0,
            r.bid_levels() == Map::<u64, PriceLevel>::empty(),
            r.ask_levels() == Map::<u64, PriceLevel>::empty(),
            r.pending() == Seq::<RawDepthUpdate>::empty(),
            r.wf(),
    {
        let s = symbol.to_string();
        proof {
            vstd::string::to_string_from_display_ensures_for_str(symbol, s);
        }
        OrderBook {
            symbol: s,
            state: BookState::AwaitingSnapshot,
            last_update_id: 0,
            bids: HashMap::new(),
            asks: HashMap::new(),
            buffer: Vec::new(),
        }
    }

    /// Discards both sides and the buffer and waits for a new snapshot.
    /// The last applied update id is kept.
    pub fn reset_for_resync(&mut self)
        ensures
            final(self).state_view() == BookState::AwaitingSnapshot,
            final(self).bid_levels() == Map::<u64, PriceLevel>::empty(),
            final(self).ask_levels() == Map::<u64, PriceLevel>::empty(),
            final(self).pending() == Seq::<RawDepthUpdate>::empty(),
            final(self).last_id() == old(self).last_id(),
            final(self).symbol_view() == old(self).symbol_view(),
            final(self).wf(),
    {
        self.state = BookState::AwaitingSnapshot;
        self.bids.clear();
        self.asks.clear();
        self.buffer.clear();
    }

    /// Holds a diff event until a snapshot arrives (meant for the
    /// `AwaitingSnapshot` state).
    pub fn buffer_event(&mut self, event: RawDepthUpdate)
        ensures
            final(self).pending() == old(self).pending().push(event),
            final(self).bid_levels() == old(self).bid_levels(),
            final(self).ask_levels() == old(self).ask_levels(),
            final(self).state_view() == old(self).state_view(),
            final(self).last_id() == old(self).last_id(),
            final(self).symbol_view() == old(self).symbol_view(),
            old(self).wf() ==> final(self).wf(),
    {
        self.buffer.push(event);
    }

    /// Applies a REST snapshot plus the compatible buffered events (see
    /// `replay_step`) and moves the book to `Synced`.
    pub fn apply_snapshot(&mut self, snapshot: RestDepthSnapshot)
        ensures
            ({
                let r = synced_from(snapshot, old(self).pending());
                &&& final(self).last_id() == r.last_update_id
                &&& final(self).bid_levels() == r.bids
                &&& final(self).ask_levels() == r.asks
            }),
            final(self).state_view() == BookState::Synced,
            final(self).pending() == Seq::<RawDepthUpdate>::empty(),
            final(self).symbol_view() == old(self).symbol_view(),
            final(self).wf(),
    {
        let ghost pending = self.buffer@;
        self.last_update_id = snapshot.last_update_id;
        self.bids = index_levels(snapshot.bids());
        self.asks = index_levels(snapshot.asks());
        let snapshot_id: u64 = snapshot.last_update_id;
        let mut buffered: Vec<RawDepthUpdate> = Vec::new();
        std::mem::swap(&mut buffered, &mut self.buffer);
        let mut started = false;
        let mut halted = false;
        let mut i: usize = 0;
        while i < buffered.len()
            invariant
                buffered@ == pending,
                i <= buffered@.len(),
                self.buffer@ == Seq::<RawDepthUpdate>::empty(),
                self.symbol@ == old(self).symbol@,
                ({
                    let r = replay(snapshot_id, snapshot_start(snapshot), pending.take(i as int));
                    &&& started == r.started
                    &&& halted == r.halted
                    &&& self.last_update_id == r.last_update_id
                    &&& self.bids@ == r.bids
                    &&& self.asks@ == r.asks
                }),
                !started ==> self.last_update_id == snapshot_id,
            decreases buffered@.len() - i,
        {
            proof {
                assert(pending.take(i as int + 1).drop_last() =~= pending.take(i as int));
            }
            let event = &buffered[i];
            if event.final_update_id > snapshot_id && !halted {
                let apply = if started {
                    self.last_update_id < u64::MAX && event.first_update_id == self.last_update_id
                        + 1
                } else {
                    event.first_update_id <= self.last_update_id + 1 && self.last_update_id + 1
                        <= event.final_update_id
                };
                if apply {
                    started = true;
                    self.apply_levels(event);
                    self.last_update_id = event.final_update_id;
                } else if started {
                    halted = true;
                }
            }
            i = i + 1;
        }
        proof {
            assert(pending.take(pending.len() as int) =~= pending);
            lemma_synced_keyed(snapshot, pending);
        }
        self.state = BookState::Synced;
    }

    /// Applies a live event to a synced book when its `U` follows the last
    /// applied `u`; otherwise reports the gap and leaves the book as it was.
    pub fn apply_event(&mut self, event: &RawDepthUpdate) -> (r: Result<(), GapDetected>)
        requires
            old(self).state_view() == BookState::Synced,
            old(self).last_id() < u64::MAX,
        ensures
            continues(old(self).last_id(), *event) ==> {
                &&& r is Ok
                &&& final(self).last_id() == event.final_update_id
                &&& final(self).bid_levels() == side_applied(old(self).bid_levels(), event.bids@)
                &&& final(self).ask_levels() == side_applied(old(self).ask_levels(), event.asks@)
            },
            !continues(old(self).last_id(), *event) ==> {
                &&& r == Err::<(), GapDetected>(
                    (GapDetected {
                        expected_first_update_id: (old(self).last_id() + 1) as u64,
                        got_first_update_id: event.first_update_id,
                    }),
                )
                &&& final(self).last_id() == old(self).last_id()
                &&& final(self).bid_levels() == old(self).bid_levels()
                &&& final(self).ask_levels() == old(self).ask_levels()
            },
            final(self).state_view() == old(self).state_view(),
            final(self).pending() == old(self).pending(),
            final(self).symbol_view() == old(self).symbol_view(),
            old(self).wf() ==> final(self).wf(),
    {
        if event.first_update_id != self.last_update_id + 1 {
            return Err(
                GapDetected {
                    expected_first_update_id: self.last_update_id + 1,
                    got_first_update_id: event.first_update_id,
                },
            );
        }
        proof {
            if self.wf() {
                lemma_side_applied_keyed(self.bids@, event.bids@);
                lemma_side_applied_keyed(self.asks@, event.asks@);
            }
        }
        self.apply_levels(event);
        self.last_update_id = event.final_update_id;
        Ok(())
    }

    fn apply_levels(&mut self, event: &RawDepthUpdate)
        ensures
            final(self).bids@ == side_applied(old(self).bids@, event.bids@),
            final(self).asks@ == side_applied(old(self).asks@, event.asks@),
            final(self).state == old(self).state,
            final(self).last_update_id == old(self).last_update_id,
            final(self).buffer == old(self).buffer,
            final(self).symbol == old(self).symbol,
    {
        apply_side(&mut self.bids, event.bids.as_slice());
        apply_side(&mut self.asks, event.asks.as_slice());
    }

    /// The number of price levels on each side: `(bids, asks)`.
    pub fn depth(&self) -> (r: (usize, usize))
        ensures
            r.0 == self.bid_levels().len(),
            r.1 == self.ask_levels().len(),
    {
        (self.bids.len(), self.asks.len())
    }

    /// The bid level with the highest price.
    pub fn best_bid(&self) -> (r: Option<PriceLevel>)
        ensures
            best_of(self.bid_levels(), r, true),
    {
        best_level(&self.bids, true)
    }

    /// The ask level with the lowest price.
    pub fn best_ask(&self) -> (r: Option<PriceLevel>)
        ensures
            best_of(self.ask_levels(), r, false),
    {
        best_level(&self.asks, false)
    }

    /// Every level of each side, `(bids, asks)`, in no particular order:
    /// the full book, for emitting a `Snapshot` event right after a resync.
    pub fn export_levels(&self) -> (r: (Vec<PriceLevel>, Vec<PriceLevel>))
        ensures
            lists_side(self.bid_levels(), r.0@),
            lists_side(self.ask_levels(), r.1@),
    {
        (side_levels(&self.bids), side_levels(&self.asks))
    }
}

/// The book state while a snapshot and the buffered events are replayed:
/// whether an event has been applied yet, whether the chain of update ids
/// broke after that (a message was missed), the last applied update id, and
/// both sides.
pub struct Replay {
    pub started: bool,
    pub halted: bool,
    pub last_update_id: u64,
    pub bids: Map<u64, PriceLevel>,
    pub asks: Map<u64, PriceLevel>,
}

/// The book after applying one event's levels and taking its `u`.
pub open spec fn replay_apply(r: Replay, e: RawDepthUpdate) -> Replay {
    Replay {
        started: true,
        halted: false,
        last_update_id: e.final_update_id,
        bids: side_applied(r.bids, e.bids@),
        asks: side_applied(r.asks, e.asks@),
    }
}

/// The replay after one buffered event. Events already reflected in the
/// snapshot (`u` <= the snapshot's id) are dropped. Until one event has been
/// applied, an event is applied only if `U <= last + 1 <= u`. After that an
/// event is applied only if its `U` is the last `u` + 1; the first one that
/// is not means a message was missed, and from there on nothing more is
/// applied, so the next live event reports the gap.
pub open spec fn replay_step(snapshot_id: u64, r: Replay, e: RawDepthUpdate) -> Replay {
    if e.final_update_id <= snapshot_id || r.halted {
        r
    } else if !r.started {
        if e.first_update_id <= r.last_update_id + 1 && r.last_update_id + 1 <= e.final_update_id {
            replay_apply(r, e)
        } else {
            r
        }
    } else if e.first_update_id == r.last_update_id + 1 {
        replay_apply(r, e)
    } else {
        Replay { halted: true, ..r }
    }
}

/// The replay after the buffered events, in arrival order.
pub open spec fn replay(snapshot_id: u64, init: Replay, events: Seq<RawDepthUpdate>) -> Replay
    decreases events.len(),
{
    if events.len() == 0 {
        init
    } else {
        replay_step(snapshot_id, replay(snapshot_id, init, events.drop_last()), events.last())
    }
}

/// The book a snapshot gives before any buffered event is looked at.
pub open spec fn snapshot_start(s: RestDepthSnapshot) -> Replay {
    Replay {
        started: false,
        halted: false,
        last_update_id: s.last_update_id,
        bids: indexed(parsed_levels(s.bids@)),
        asks: indexed(parsed_levels(s.asks@)),
    }
}

/// The book after a snapshot and the events buffered before it.
pub open spec fn synced_from(s: RestDepthSnapshot, buffered: Seq<RawDepthUpdate>) -> Replay {
    replay(s.last_update_id, snapshot_start(s), buffered)
}

/// Whether a synced book accepts an event: its `U` follows the last `u`.
pub open spec fn continues(last_update_id: u64, e: RawDepthUpdate) -> bool {
    e.first_update_id == last_update_id + 1
}

/// Applies wire levels to one book side, in order.
fn apply_side(book_side: &mut HashMap<u64, PriceLevel>, updates: &[RawLevel])
    ensures
        final(book_side)@ == side_applied(old(book_side)@, updates@),
{
    let mut i: usize = 0;
    while i < updates.len()
        invariant
            i <= updates@.len(),
            book_side@ == side_applied(old(book_side)@, updates@.take(i as int)),
        decreases updates@.len() - i,
    {
        proof {
            assert(updates@.take(i as int + 1).drop_last() =~= updates@.take(i as int));
        }
        let l = updates[i];
        match (l.price, l.quantity) {
            (Some(price), Some(quantity)) => {
                if quantity_is_zero(quantity) {
                    book_side.remove(&price);
                } else {
                    book_side.insert(price, PriceLevel { price_bits: price, quantity_bits: quantity });
                }
            },
            _ => {},
        }
        i = i + 1;
    }
    proof {
        assert(updates@.take(updates@.len() as int) =~= updates@);
    }
}

/// `a` beats `b` as a bid (higher price) or as an ask (lower price).
pub open spec fn beats(a: u64, b: u64, highest: bool) -> bool {
    if highest {
        greater(a, b)
    } else {
        less(a, b)
    }
}

/// `r` is what folding the side with "keep the earlier level if it beats the
/// later one, else take the later" can give, whatever order the side is
/// walked in: `None` exactly for an empty side, else one of its levels;
/// and when no price on the side is a NaN, no level beats it.
pub open spec fn best_of(m: Map<u64, PriceLevel>, r: Option<PriceLevel>, highest: bool) -> bool {
    &&& (r is None <==> m.len() == 0)
    &&& (r matches Some(l) ==> exists|k: u64| #[trigger] m.contains_key(k) && m[k] == l)
    &&& ((forall|k: u64| #[trigger] m.contains_key(k) ==> !is_nan(m[k].price_bits)) ==> (
    r matches Some(l) ==> forall|k: u64| #[trigger] m.contains_key(k) ==> !beats(m[k].price_bits, l.price_bits, highest)))
}

/// `l` is a level of the side.
pub open spec fn is_level_of(m: Map<u64, PriceLevel>, l: PriceLevel) -> bool {
    exists|k: u64| #[trigger] m.contains_key(k) && m[k] == l
}

/// `levels` lists the side: as many entries as the side has prices, each
/// one a level of the side, every level of the side present.
pub open spec fn lists_side(m: Map<u64, PriceLevel>, levels: Seq<PriceLevel>) -> bool {
    &&& levels.len() == m.len()
    &&& forall|i: int| 0 <= i < levels.len() ==> #[trigger] is_level_of(m, levels[i])
    &&& forall|k: u64| #[trigger] m.contains_key(k) ==> levels.contains(m[k])
}

fn best_level(side: &HashMap<u64, PriceLevel>, highest: bool) -> (r: Option<PriceLevel>)
    ensures
        best_of(side@, r, highest),
{
    let ghost pairs = spec_hash_map_iter(side).remaining();
    proof {
        lemma_iter_pairs(side);
    }
    let mut best: Option<PriceLevel> = None;
    for (k, v) in it: side.iter()
        invariant
            it.seq() == pairs,
            pairs.len() == side@.len(),
            forall|j: int|
                0 <= j < pairs.len() ==> #[trigger] side@.contains_key(*pairs[j].0) && side@[*pairs[j].0]
                    == *pairs[j].1,
            best is None <==> it.index() == 0,
            best matches Some(l) ==> exists|j: int| 0 <= j < it.index() && *pairs[j].1 == l,
            (forall|k: u64| #[trigger] side@.contains_key(k) ==> !is_nan(side@[k].price_bits)) ==> (
            best matches Some(l) ==> forall|j: int|
                0 <= j < it.index() ==> !beats((*#[trigger] pairs[j].1).price_bits, l.price_bits, highest)),
    {
        let level = *v;
        let ghost i: int = it.index();
        let ghost prev = best;
        proof {
            assert(side@.contains_key(*pairs[i].0));
        }
        best = match best {
            None => Some(level),
            Some(b) => {
                let keep = if highest {
                    price_greater(b.price_bits, level.price_bits)
                } else {
                    price_less(b.price_bits, level.price_bits)
                };
                if keep {
                    Some(b)
                } else {
                    Some(level)
                }
            },
        };
        proof {
            assert(level == *pairs[i].1);
            if (forall|k: u64| #[trigger] side@.contains_key(k) ==> !is_nan(side@[k].price_bits)) {
                let l = best->0;
                assert forall|j: int| 0 <= j < i + 1 implies !beats(
                    (*#[trigger] pairs[j].1).price_bits,
                    l.price_bits,
                    highest,
                ) by {
                    assert(side@.contains_key(*pairs[j].0));
                    assert(side@.contains_key(*pairs[i].0));
                    assert(!is_nan(level.price_bits));
                    assert(!is_nan((*pairs[j].1).price_bits));
                    if prev is Some {
                        let b = prev->0;
                        assert(i > 0);
                        assert(exists|jj: int| 0 <= jj < i && *pairs[jj].1 == b);
                        let jj: int = choose|jj: int| 0 <= jj < i && *pairs[jj].1 == b;
                        assert(side@.contains_key(*pairs[jj].0));
                        assert(!is_nan(b.price_bits));
                        assert(l == b || l == level);
                        if j < i {
                            assert(!beats((*pairs[j].1).price_bits, b.price_bits, highest));
                        }
                    } else {
                        assert(i == 0);
                        assert(l == level);
                    }
                }
            }
        }
    }
    proof {
        if pairs.len() > 0 {
            assert(side@.contains_key(*pairs[0].0));
        }
        if let Some(l) = best {
            let j: int = choose|j: int| 0 <= j < pairs.len() && *pairs[j].1 == l;
            assert(side@.contains_key(*pairs[j].0));
        }
        if (forall|k: u64| #[trigger] side@.contains_key(k) ==> !is_nan(side@[k].price_bits)) {
            if let Some(l) = best {
                assert forall|k: u64| #[trigger] side@.contains_key(k) implies !beats(
                    side@[k].price_bits,
                    l.price_bits,
                    highest,
                ) by {
                    let j: int = choose|j: int| 0 <= j < pairs.len() && pairs[j] == (&k, &side@[k]);
                    assert(side@.contains_key(*pairs[j].0));
                }
            }
        }
    }
    best
}

/// Facts about the pairs a walk over a map yields.
proof fn lemma_iter_pairs(side: &HashMap<u64, PriceLevel>)
    ensures
        spec_hash_map_iter(side).remaining().len() == side@.len(),
        forall|j: int|
            0 <= j < spec_hash_map_iter(side).remaining().len() ==> #[trigger] side@.contains_key(
                *spec_hash_map_iter(side).remaining()[j].0,
            ) && side@[*spec_hash_map_iter(side).remaining()[j].0]
                == *spec_hash_map_iter(side).remaining()[j].1,
        forall|k: u64| #[trigger] side@.contains_key(k) ==> exists|j: int|
            0 <= j < spec_hash_map_iter(side).remaining().len() && spec_hash_map_iter(side).remaining()[j]
                == (&k, &side@[k]),
{
    let v = spec_hash_map_iter(side).remaining();
    assert forall|k: u64| #[trigger] side@.contains_key(k) implies exists|j: int|
        0 <= j < v.len() && v[j] == (&k, &side@[k]) by {
        assert(v.contains((&k, &side@[k])));
    }
}

fn side_levels(side: &HashMap<u64, PriceLevel>) -> (r: Vec<PriceLevel>)
    ensures
        lists_side(side@, r@),
{
    let ghost pairs = spec_hash_map_iter(side).remaining();
    proof {
        lemma_iter_pairs(side);
    }
    let mut out: Vec<PriceLevel> = Vec::new();
    for (k, v) in it: side.iter()
        invariant
            it.seq() == pairs,
            out@.len() == it.index(),
            forall|j: int| 0 <= j < it.index() ==> out@[j] == *pairs[j].1,
    {
        out.push(*v);
    }
    proof {
        assert forall|i: int| 0 <= i < out@.len() implies #[trigger] is_level_of(side@, out@[i]) by {
            let k: u64 = *pairs[i].0;
            assert(side@.contains_key(k) && side@[k] == out@[i]);
        }
        assert forall|k: u64| #[trigger] side@.contains_key(k) implies out@.contains(side@[k]) by {
            let j: int = choose|j: int| 0 <= j < pairs.len() && pairs[j] == (&k, &side@[k]);
            assert(out@[j] == side@[k]);
        }
    }
    out
}

/// Builds a book side from levels; a later level replaces an earlier one
/// at the same price.
fn index_levels(levels: Vec<PriceLevel>) -> (r: HashMap<u64, PriceLevel>)
    ensures
        r@ == indexed(levels@),
{
    let mut m: HashMap<u64, PriceLevel> = HashMap::new();
    let mut i: usize = 0;
    while i < levels.len()
        invariant
            i <= levels@.len(),
            m@ == indexed(levels@.take(i as int)),
        decreases levels@.len() - i,
    {
        proof {
            assert(levels@.take(i as int + 1).drop_last() =~= levels@.take(i as int));
        }
        let l = levels[i];
        m.insert(l.price_bits, l);
        i = i + 1;
    }
    proof {
        assert(levels@.take(levels@.len() as int) =~= levels@);
    }
    m
}

/// Replaying events keeps both sides keyed by price.
pub proof fn lemma_replay_keyed(snapshot_id: u64, init: Replay, events: Seq<RawDepthUpdate>)
    requires
        keyed_by_price(init.bids),
        keyed_by_price(init.asks),
    ensures
        keyed_by_price(replay(snapshot_id, init, events).bids),
        keyed_by_price(replay(snapshot_id, init, events).asks),
    decreases events.len(),
{
    if events.len() > 0 {
        lemma_replay_keyed(snapshot_id, init, events.drop_last());
        let r = replay(snapshot_id, init, events.drop_last());
        lemma_side_applied_keyed(r.bids, events.last().bids@);
        lemma_side_applied_keyed(r.asks, events.last().asks@);
    }
}

/// A book synced from a snapshot keeps both sides keyed by price.
pub proof fn lemma_synced_keyed(s: RestDepthSnapshot, events: Seq<RawDepthUpdate>)
    ensures
        keyed_by_price(synced_from(s, events).bids),
        keyed_by_price(synced_from(s, events).asks),
{
    lemma_indexed_keyed(parsed_levels(s.bids@));
    lemma_indexed_keyed(parsed_levels(s.asks@));
    lemma_replay_keyed(s.last_update_id, snapshot_start(s), events);
}

/// A side keyed by price stays so after wire levels are applied.
pub proof fn lemma_side_applied_keyed(m: Map<u64, PriceLevel>, updates: Seq<RawLevel>)
    requires
        keyed_by_price(m),
    ensures
        keyed_by_price(side_applied(m, updates)),
    decreases updates.len(),
{
    if updates.len() > 0 {
        lemma_side_applied_keyed(m, updates.drop_last());
    }
}

/// A side built from levels is keyed by price.
pub proof fn lemma_indexed_keyed(levels: Seq<PriceLevel>)
    ensures
        keyed_by_price(indexed(levels)),
    decreases levels.len(),
{
    if levels.len() > 0 {
        lemma_indexed_keyed(levels.drop_last());
    }
}

} // verus!
