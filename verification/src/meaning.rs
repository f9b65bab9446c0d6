//! What the basic operations mean, stated over their inputs and results in
//! plain arithmetic and sequence terms.

use vstd::prelude::*;
use crate::binance::{depth_url, parsed_levels, RawDepthUpdate, RawLevel, RestDepthSnapshot};
use crate::feed::stream_url_text;
use crate::ieee::{greater, is_nan, is_zero, less};
use crate::laws::{last_touch, lemma_side_applied_at};
use crate::orderbook::{continues, indexed, replay, replay_step, side_applied, snapshot_start, synced_from};
use crate::schema::PriceLevel;
use crate::text::{decimal, digit_char};

verus! {

/// Exactly the patterns of `+0.0` and `-0.0` denote zero.
pub proof fn law_zero_is_exactly_plus_and_minus_zero(bits: u64)
    ensures
        is_zero(bits) <==> (bits == 0 || bits == 0x8000_0000_0000_0000),
{
}

/// Exactly the patterns with every exponent bit set and a non-zero mantissa
/// are NaNs.
pub proof fn law_nan_is_all_ones_exponent_with_a_mantissa(bits: u64)
    ensures
        is_nan(bits) <==> (bits % 0x8000_0000_0000_0000 > 0x7FF0_0000_0000_0000),
{
}

/// The order of prices is the order of the numbers they denote: among
/// patterns without the sign bit a larger pattern is a larger number, among
/// patterns with it a larger pattern is a smaller number, a non-negative
/// number beats a negative one unless both are zeros, and a NaN compares
/// with nothing. `less` is `greater` the other way round.
pub proof fn law_price_order_is_numeric_order(a: u64, b: u64)
    ensures
        !is_nan(a) && !is_nan(b) && a < 0x8000_0000_0000_0000 && b < 0x8000_0000_0000_0000 ==> (
        greater(a, b) <==> a > b),
        !is_nan(a) && !is_nan(b) && a >= 0x8000_0000_0000_0000 && b >= 0x8000_0000_0000_0000 ==> (
        greater(a, b) <==> a < b),
        !is_nan(a) && !is_nan(b) && a < 0x8000_0000_0000_0000 && b >= 0x8000_0000_0000_0000 ==> (
        greater(a, b) <==> !(a == 0 && b == 0x8000_0000_0000_0000)),
        !is_nan(a) && !is_nan(b) && a >= 0x8000_0000_0000_0000 && b < 0x8000_0000_0000_0000 ==> !greater(
            a,
            b,
        ),
        is_nan(a) || is_nan(b) ==> !greater(a, b) && !less(a, b),
        less(a, b) == greater(b, a),
{
}

/// A text of decimal digits read as a number, most significant first.
pub open spec fn read_decimal(s: Seq<char>) -> int
    decreases s.len(),
{
    if s.len() == 0 {
        0
    } else {
        read_decimal(s.drop_last()) * 10 + (s.last() as int - 48)
    }
}

/// Whether every character is one of `0` to `9`.
pub open spec fn all_digits(s: Seq<char>) -> bool {
    forall|i: int| 0 <= i < s.len() ==> 48 <= #[trigger] (s[i] as int) <= 57
}

/// The decimal rendering of a number is base 10: it is made of digits, has
/// no leading zero (but for `0` itself), and reads back as the number.
pub proof fn law_decimal_reads_back(n: nat)
    ensures
        all_digits(decimal(n)),
        decimal(n).len() >= 1,
        decimal(n)[0] == '0' ==> n == 0 && decimal(n).len() == 1,
        read_decimal(decimal(n)) == n,
    decreases n,
{
    assert('0' as int == 48 && '1' as int == 49 && '2' as int == 50 && '3' as int == 51 && '4' as int
        == 52 && '5' as int == 53 && '6' as int == 54 && '7' as int == 55 && '8' as int == 56 && '9' as int
        == 57);
    if n >= 10 {
        law_decimal_reads_back(n / 10);
        let d = decimal(n);
        assert(d.drop_last() == decimal(n / 10));
        assert(d[0] == decimal(n / 10)[0]);
        assert(digit_char((n % 10) as nat) as int == 48 + n % 10);
        assert(d.last() == digit_char((n % 10) as nat));
        assert(read_decimal(d) == read_decimal(decimal(n / 10)) * 10 + (d.last() as int - 48));
        assert(n == (n / 10) * 10 + n % 10);
    } else {
        assert(digit_char(n) as int == 48 + n);
        let d = decimal(n);
        assert(d.drop_last() =~= Seq::<char>::empty());
        assert(read_decimal(d) == read_decimal(d.drop_last()) * 10 + (d.last() as int - 48));
    }
}

/// Different numbers have different renderings.
pub proof fn law_decimal_is_injective(a: nat, b: nat)
    ensures
        decimal(a) == decimal(b) ==> a == b,
{
    law_decimal_reads_back(a);
    law_decimal_reads_back(b);
}

proof fn lemma_middle_of_equal_frames(p: Seq<char>, x: Seq<char>, y: Seq<char>, q: Seq<char>)
    requires
        p + x + q == p + y + q,
    ensures
        x == y,
{
    let l = p + x + q;
    let r = p + y + q;
    assert(l.len() == p.len() + x.len() + q.len());
    assert(r.len() == p.len() + y.len() + q.len());
    assert(x.len() == y.len());
    assert(x =~= l.subrange(p.len() as int, (p.len() + x.len()) as int));
    assert(y =~= r.subrange(p.len() as int, (p.len() + y.len()) as int));
}

/// The stream URL names the configured update speed: different speeds give
/// different URLs, and the speed's digits stand right after `@depth@`.
pub proof fn law_stream_url_names_the_speed(base: Seq<char>, symbol: Seq<char>, s: nat, t: nat)
    ensures
        stream_url_text(base, symbol, s) == stream_url_text(base, symbol, t) ==> s == t,
        stream_url_text(base, symbol, s) == (base + "?streams="@ + symbol + "@depth@"@) + decimal(s) + (
        "ms/"@ + symbol + "@trade"@),
{
    let p = base + "?streams="@ + symbol + "@depth@"@;
    let q = "ms/"@ + symbol + "@trade"@;
    assert(stream_url_text(base, symbol, s) =~= p + decimal(s) + q);
    assert(stream_url_text(base, symbol, t) =~= p + decimal(t) + q);
    if stream_url_text(base, symbol, s) == stream_url_text(base, symbol, t) {
        lemma_middle_of_equal_frames(p, decimal(s), decimal(t), q);
        law_decimal_is_injective(s, t);
    }
}

/// The snapshot URL names the requested depth: different limits give
/// different URLs, and the limit's digits end the URL.
pub proof fn law_depth_url_names_the_limit(base: Seq<char>, upper_symbol: Seq<char>, s: nat, t: nat)
    ensures
        depth_url(base, upper_symbol, s) == depth_url(base, upper_symbol, t) ==> s == t,
        depth_url(base, upper_symbol, s) == (base + "/api/v3/depth?symbol="@ + upper_symbol
            + "&limit="@) + decimal(s),
{
    let p = base + "/api/v3/depth?symbol="@ + upper_symbol + "&limit="@;
    let q = Seq::<char>::empty();
    assert(depth_url(base, upper_symbol, s) =~= p + decimal(s) + q);
    assert(depth_url(base, upper_symbol, t) =~= p + decimal(t) + q);
    if depth_url(base, upper_symbol, s) == depth_url(base, upper_symbol, t) {
        lemma_middle_of_equal_frames(p, decimal(s), decimal(t), q);
        law_decimal_is_injective(s, t);
    }
}

/// A live event is accepted exactly when its first id follows the last one,
/// whatever its last id.
pub proof fn law_an_event_continues_exactly_when_it_follows(last: u64, e: RawDepthUpdate)
    ensures
        continues(last, e) <==> e.first_update_id == last + 1,
{
}

/// Whether a wire level is complete and at price `k`.
pub open spec fn sets_price(l: RawLevel, k: u64) -> bool {
    l.price == Some(k) && l.quantity is Some
}

proof fn lemma_last_touch_is_last_level(updates: Seq<RawLevel>, i: int, k: u64)
    requires
        0 <= i < updates.len(),
        sets_price(updates[i], k),
        forall|j: int| i < j < updates.len() ==> !sets_price(#[trigger] updates[j], k),
    ensures
        last_touch(updates, k) == updates[i].quantity,
    decreases updates.len(),
{
    let n = updates.len() - 1;
    if i < n {
        assert(!sets_price(updates[n], k));
        let init = updates.drop_last();
        assert forall|j: int| i < j < init.len() implies !sets_price(#[trigger] init[j], k) by {
            assert(init[j] == updates[j]);
            assert(!sets_price(updates[j], k));
        }
        lemma_last_touch_is_last_level(init, i, k);
    }
}

proof fn lemma_last_touch_none(updates: Seq<RawLevel>, k: u64)
    requires
        forall|j: int| 0 <= j < updates.len() ==> !sets_price(#[trigger] updates[j], k),
    ensures
        last_touch(updates, k) is None,
    decreases updates.len(),
{
    if updates.len() > 0 {
        let init = updates.drop_last();
        assert(!sets_price(updates[updates.len() - 1], k));
        assert forall|j: int| 0 <= j < init.len() implies !sets_price(#[trigger] init[j], k) by {
            assert(init[j] == updates[j]);
        }
        lemma_last_touch_none(init, k);
    }
}

/// After wire levels, a price set by a complete level is decided by the last
/// such level: a quantity of `+0.0` or `-0.0` removes the price, any other
/// quantity leaves exactly that level at that price.
pub proof fn law_last_level_at_a_price_decides_it(m: Map<u64, PriceLevel>, updates: Seq<RawLevel>, i: int)
    requires
        0 <= i < updates.len(),
        updates[i].price is Some,
        updates[i].quantity is Some,
        forall|j: int| i < j < updates.len() ==> !sets_price(#[trigger] updates[j], updates[i].price->0),
    ensures
        ({
            let k = updates[i].price->0;
            let q = updates[i].quantity->0;
            let r = side_applied(m, updates);
            &&& (q == 0 || q == 0x8000_0000_0000_0000) ==> !r.contains_key(k)
            &&& !(q == 0 || q == 0x8000_0000_0000_0000) ==> r.contains_key(k) && r[k] == PriceLevel {
                price_bits: k,
                quantity_bits: q,
            }
        }),
{
    let k = updates[i].price->0;
    lemma_last_touch_is_last_level(updates, i, k);
    lemma_side_applied_at(m, updates, k);
}

/// After wire levels, a price that no complete level sets is as it was.
pub proof fn law_untouched_prices_are_kept(m: Map<u64, PriceLevel>, updates: Seq<RawLevel>, k: u64)
    requires
        forall|j: int| 0 <= j < updates.len() ==> !sets_price(#[trigger] updates[j], k),
    ensures
        side_applied(m, updates).contains_key(k) == m.contains_key(k),
        m.contains_key(k) ==> side_applied(m, updates)[k] == m[k],
{
    lemma_last_touch_none(updates, k);
    lemma_side_applied_at(m, updates, k);
}

/// A run of buffered events whose first straddles the snapshot id and whose
/// later events each start right after the previous one ends.
pub open spec fn straddling_chain(id: u64, events: Seq<RawDepthUpdate>) -> bool {
    &&& events.len() > 0
    &&& events[0].first_update_id <= id + 1 <= events[0].final_update_id
    &&& forall|i: int| 0 < i < events.len() ==> #[trigger] events[i].first_update_id == events[i
        - 1].final_update_id + 1
    &&& forall|i: int| 0 <= i < events.len() ==> #[trigger] events[i].first_update_id
        <= events[i].final_update_id
}

/// A book side after every level of every event, one event after another.
pub open spec fn every_level_applied(m: Map<u64, PriceLevel>, events: Seq<RawDepthUpdate>, bids: bool) -> Map<
    u64,
    PriceLevel,
>
    decreases events.len(),
{
    if events.len() == 0 {
        m
    } else {
        side_applied(
            every_level_applied(m, events.drop_last(), bids),
            if bids {
                events.last().bids@
            } else {
                events.last().asks@
            },
        )
    }
}

/// Syncing from a snapshot and a straddling chain of buffered events applies
/// every level of every event of the chain, in order, on top of the
/// snapshot's levels, and ends at the last event's `u`.
pub proof fn law_synced_book_applies_every_level_of_the_chain(s: RestDepthSnapshot, events: Seq<RawDepthUpdate>)
    requires
        straddling_chain(s.last_update_id, events),
    ensures
        synced_from(s, events).last_update_id == events.last().final_update_id,
        synced_from(s, events).bids == every_level_applied(indexed(parsed_levels(s.bids@)), events, true),
        synced_from(s, events).asks == every_level_applied(indexed(parsed_levels(s.asks@)), events, false),
        synced_from(s, events).started,
        !synced_from(s, events).halted,
        synced_from(s, events).last_update_id > s.last_update_id,
    decreases events.len(),
{
    let id: u64 = s.last_update_id;
    let n: int = events.len() - 1;
    let e = events[n];
    assert(events.last() == e);
    assert(e.first_update_id <= e.final_update_id);
    assert(synced_from(s, events) == replay_step(id, synced_from(s, events.drop_last()), e));
    if n == 0 {
        assert(events.drop_last() =~= Seq::<RawDepthUpdate>::empty());
        assert(synced_from(s, events.drop_last()) == snapshot_start(s));
        assert(every_level_applied(indexed(parsed_levels(s.bids@)), events.drop_last(), true) == indexed(
            parsed_levels(s.bids@),
        ));
        assert(every_level_applied(indexed(parsed_levels(s.asks@)), events.drop_last(), false) == indexed(
            parsed_levels(s.asks@),
        ));
    } else {
        let init = events.drop_last();
        assert(straddling_chain(id, init)) by {
            assert(init[0] == events[0]);
            assert forall|i: int| 0 < i < init.len() implies #[trigger] init[i].first_update_id
                == init[i - 1].final_update_id + 1 by {
                assert(init[i] == events[i]);
                assert(init[i - 1] == events[i - 1]);
            }
            assert forall|i: int| 0 <= i < init.len() implies #[trigger] init[i].first_update_id
                <= init[i].final_update_id by {
                assert(init[i] == events[i]);
            }
        }
        law_synced_book_applies_every_level_of_the_chain(s, init);
        assert(init.last() == events[n - 1]);
        assert(e.first_update_id == events[n - 1].final_update_id + 1);
    }
}

} // verus!
