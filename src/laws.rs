//! Properties that relate the book's operations to one another.

use crate::book::{
    levels_of, lists_levels, side_of_label, sides_after_change, sides_after_changes,
    strictly_ascending, strictly_descending, PriceData, Side,
};
use vstd::prelude::*;

verus! {

/// One side of a pair `(bids, asks)`.
pub open spec fn side_levels(sides: (Map<u64, u64>, Map<u64, u64>), side: Side) -> Map<u64, u64> {
    match side {
        Side::Bid => sides.0,
        Side::Ask => sides.1,
    }
}

/// Whether an incremental entry sets the level at `price` on `side`.
pub open spec fn touches(c: (Seq<char>, u64, u64), side: Side, price: u64) -> bool {
    side_of_label(c.0) == Some(side) && c.1 == price
}

/// Every stored level has a positive size.
pub open spec fn sizes_positive(m: Map<u64, u64>) -> bool {
    forall|p: u64| m.contains_key(p) ==> m[p] > 0
}

/// Applying a batch that is split in two gives the same book as applying
/// the first part and then the second: changes apply one after another, in
/// order, whatever the batches they come in.
pub proof fn law_batches_compose(
    bids: Map<u64, u64>,
    asks: Map<u64, u64>,
    first: Seq<(Seq<char>, u64, u64)>,
    second: Seq<(Seq<char>, u64, u64)>,
)
    ensures
        sides_after_changes(bids, asks, first + second) == ({
            let (b, a) = sides_after_changes(bids, asks, first);
            sides_after_changes(b, a, second)
        }),
    decreases second.len(),
{
    if second.len() == 0 {
        assert(first + second =~= first);
    } else {
        law_batches_compose(bids, asks, first, second.drop_last());
        assert((first + second).drop_last() =~= first + second.drop_last());
    }
}

/// A batch of one entry does what that entry does alone.
pub proof fn law_single_entry_batch(
    bids: Map<u64, u64>,
    asks: Map<u64, u64>,
    c: (Seq<char>, u64, u64),
)
    ensures
        sides_after_changes(bids, asks, seq![c]) == sides_after_change(bids, asks, c),
{
    let empty = Seq::<(Seq<char>, u64, u64)>::empty();
    assert(seq![c].drop_last() =~= empty);
    assert(seq![c].last() == c);
    assert(sides_after_changes(bids, asks, empty) == (bids, asks));
}

/// After a batch, a level at a price that some entry set is present exactly
/// when the last such entry has a positive size, and then holds that size.
pub proof fn law_last_entry_decides(
    bids: Map<u64, u64>,
    asks: Map<u64, u64>,
    cs: Seq<(Seq<char>, u64, u64)>,
    side: Side,
    price: u64,
    i: int,
)
    requires
        0 <= i < cs.len(),
        touches(cs[i], side, price),
        forall|j: int| i < j < cs.len() ==> !touches(#[trigger] cs[j], side, price),
    ensures
        side_levels(sides_after_changes(bids, asks, cs), side).contains_key(price) == (cs[i].2
            > 0),
        cs[i].2 > 0 ==> side_levels(sides_after_changes(bids, asks, cs), side)[price] == cs[i].2,
    decreases cs.len(),
{
    if i < cs.len() - 1 {
        law_last_entry_decides(bids, asks, cs.drop_last(), side, price, i);
        assert(!touches(cs[cs.len() - 1], side, price));
    }
}

/// After a batch, a level at a price that no entry set is as it was.
pub proof fn law_untouched_level_kept(
    bids: Map<u64, u64>,
    asks: Map<u64, u64>,
    cs: Seq<(Seq<char>, u64, u64)>,
    side: Side,
    price: u64,
)
    requires
        forall|j: int| 0 <= j < cs.len() ==> !touches(#[trigger] cs[j], side, price),
    ensures
        side_levels(sides_after_changes(bids, asks, cs), side).contains_key(price)
            == side_levels((bids, asks), side).contains_key(price),
        side_levels(sides_after_changes(bids, asks, cs), side)[price] == side_levels(
            (bids, asks),
            side,
        )[price],
    decreases cs.len(),
{
    if cs.len() > 0 {
        law_untouched_level_kept(bids, asks, cs.drop_last(), side, price);
        assert(!touches(cs[cs.len() - 1], side, price));
    }
}

/// A book whose levels all have positive sizes keeps that after any batch:
/// a zero size removes a level and never stores one.
pub proof fn law_batch_keeps_sizes_positive(
    bids: Map<u64, u64>,
    asks: Map<u64, u64>,
    cs: Seq<(Seq<char>, u64, u64)>,
)
    requires
        sizes_positive(bids),
        sizes_positive(asks),
    ensures
        sizes_positive(sides_after_changes(bids, asks, cs).0),
        sizes_positive(sides_after_changes(bids, asks, cs).1),
    decreases cs.len(),
{
    if cs.len() > 0 {
        law_batch_keeps_sizes_positive(bids, asks, cs.drop_last());
    }
}

/// Applying the same entry twice does what applying it once does: the last
/// value wins.
pub proof fn law_change_idempotent(
    bids: Map<u64, u64>,
    asks: Map<u64, u64>,
    c: (Seq<char>, u64, u64),
)
    ensures
        sides_after_changes(bids, asks, seq![c, c]) == sides_after_changes(bids, asks, seq![c]),
{
    assert(seq![c, c].drop_last() =~= seq![c]);
    assert(seq![c].drop_last() =~= Seq::<(Seq<char>, u64, u64)>::empty());
    let (b, a) = sides_after_change(bids, asks, c);
    assert(sides_after_change(b, a, c) =~~= (b, a));
}

/// A zero-size entry at a price with no level on its side changes nothing.
pub proof fn law_zero_size_absent_is_noop(
    bids: Map<u64, u64>,
    asks: Map<u64, u64>,
    c: (Seq<char>, u64, u64),
)
    requires
        c.2 == 0,
        side_of_label(c.0) == Some(Side::Bid) ==> !bids.contains_key(c.1),
        side_of_label(c.0) == Some(Side::Ask) ==> !asks.contains_key(c.1),
    ensures
        sides_after_change(bids, asks, c) == (bids, asks),
{
    if side_of_label(c.0) == Some(Side::Bid) {
        assert(bids.remove(c.1) =~= bids);
    }
    if side_of_label(c.0) == Some(Side::Ask) {
        assert(asks.remove(c.1) =~= asks);
    }
}

/// `s[k]` is the last level of `s` at its price.
pub open spec fn is_last_write(s: Seq<PriceData>, k: int) -> bool {
    0 <= k < s.len() && forall|j: int| k < j < s.len() ==> #[trigger] s[j].price != s[k].price
}

proof fn lemma_levels_of_last_write(s: Seq<PriceData>, k: int)
    requires
        is_last_write(s, k),
    ensures
        levels_of(s).contains_key(s[k].price),
        levels_of(s)[s[k].price] == s[k].size,
    decreases s.len(),
{
    if k < s.len() - 1 {
        assert(s[s.len() - 1].price != s[k].price);
        assert(is_last_write(s.drop_last(), k)) by {
            assert forall|j: int| k < j < s.drop_last().len() implies #[trigger] s.drop_last()[
                j
            ].price != s.drop_last()[k].price by {
                assert(s.drop_last()[j] == s[j]);
            }
        }
        lemma_levels_of_last_write(s.drop_last(), k);
    }
}

proof fn lemma_levels_of_key(s: Seq<PriceData>, p: u64)
    requires
        levels_of(s).contains_key(p),
    ensures
        exists|k: int| is_last_write(s, k) && #[trigger] s[k].price == p,
    decreases s.len(),
{
    let n = s.len() - 1;
    if s[n].price == p {
        assert(is_last_write(s, n) && s[n].price == p);
    } else {
        lemma_levels_of_key(s.drop_last(), p);
        let k = choose|k: int| is_last_write(s.drop_last(), k) && #[trigger] s.drop_last()[k].price
            == p;
        assert(s[k] == s.drop_last()[k]);
        assert forall|j: int| k < j < s.len() implies #[trigger] s[j].price != s[k].price by {
            if j < n {
                assert(s[j] == s.drop_last()[j]);
            }
        }
        assert(is_last_write(s, k) && s[k].price == p);
    }
}

/// A listing of the side built from `input` holds exactly the last level of
/// `input` at each price.
proof fn lemma_listing_dedups(input: Seq<PriceData>, out: Seq<PriceData>)
    requires
        lists_levels(out, levels_of(input)),
    ensures
        forall|i: int|
            0 <= i < out.len() ==> exists|k: int| is_last_write(input, k) && input[k] == #[trigger] out[i],
        forall|k: int|
            is_last_write(input, k) ==> exists|i: int| 0 <= i < out.len() && out[i] == #[trigger] input[k],
{
    let m = levels_of(input);
    assert forall|i: int| 0 <= i < out.len() implies exists|k: int|
        is_last_write(input, k) && input[k] == #[trigger] out[i] by {
        lemma_levels_of_key(input, out[i].price);
        let k = choose|k: int| is_last_write(input, k) && #[trigger] input[k].price == out[i].price;
        lemma_levels_of_last_write(input, k);
    }
    assert forall|k: int| is_last_write(input, k) implies exists|i: int|
        0 <= i < out.len() && out[i] == #[trigger] input[k] by {
        lemma_levels_of_last_write(input, k);
        let i = choose|i: int| 0 <= i < out.len() && #[trigger] out[i].price == input[k].price;
    }
}

/// Replacing the book with a snapshot and then listing it gives bids in
/// strictly descending and asks in strictly ascending price order, holding
/// exactly the snapshot's levels after keeping the last level at each price.
/// `out_bids` and `out_asks` are what `dump` returns for that book.
pub proof fn law_snapshot_round_trip(
    bids: Seq<PriceData>,
    asks: Seq<PriceData>,
    out_bids: Seq<PriceData>,
    out_asks: Seq<PriceData>,
)
    requires
        lists_levels(out_bids, levels_of(bids)),
        strictly_descending(out_bids),
        lists_levels(out_asks, levels_of(asks)),
        strictly_ascending(out_asks),
    ensures
        forall|i: int, j: int|
            0 <= i < j < out_bids.len() ==> out_bids[i].price > out_bids[j].price,
        forall|i: int, j: int|
            0 <= i < j < out_asks.len() ==> out_asks[i].price < out_asks[j].price,
        forall|i: int|
            0 <= i < out_bids.len() ==> exists|k: int| is_last_write(bids, k) && bids[k] == #[trigger] out_bids[i],
        forall|k: int|
            is_last_write(bids, k) ==> exists|i: int| 0 <= i < out_bids.len() && out_bids[i] == #[trigger] bids[k],
        forall|i: int|
            0 <= i < out_asks.len() ==> exists|k: int| is_last_write(asks, k) && asks[k] == #[trigger] out_asks[i],
        forall|k: int|
            is_last_write(asks, k) ==> exists|i: int| 0 <= i < out_asks.len() && out_asks[i] == #[trigger] asks[k],
{
    lemma_listing_dedups(bids, out_bids);
    lemma_listing_dedups(asks, out_asks);
}

} // verus!
