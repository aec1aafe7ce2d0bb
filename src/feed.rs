//! Classifies decoded feed messages and applies them to a book.

use crate::book::{
    change_view, change_views, levels_of, sides_after_changes, unrecognized_count, Book, L2UpdateData,
    PriceData, PriceDataWithSide, SnapshotData,
};
use crate::decimal::{chars_of, decimal_u64, parse_decimal};
use vstd::prelude::*;

verus! {

/// A feed message with its fields read out of the wire text. A field holds
/// `None` when the message lacks it or it does not have the expected shape
/// (a string, or a list of lists of strings).
pub struct FeedMessage {
    /// The `type` discriminant.
    pub kind: Option<String>,
    /// The instrument the message is about.
    pub product_id: Option<String>,
    /// Snapshot bid levels, each `[price, size]`.
    pub bids: Option<Vec<Vec<String>>>,
    /// Snapshot ask levels, each `[price, size]`.
    pub asks: Option<Vec<Vec<String>>>,
    /// Incremental entries, each `[side, price, size]`.
    pub changes: Option<Vec<Vec<String>>>,
}

/// The fields of a message as plain values.
pub struct MessageView {
    pub kind: Option<Seq<char>>,
    pub product_id: Option<Seq<char>>,
    pub bids: Option<Seq<Seq<Seq<char>>>>,
    pub asks: Option<Seq<Seq<Seq<char>>>>,
    pub changes: Option<Seq<Seq<Seq<char>>>>,
}

impl View for FeedMessage {
    type V = MessageView;

    open spec fn view(&self) -> MessageView {
        MessageView {
            kind: self.kind.deep_view(),
            product_id: self.product_id.deep_view(),
            bids: self.bids.deep_view(),
            asks: self.asks.deep_view(),
            changes: self.changes.deep_view(),
        }
    }
}

/// What a message asks of the book.
pub enum FeedEvent {
    /// Replace both sides.
    Snapshot(SnapshotData),
    /// Apply changes in order.
    L2Update(L2UpdateData),
    /// The feed confirmed the subscription; nothing to do.
    SubscriptionAck,
    /// A message of a kind this library does not handle; nothing to do.
    Unrecognized,
}

/// Why a message was dropped.
#[derive(Clone, Copy, Debug, PartialEq, Eq, Structural)]
pub enum FeedError {
    /// The message is about another instrument, or names none.
    InstrumentMismatch,
    /// A field is missing, has the wrong shape, or holds a malformed number.
    Decode,
}

/// The kind of a message, by its discriminant.
#[derive(Clone, Copy, Debug, PartialEq, Eq, Structural)]
pub enum MessageKind {
    Snapshot,
    L2Update,
    Subscriptions,
    Other,
}

pub open spec fn kind_of_label(s: Seq<char>) -> MessageKind {
    if s == seq!['s', 'n', 'a', 'p', 's', 'h', 'o', 't'] {
        MessageKind::Snapshot
    } else if s == seq!['l', '2', 'u', 'p', 'd', 'a', 't', 'e'] {
        MessageKind::L2Update
    } else if s == seq!['s', 'u', 'b', 's', 'c', 'r', 'i', 'p', 't', 'i', 'o', 'n', 's'] {
        MessageKind::Subscriptions
    } else {
        MessageKind::Other
    }
}

/// The kind of a message; one without a discriminant is of no known kind.
pub open spec fn message_kind(kind: Option<Seq<char>>) -> MessageKind {
    match kind {
        Some(k) => kind_of_label(k),
        None => MessageKind::Other,
    }
}

/// Whether the message names exactly the subscribed instrument.
pub open spec fn names_instrument(product_id: Option<Seq<char>>, instrument: Seq<char>) -> bool {
    match product_id {
        Some(p) => p == instrument,
        None => false,
    }
}

/// A snapshot row `[price, size]` read as a level.
pub open spec fn level_of_row(row: Seq<Seq<char>>) -> Option<PriceData> {
    if row.len() == 2 {
        match (decimal_u64(row[0]), decimal_u64(row[1])) {
            (Some(price), Some(size)) => Some(PriceData { price, size }),
            _ => None,
        }
    } else {
        None
    }
}

/// Snapshot rows read as levels, when every row reads.
pub open spec fn levels_of_rows(rows: Seq<Seq<Seq<char>>>) -> Option<Seq<PriceData>>
    decreases rows.len(),
{
    if rows.len() == 0 {
        Some(Seq::empty())
    } else {
        match (levels_of_rows(rows.drop_last()), level_of_row(rows.last())) {
            (Some(s), Some(l)) => Some(s.push(l)),
            _ => None,
        }
    }
}

/// An incremental row `[side, price, size]` read as plain values; the side
/// label is kept as it is.
pub open spec fn change_of_row(row: Seq<Seq<char>>) -> Option<(Seq<char>, u64, u64)> {
    if row.len() == 3 {
        match (decimal_u64(row[1]), decimal_u64(row[2])) {
            (Some(price), Some(size)) => Some((row[0], price, size)),
            _ => None,
        }
    } else {
        None
    }
}

/// Incremental rows read as plain values, when every row reads.
pub open spec fn changes_of_rows(rows: Seq<Seq<Seq<char>>>) -> Option<Seq<(Seq<char>, u64, u64)>>
    decreases rows.len(),
{
    if rows.len() == 0 {
        Some(Seq::empty())
    } else {
        match (changes_of_rows(rows.drop_last()), change_of_row(rows.last())) {
            (Some(s), Some(c)) => Some(s.push(c)),
            _ => None,
        }
    }
}

/// Snapshot rows of an optional field; a missing field does not read.
pub open spec fn levels_of_field(rows: Option<Seq<Seq<Seq<char>>>>) -> Option<Seq<PriceData>> {
    match rows {
        Some(r) => levels_of_rows(r),
        None => None,
    }
}

/// Incremental rows of an optional field; a missing field does not read.
pub open spec fn changes_of_field(rows: Option<Seq<Seq<Seq<char>>>>) -> Option<
    Seq<(Seq<char>, u64, u64)>,
> {
    match rows {
        Some(r) => changes_of_rows(r),
        None => None,
    }
}

/// Tells a discriminant's kind.
pub fn kind_from_label(label: &str) -> (r: MessageKind)
    ensures
        r == kind_of_label(label@),
{
    let c = chars_of(label);
    let snapshot: [char; 8] = ['s', 'n', 'a', 'p', 's', 'h', 'o', 't'];
    let l2update: [char; 8] = ['l', '2', 'u', 'p', 'd', 'a', 't', 'e'];
    let subscriptions: [char; 13] = ['s', 'u', 'b', 's', 'c', 'r', 'i', 'p', 't', 'i', 'o', 'n', 's'];
    if chars_equal(&c, &snapshot) {
        assert(snapshot@ =~= seq!['s', 'n', 'a', 'p', 's', 'h', 'o', 't']);
        MessageKind::Snapshot
    } else if chars_equal(&c, &l2update) {
        assert(l2update@ =~= seq!['l', '2', 'u', 'p', 'd', 'a', 't', 'e']);
        assert(c@ != seq!['s', 'n', 'a', 'p', 's', 'h', 'o', 't']);
        MessageKind::L2Update
    } else if chars_equal(&c, &subscriptions) {
        assert(subscriptions@ =~= seq!['s', 'u', 'b', 's', 'c', 'r', 'i', 'p', 't', 'i', 'o', 'n', 's']);
        MessageKind::Subscriptions
    } else {
        assert(snapshot@ =~= seq!['s', 'n', 'a', 'p', 's', 'h', 'o', 't']);
        assert(l2update@ =~= seq!['l', '2', 'u', 'p', 'd', 'a', 't', 'e']);
        assert(subscriptions@ =~= seq!['s', 'u', 'b', 's', 'c', 'r', 'i', 'p', 't', 'i', 'o', 'n', 's']);
        MessageKind::Other
    }
}

fn chars_equal(a: &Vec<char>, b: &[char]) -> (r: bool)
    ensures
        r == (a@ == b@),
{
    if a.len() != b.len() {
        return false;
    }
    let mut i: usize = 0;
    while i < a.len()
        invariant
            a.len() == b@.len(),
            forall|j: int| 0 <= j < i ==> a@[j] == b@[j],
        decreases a.len() - i,
    {
        if a[i] != b[i] {
            return false;
        }
        i = i + 1;
    }
    assert(a@ =~= b@);
    true
}

proof fn lemma_levels_none_extends(rows: Seq<Seq<Seq<char>>>, i: int, j: int)
    requires
        0 <= i <= j <= rows.len(),
        levels_of_rows(rows.subrange(0, i)) is None,
    ensures
        levels_of_rows(rows.subrange(0, j)) is None,
    decreases j - i,
{
    if i < j {
        lemma_levels_none_extends(rows, i, j - 1);
        assert(rows.subrange(0, j).drop_last() =~= rows.subrange(0, j - 1));
    }
}

proof fn lemma_changes_none_extends(rows: Seq<Seq<Seq<char>>>, i: int, j: int)
    requires
        0 <= i <= j <= rows.len(),
        changes_of_rows(rows.subrange(0, i)) is None,
    ensures
        changes_of_rows(rows.subrange(0, j)) is None,
    decreases j - i,
{
    if i < j {
        lemma_changes_none_extends(rows, i, j - 1);
        assert(rows.subrange(0, j).drop_last() =~= rows.subrange(0, j - 1));
    }
}

/// Reads a snapshot row `[price, size]`.
pub fn decode_level(row: &Vec<String>) -> (r: Option<PriceData>)
    ensures
        r == level_of_row(row.deep_view()),
{
    if row.len() != 2 {
        return None;
    }
    match (parse_decimal(row[0].as_str()), parse_decimal(row[1].as_str())) {
        (Some(price), Some(size)) => Some(PriceData { price, size }),
        _ => None,
    }
}

/// Reads an incremental row `[side, price, size]`, keeping the side label
/// as it is.
pub fn decode_change(row: &Vec<String>) -> (r: Option<PriceDataWithSide>)
    ensures
        match r {
            Some(c) => change_of_row(row.deep_view()) == Some(change_view(c)),
            None => change_of_row(row.deep_view()) is None,
        },
{
    if row.len() != 3 {
        return None;
    }
    match (parse_decimal(row[1].as_str()), parse_decimal(row[2].as_str())) {
        (Some(price), Some(size)) => Some(PriceDataWithSide { side: row[0].clone(), price, size }),
        _ => None,
    }
}

/// Reads every snapshot row; `None` if any row does not read.
pub fn decode_levels(rows: &Vec<Vec<String>>) -> (r: Option<Vec<PriceData>>)
    ensures
        match r {
            Some(v) => levels_of_rows(rows.deep_view()) == Some(v@),
            None => levels_of_rows(rows.deep_view()) is None,
        },
{
    let mut out: Vec<PriceData> = Vec::new();
    for i in 0..rows.len()
        invariant
            levels_of_rows(rows.deep_view().subrange(0, i as int)) == Some(out@),
    {
        let ghost d = rows.deep_view();
        assert(d.subrange(0, i + 1).drop_last() =~= d.subrange(0, i as int));
        assert(d.subrange(0, i + 1).last() == rows@[i as int].deep_view());
        match decode_level(&rows[i]) {
            Some(level) => out.push(level),
            None => {
                proof {
                    lemma_levels_none_extends(d, i + 1, d.len() as int);
                    assert(d.subrange(0, d.len() as int) =~= d);
                }
                return None;
            },
        }
    }
    assert(rows.deep_view().subrange(0, rows@.len() as int) =~= rows.deep_view());
    Some(out)
}

/// Reads every incremental row; `None` if any row does not read.
pub fn decode_changes(rows: &Vec<Vec<String>>) -> (r: Option<Vec<PriceDataWithSide>>)
    ensures
        match r {
            Some(v) => changes_of_rows(rows.deep_view()) == Some(change_views(v@)),
            None => changes_of_rows(rows.deep_view()) is None,
        },
{
    let mut out: Vec<PriceDataWithSide> = Vec::new();
    for i in 0..rows.len()
        invariant
            changes_of_rows(rows.deep_view().subrange(0, i as int)) == Some(change_views(out@)),
    {
        let ghost d = rows.deep_view();
        assert(d.subrange(0, i + 1).drop_last() =~= d.subrange(0, i as int));
        assert(d.subrange(0, i + 1).last() == rows@[i as int].deep_view());
        match decode_change(&rows[i]) {
            Some(c) => {
                let ghost before = out@;
                out.push(c);
                assert(change_views(out@) =~= change_views(before).push(change_view(c)));
            },
            None => {
                proof {
                    lemma_changes_none_extends(d, i + 1, d.len() as int);
                    assert(d.subrange(0, d.len() as int) =~= d);
                }
                return None;
            },
        }
    }
    assert(rows.deep_view().subrange(0, rows@.len() as int) =~= rows.deep_view());
    Some(out)
}

/// What handling a message does to a book whose sides are `bids` and
/// `asks`: the number of skipped entries and the new sides, or why the
/// message is dropped (the book then stays as it is).
pub open spec fn message_outcome(
    msg: MessageView,
    instrument: Seq<char>,
    bids: Map<u64, u64>,
    asks: Map<u64, u64>,
) -> Result<(nat, Map<u64, u64>, Map<u64, u64>), FeedError> {
    match message_kind(msg.kind) {
        MessageKind::Snapshot => if !names_instrument(msg.product_id, instrument) {
            Err(FeedError::InstrumentMismatch)
        } else {
            match (levels_of_field(msg.bids), levels_of_field(msg.asks)) {
                (Some(b), Some(a)) => Ok((0nat, levels_of(b), levels_of(a))),
                _ => Err(FeedError::Decode),
            }
        },
        MessageKind::L2Update => if !names_instrument(msg.product_id, instrument) {
            Err(FeedError::InstrumentMismatch)
        } else {
            match changes_of_field(msg.changes) {
                Some(c) => {
                    let (b, a) = sides_after_changes(bids, asks, c);
                    Ok((unrecognized_count(c), b, a))
                },
                None => Err(FeedError::Decode),
            }
        },
        _ => Ok((0nat, bids, asks)),
    }
}

/// The event that a message is, checked against the subscribed instrument.
pub open spec fn classified(msg: MessageView, instrument: Seq<char>, r: Result<
    FeedEvent,
    FeedError,
>) -> bool {
    match message_kind(msg.kind) {
        MessageKind::Snapshot => if !names_instrument(msg.product_id, instrument) {
            r == Err::<FeedEvent, FeedError>(FeedError::InstrumentMismatch)
        } else {
            match (levels_of_field(msg.bids), levels_of_field(msg.asks)) {
                (Some(b), Some(a)) => match r {
                    Ok(FeedEvent::Snapshot(d)) => d.product_id@ == instrument && d.bids@ == b
                        && d.asks@ == a,
                    _ => false,
                },
                _ => r == Err::<FeedEvent, FeedError>(FeedError::Decode),
            }
        },
        MessageKind::L2Update => if !names_instrument(msg.product_id, instrument) {
            r == Err::<FeedEvent, FeedError>(FeedError::InstrumentMismatch)
        } else {
            match changes_of_field(msg.changes) {
                Some(c) => match r {
                    Ok(FeedEvent::L2Update(d)) => d.product_id@ == instrument && change_views(
                        d.changes@,
                    ) == c,
                    _ => false,
                },
                None => r == Err::<FeedEvent, FeedError>(FeedError::Decode),
            }
        },
        MessageKind::Subscriptions => r matches Ok(FeedEvent::SubscriptionAck),
        MessageKind::Other => r matches Ok(FeedEvent::Unrecognized),
    }
}

/// Whether `product_id` names exactly `instrument`.
fn is_instrument(product_id: &Option<String>, instrument: &str) -> (r: bool)
    ensures
        r == names_instrument(product_id.deep_view(), instrument@),
{
    match product_id {
        Some(p) => {
            let a = chars_of(p.as_str());
            let b = chars_of(instrument);
            chars_equal(&a, b.as_slice())
        },
        None => false,
    }
}

/// Turns a message into an event. A snapshot or an incremental update must
/// name `instrument` (else `InstrumentMismatch`) and have all its rows read
/// (else `Decode`); a subscription acknowledgement and a message of any other
/// kind pass as they are.
pub fn classify(msg: &FeedMessage, instrument: &str) -> (r: Result<FeedEvent, FeedError>)
    ensures
        classified(msg@, instrument@, r),
{
    let kind = match &msg.kind {
        Some(k) => kind_from_label(k.as_str()),
        None => MessageKind::Other,
    };
    match kind {
        MessageKind::Snapshot => {
            if !is_instrument(&msg.product_id, instrument) {
                return Err(FeedError::InstrumentMismatch);
            }
            let bids = match &msg.bids {
                Some(rows) => decode_levels(rows),
                None => None,
            };
            let asks = match &msg.asks {
                Some(rows) => decode_levels(rows),
                None => None,
            };
            match (bids, asks) {
                (Some(bids), Some(asks)) => Ok(
                    FeedEvent::Snapshot(
                        SnapshotData { product_id: instrument.to_owned(), bids, asks },
                    ),
                ),
                _ => Err(FeedError::Decode),
            }
        },
        MessageKind::L2Update => {
            if !is_instrument(&msg.product_id, instrument) {
                return Err(FeedError::InstrumentMismatch);
            }
            let changes = match &msg.changes {
                Some(rows) => decode_changes(rows),
                None => None,
            };
            match changes {
                Some(changes) => Ok(
                    FeedEvent::L2Update(L2UpdateData { product_id: instrument.to_owned(), changes }),
                ),
                None => Err(FeedError::Decode),
            }
        },
        MessageKind::Subscriptions => Ok(FeedEvent::SubscriptionAck),
        MessageKind::Other => Ok(FeedEvent::Unrecognized),
    }
}

/// Applies an event to a book; returns how many incremental entries were
/// skipped for an unrecognised side label.
pub fn apply_event(book: &mut Book, event: FeedEvent) -> (skipped: usize)
    ensures
        match event {
            FeedEvent::Snapshot(d) => skipped == 0 && final(book).bid_levels() == levels_of(
                d.bids@,
            ) && final(book).ask_levels() == levels_of(d.asks@),
            FeedEvent::L2Update(d) => skipped == unrecognized_count(change_views(d.changes@)) && (
            final(book).bid_levels(), final(book).ask_levels()) == sides_after_changes(
                old(book).bid_levels(),
                old(book).ask_levels(),
                change_views(d.changes@),
            ),
            _ => skipped == 0 && final(book).bid_levels() == old(book).bid_levels() && final(book).ask_levels() == old(book).ask_levels(),
        },
{
    match event {
        FeedEvent::Snapshot(d) => {
            book.UpdateFullBook(d);
            0
        },
        FeedEvent::L2Update(d) => book.UpdateBook(d),
        _ => 0,
    }
}

/// Whether handling a message with `expected` outcome returned `r` and took
/// the sides from `(old_bids, old_asks)` to `(bids, asks)`: a dropped message
/// leaves them as they were.
pub open spec fn outcome_matches(
    expected: Result<(nat, Map<u64, u64>, Map<u64, u64>), FeedError>,
    r: Result<usize, FeedError>,
    old_bids: Map<u64, u64>,
    old_asks: Map<u64, u64>,
    bids: Map<u64, u64>,
    asks: Map<u64, u64>,
) -> bool {
    match r {
        Ok(n) => expected == Ok::<(nat, Map<u64, u64>, Map<u64, u64>), FeedError>(
            (n as nat, bids, asks),
        ),
        Err(e) => expected == Err::<(nat, Map<u64, u64>, Map<u64, u64>), FeedError>(e) && bids
            == old_bids && asks == old_asks,
    }
}

/// Classifies a message and applies it to the book. A dropped message leaves
/// the book as it was and says why; otherwise returns how many incremental
/// entries were skipped for an unrecognised side label.
pub fn handle_message(book: &mut Book, msg: &FeedMessage, instrument: &str) -> (r: Result<
    usize,
    FeedError,
>)
    ensures
        outcome_matches(
            message_outcome(msg@, instrument@, old(book).bid_levels(), old(book).ask_levels()),
            r,
            old(book).bid_levels(),
            old(book).ask_levels(),
            final(book).bid_levels(),
            final(book).ask_levels(),
        ),
{
    match classify(msg, instrument) {
        Ok(event) => Ok(apply_event(book, event)),
        Err(e) => Err(e),
    }
}

/// The fields that JSON text holds, as `read_message` reads them.
pub uninterp spec fn json_message(text: Seq<char>) -> MessageView;

/// Relies on `serde_json::from_str` to read `text` as a JSON document (text
/// that is not JSON reads as `null`) and on `serde_json::from_value` to read
/// its members `type` and `product_id` as strings and `bids`, `asks` and
/// `changes` as lists of lists of strings. A member that is missing, `null`
/// or of another shape reads as `None`. The result depends on `text` alone.
#[verifier::external_body]
fn read_message(text: &str) -> (r: FeedMessage)
    ensures
        r@ == json_message(text@),
{
    let doc: serde_json::Value = serde_json::from_str(text).unwrap_or_default();
    FeedMessage {
        kind: serde_json::from_value(doc["type"].clone()).ok().flatten(),
        product_id: serde_json::from_value(doc["product_id"].clone()).ok().flatten(),
        bids: serde_json::from_value(doc["bids"].clone()).ok().flatten(),
        asks: serde_json::from_value(doc["asks"].clone()).ok().flatten(),
        changes: serde_json::from_value(doc["changes"].clone()).ok().flatten(),
    }
}

/// Reads the fields of a JSON message.
pub fn message_from_text(text: &str) -> (r: FeedMessage)
    ensures
        r@ == json_message(text@),
{
    read_message(text)
}

/// Reads a JSON message, classifies it and applies it to the book, as
/// `handle_message` does with the fields that the text holds.
pub fn handle_text(book: &mut Book, text: &str, instrument: &str) -> (r: Result<
    usize,
    FeedError,
>)
    ensures
        outcome_matches(
            message_outcome(
                json_message(text@),
                instrument@,
                old(book).bid_levels(),
                old(book).ask_levels(),
            ),
            r,
            old(book).bid_levels(),
            old(book).ask_levels(),
            final(book).bid_levels(),
            final(book).ask_levels(),
        ),
{
    let msg = read_message(text);
    handle_message(book, &msg, instrument)
}

} // verus!
