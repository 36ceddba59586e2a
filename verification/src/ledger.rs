//! The inventory ledger: an append-only log of signed bottle counts.
//!
//! The stock of a wine is never stored. It is the sum of the deltas of the
//! wine's events, computed from the log whenever it is asked for.

use vstd::prelude::*;
use crate::clock::{now, CalendarDate, TimeOfDay, Timestamp};
use crate::error::{is_error, AppError, ErrorKind};

verus! {

/// One entry of the ledger: `bottles` is positive for bottles acquired and
/// negative for bottles consumed.
#[derive(Clone, Copy, Debug, PartialEq, Eq, Structural)]
pub struct InventoryEvent {
    pub wine_id: i64,
    pub bottles: i64,
    pub at: Timestamp,
}

/// What one event adds to the stock of the wine `wine_id`.
pub open spec fn delta_for(event: InventoryEvent, wine_id: i64) -> int {
    if event.wine_id == wine_id {
        event.bottles as int
    } else {
        0
    }
}

/// The stock of a wine: the sum of the deltas of its events.
pub open spec fn stock_of(events: Seq<InventoryEvent>, wine_id: i64) -> int
    decreases events.len(),
{
    if events.len() == 0 {
        0
    } else {
        stock_of(events.drop_last(), wine_id) + delta_for(events.last(), wine_id)
    }
}

/// Whether a stock can be reported as a 64-bit count.
pub open spec fn representable(stock: int) -> bool {
    i64::MIN <= stock <= i64::MAX
}

/// Whether the stock of every wine can be reported as a 64-bit count.
pub open spec fn all_representable(events: Seq<InventoryEvent>) -> bool {
    forall|wine_id: i64| representable(#[trigger] stock_of(events, wine_id))
}

/// The events of `events` that belong to the wine `wine_id`, in order.
pub open spec fn events_of(events: Seq<InventoryEvent>, wine_id: i64) -> Seq<InventoryEvent> {
    events.filter(|e: InventoryEvent| e.wine_id == wine_id)
}

/// The events of `events` that do not belong to the wine `wine_id`, in order.
pub open spec fn events_without(events: Seq<InventoryEvent>, wine_id: i64) -> Seq<InventoryEvent> {
    events.filter(|e: InventoryEvent| e.wine_id != wine_id)
}

/// The description of the error for a bottle count that is not positive.
pub open spec fn msg_bottles_not_positive() -> Seq<char> {
    "bottle count must be positive"@
}

/// The description of the error for a stock that would leave the range of
/// a 64-bit count.
pub open spec fn msg_stock_out_of_range() -> Seq<char> {
    "stock out of range"@
}

/// Appending an event changes the stock of its wine by its delta and leaves
/// every other stock as it was.
pub proof fn lemma_stock_push(events: Seq<InventoryEvent>, event: InventoryEvent, wine_id: i64)
    ensures
        stock_of(events.push(event), wine_id) == stock_of(events, wine_id) + delta_for(event, wine_id),
{
    assert(events.push(event).drop_last() =~= events);
}

/// The stock of a concatenation is the sum of the stocks of its parts.
pub proof fn lemma_stock_concat(a: Seq<InventoryEvent>, b: Seq<InventoryEvent>, wine_id: i64)
    ensures
        stock_of(a + b, wine_id) == stock_of(a, wine_id) + stock_of(b, wine_id),
    decreases b.len(),
{
    if b.len() == 0 {
        assert(a + b =~= a);
    } else {
        lemma_stock_concat(a, b.drop_last(), wine_id);
        assert((a + b).drop_last() =~= a + b.drop_last());
    }
}

/// Taking one event out of a log lowers the stock of each wine by what that
/// event added to it.
pub proof fn lemma_stock_remove(events: Seq<InventoryEvent>, index: int, wine_id: i64)
    requires
        0 <= index < events.len(),
    ensures
        stock_of(events, wine_id) == stock_of(events.remove(index), wine_id) + delta_for(
            events[index],
            wine_id,
        ),
{
    let head = events.take(index);
    let tail = events.skip(index + 1);
    assert(events =~= head.push(events[index]) + tail);
    assert(events.remove(index) =~= head + tail);
    lemma_stock_push(head, events[index], wine_id);
    lemma_stock_concat(head.push(events[index]), tail, wine_id);
    lemma_stock_concat(head, tail, wine_id);
}

/// The stock does not depend on the order in which the events were recorded:
/// two logs that hold the same events, each as often as the other, give every
/// wine the same stock.
pub proof fn lemma_stock_order_independent(a: Seq<InventoryEvent>, b: Seq<InventoryEvent>, wine_id: i64)
    requires
        a.to_multiset() == b.to_multiset(),
    ensures
        stock_of(a, wine_id) == stock_of(b, wine_id),
    decreases a.len(),
{
    broadcast use vstd::seq_lib::group_to_multiset_ensures;

    if a.len() == 0 {
        assert(a.to_multiset().len() == 0);
        assert(b.to_multiset().len() == b.len());
    } else {
        let last = a.last();
        assert(a.contains(last));
        assert(b.to_multiset().count(last) > 0);
        assert(b.contains(last));
        let index = choose|i: int| 0 <= i < b.len() && b[i] == last;
        assert(a.drop_last() =~= a.remove(a.len() - 1));
        assert(a.drop_last().to_multiset() =~= b.remove(index).to_multiset());
        lemma_stock_order_independent(a.drop_last(), b.remove(index), wine_id);
        lemma_stock_remove(b, index, wine_id);
    }
}

/// Recording two events in either order leaves every wine with the same
/// stock.
pub proof fn lemma_stock_commutes(
    events: Seq<InventoryEvent>,
    first: InventoryEvent,
    second: InventoryEvent,
    wine_id: i64,
)
    ensures
        stock_of(events.push(first).push(second), wine_id) == stock_of(
            events.push(second).push(first),
            wine_id,
        ),
{
    lemma_stock_push(events, first, wine_id);
    lemma_stock_push(events.push(first), second, wine_id);
    lemma_stock_push(events, second, wine_id);
    lemma_stock_push(events.push(second), first, wine_id);
}

/// The events of one wine alone decide its stock.
pub proof fn lemma_stock_of_own_events(events: Seq<InventoryEvent>, wine_id: i64)
    ensures
        stock_of(events_of(events, wine_id), wine_id) == stock_of(events, wine_id),
    decreases events.len(),
{
    reveal(Seq::filter);
    if events.len() > 0 {
        lemma_stock_of_own_events(events.drop_last(), wine_id);
        if events.last().wine_id == wine_id {
            lemma_stock_push(events_of(events.drop_last(), wine_id), events.last(), wine_id);
        }
    }
}

/// Removing the events of one wine brings its stock to 0 and leaves every
/// other stock as it was.
pub proof fn lemma_stock_without(events: Seq<InventoryEvent>, removed: i64, wine_id: i64)
    ensures
        stock_of(events_without(events, removed), wine_id) == (if wine_id == removed {
            0
        } else {
            stock_of(events, wine_id)
        }),
    decreases events.len(),
{
    reveal(Seq::filter);
    if events.len() > 0 {
        lemma_stock_without(events.drop_last(), removed, wine_id);
        if events.last().wine_id != removed {
            lemma_stock_push(events_without(events.drop_last(), removed), events.last(), wine_id);
        }
    }
}

/// Once the events of a wine are taken out, the wine has none, and every
/// other wine has the events it had.
pub proof fn lemma_events_without(events: Seq<InventoryEvent>, removed: i64, wine_id: i64)
    ensures
        events_of(events_without(events, removed), wine_id) == (if wine_id == removed {
            Seq::<InventoryEvent>::empty()
        } else {
            events_of(events, wine_id)
        }),
    decreases events.len(),
{
    reveal(Seq::filter);
    if events.len() > 0 {
        lemma_events_without(events.drop_last(), removed, wine_id);
        if events.last().wine_id != removed {
            let kept = events_without(events.drop_last(), removed);
            assert(kept.push(events.last()).drop_last() =~= kept);
        }
    }
}

/// Each event of a log belongs to the wine `wine_id` or it does not: the
/// two parts together are as long as the log.
pub proof fn lemma_events_partition(events: Seq<InventoryEvent>, wine_id: i64)
    ensures
        events_of(events, wine_id).len() + events_without(events, wine_id).len() == events.len(),
    decreases events.len(),
{
    reveal(Seq::filter);
    if events.len() > 0 {
        lemma_events_partition(events.drop_last(), wine_id);
    }
}

/// What recording `event` makes of a log: the event is appended, unless the
/// stock of its wine would leave the range of a 64-bit count; then the log
/// stays as it is and the caller is told that the input was invalid.
pub open spec fn appended(
    before: Seq<InventoryEvent>,
    after: Seq<InventoryEvent>,
    r: Result<(), AppError>,
    event: InventoryEvent,
) -> bool {
    if representable(stock_of(before, event.wine_id) + event.bottles) {
        r is Ok && after == before.push(event)
    } else {
        after == before && (r matches Err(e) && is_error(
            e,
            ErrorKind::InvalidInput,
            msg_stock_out_of_range(),
        ))
    }
}

/// The outcome of refusing a bottle count that is not positive: the log is
/// untouched and the caller is told that the input was invalid.
pub open spec fn refused(before: Seq<InventoryEvent>, after: Seq<InventoryEvent>, r: Result<(), AppError>) -> bool {
    after == before && (r matches Err(e) && is_error(
        e,
        ErrorKind::InvalidInput,
        msg_bottles_not_positive(),
    ))
}

/// The event that records the purchase of `bottles` bottles.
pub open spec fn purchase_of(wine_id: i64, bottles: i64, date: CalendarDate, time: TimeOfDay) -> InventoryEvent {
    InventoryEvent { wine_id, bottles, at: Timestamp { date, time } }
}

/// The event that records the consumption of `bottles` bottles: the count
/// is stored negated.
pub open spec fn consumption_of(wine_id: i64, bottles: i64, date: CalendarDate, time: TimeOfDay) -> InventoryEvent {
    InventoryEvent { wine_id, bottles: (-bottles) as i64, at: Timestamp { date, time } }
}

/// The append-only log of inventory events of all wines.
pub struct Ledger {
    events: Vec<InventoryEvent>,
}

impl View for Ledger {
    type V = Seq<InventoryEvent>;

    closed spec fn view(&self) -> Seq<InventoryEvent> {
        self.events@
    }
}

impl Ledger {
    /// The stock of the wine `wine_id` according to this ledger.
    pub open spec fn stock(&self, wine_id: i64) -> int {
        stock_of(self@, wine_id)
    }

    /// Every stock that the ledger implies can be reported as a 64-bit count.
    pub open spec fn wf(&self) -> bool {
        all_representable(self@)
    }

    /// A ledger without events.
    pub fn new() -> (ledger: Ledger)
        ensures
            ledger.wf(),
            ledger@ == Seq::<InventoryEvent>::empty(),
    {
        Ledger { events: Vec::new() }
    }

    /// The number of events in the log.
    pub fn len(&self) -> (n: usize)
        ensures
            n == self@.len(),
    {
        self.events.len()
    }

    /// A second ledger with the same events.
    pub fn duplicate(&self) -> (copy: Ledger)
        ensures
            copy@ == self@,
    {
        Ledger { events: vstd::slice::slice_to_vec(self.events.as_slice()) }
    }

    /// The current stock of a wine: the exact sum of the deltas of its
    /// events, and 0 for a wine without events.
    pub fn current_stock(&self, wine_id: i64) -> (stock: i64)
        requires
            self.wf(),
        ensures
            stock == stock_of(self@, wine_id),
    {
        let mut total: i128 = 0;
        let n = self.events.len();
        let mut i: usize = 0;
        while i < n
            invariant
                i <= n,
                n == self.events@.len(),
                total == stock_of(self.events@.take(i as int), wine_id),
                -(i as int) * 0x8000_0000_0000_0000 <= total <= (i as int) * 0x8000_0000_0000_0000,
            decreases n - i,
        {
            let e = self.events[i];
            proof {
                assert(self.events@.take(i + 1).drop_last() =~= self.events@.take(i as int));
            }
            if e.wine_id == wine_id {
                total = total + e.bottles as i128;
            }
            i = i + 1;
        }
        proof {
            assert(self.events@.take(n as int) =~= self.events@);
        }
        total as i64
    }

    /// Appends one event. The ledger does not know which wines exist, so any
    /// wine id is taken, and a delta of zero is recorded like any other. The
    /// one event that is refused is one that would take the stock of its
    /// wine out of the range of a 64-bit count.
    pub fn record_event(&mut self, wine_id: i64, delta: i64, at: Timestamp) -> (r: Result<(), AppError>)
        requires
            old(self).wf(),
        ensures
            final(self).wf(),
            appended(old(self)@, final(self)@, r, InventoryEvent { wine_id, bottles: delta, at }),
    {
        let stock = self.current_stock(wine_id);
        match stock.checked_add(delta) {
            Some(_) => {
                let event = InventoryEvent { wine_id, bottles: delta, at };
                proof {
                    assert forall|w: i64| representable(#[trigger] stock_of(self@.push(event), w)) by {
                        lemma_stock_push(self@, event, w);
                    }
                }
                self.events.push(event);
                Ok(())
            },
            None => Err(AppError::bad_request("stock out of range")),
        }
    }

    /// Records the purchase of `bottles` bottles on the day `date`, at the
    /// time of day `time`. A count that is not positive is refused before
    /// the ledger is touched.
    pub fn record_purchase_at(
        &mut self,
        wine_id: i64,
        bottles: i64,
        date: CalendarDate,
        time: TimeOfDay,
    ) -> (r: Result<(), AppError>)
        requires
            old(self).wf(),
        ensures
            final(self).wf(),
            bottles <= 0 ==> refused(old(self)@, final(self)@, r),
            bottles > 0 ==> appended(old(self)@, final(self)@, r, purchase_of(wine_id, bottles, date, time)),
    {
        if bottles <= 0 {
            return Err(AppError::bad_request("bottle count must be positive"));
        }
        self.record_event(wine_id, bottles, Timestamp { date, time })
    }

    /// Records the consumption of `bottles` bottles on the day `date`, at
    /// the time of day `time`. The caller names the positive number of
    /// bottles consumed; the ledger stores it negated. A count that is not
    /// positive is refused before the ledger is touched.
    pub fn record_consumption_at(
        &mut self,
        wine_id: i64,
        bottles: i64,
        date: CalendarDate,
        time: TimeOfDay,
    ) -> (r: Result<(), AppError>)
        requires
            old(self).wf(),
        ensures
            final(self).wf(),
            bottles <= 0 ==> refused(old(self)@, final(self)@, r),
            bottles > 0 ==> appended(old(self)@, final(self)@, r, consumption_of(wine_id, bottles, date, time)),
    {
        if bottles <= 0 {
            return Err(AppError::bad_request("bottle count must be positive"));
        }
        self.record_event(wine_id, -bottles, Timestamp { date, time })
    }

    /// Records a purchase on the day `date`. The time of day of the event
    /// is read from the server's clock.
    pub fn record_purchase(&mut self, wine_id: i64, bottles: i64, date: CalendarDate) -> (r: Result<(), AppError>)
        requires
            old(self).wf(),
        ensures
            final(self).wf(),
            bottles <= 0 ==> refused(old(self)@, final(self)@, r),
            bottles > 0 ==> exists|time: TimeOfDay|
                time.valid() && #[trigger] appended(
                    old(self)@,
                    final(self)@,
                    r,
                    purchase_of(wine_id, bottles, date, time),
                ),
    {
        let at = Timestamp::compose(date, now());
        self.record_purchase_at(wine_id, bottles, at.date, at.time)
    }

    /// Records a consumption on the day `date`. The time of day of the
    /// event is read from the server's clock.
    pub fn record_consumption(&mut self, wine_id: i64, bottles: i64, date: CalendarDate) -> (r: Result<(), AppError>)
        requires
            old(self).wf(),
        ensures
            final(self).wf(),
            bottles <= 0 ==> refused(old(self)@, final(self)@, r),
            bottles > 0 ==> exists|time: TimeOfDay|
                time.valid() && #[trigger] appended(
                    old(self)@,
                    final(self)@,
                    r,
                    consumption_of(wine_id, bottles, date, time),
                ),
    {
        let at = Timestamp::compose(date, now());
        self.record_consumption_at(wine_id, bottles, at.date, at.time)
    }

    /// The events of one wine, in the order in which they were recorded.
    pub fn events_for(&self, wine_id: i64) -> (found: Vec<InventoryEvent>)
        ensures
            found@ == events_of(self@, wine_id),
    {
        let mut found: Vec<InventoryEvent> = Vec::new();
        let n = self.events.len();
        let mut i: usize = 0;
        proof {
            reveal(Seq::filter);
        }
        while i < n
            invariant
                i <= n,
                n == self.events@.len(),
                found@ == events_of(self.events@.take(i as int), wine_id),
            decreases n - i,
        {
            let e = self.events[i];
            proof {
                reveal(Seq::filter);
                assert(self.events@.take(i + 1).drop_last() =~= self.events@.take(i as int));
            }
            if e.wine_id == wine_id {
                found.push(e);
            }
            i = i + 1;
        }
        proof {
            assert(self.events@.take(n as int) =~= self.events@);
        }
        found
    }

    /// Removes every event of one wine, as part of deleting the wine, and
    /// says how many there were. This is the only way in which an event
    /// leaves the ledger.
    pub fn remove_wine(&mut self, wine_id: i64) -> (removed: usize)
        requires
            old(self).wf(),
        ensures
            final(self).wf(),
            final(self)@ == events_without(old(self)@, wine_id),
            removed == events_of(old(self)@, wine_id).len(),
            final(self).stock(wine_id) == 0,
            forall|other: i64| other != wine_id ==> final(self).stock(other) == old(self).stock(other),
    {
        let mut kept: Vec<InventoryEvent> = Vec::new();
        let mut removed: usize = 0;
        let n = self.events.len();
        let mut i: usize = 0;
        proof {
            reveal(Seq::filter);
        }
        while i < n
            invariant
                i <= n,
                n == self.events@.len(),
                kept@ == events_without(self.events@.take(i as int), wine_id),
                removed == events_of(self.events@.take(i as int), wine_id).len(),
                removed <= i,
            decreases n - i,
        {
            let e = self.events[i];
            proof {
                reveal(Seq::filter);
                assert(self.events@.take(i + 1).drop_last() =~= self.events@.take(i as int));
            }
            if e.wine_id == wine_id {
                removed = removed + 1;
            } else {
                kept.push(e);
            }
            i = i + 1;
        }
        proof {
            assert(self.events@.take(n as int) =~= self.events@);
            assert forall|w: i64| #[trigger] stock_of(kept@, w) == (if w == wine_id {
                0
            } else {
                stock_of(self.events@, w)
            }) by {
                lemma_stock_without(self.events@, wine_id, w);
            }
            assert forall|w: i64| representable(#[trigger] stock_of(kept@, w)) by {
                assert(representable(stock_of(self@, w)));
            }
        }
        self.events = kept;
        removed
    }
}

/// A purchase followed by a consumption of the same number of bottles
/// returns the stock of the wine to what it was, and leaves every other
/// stock untouched: whenever the purchase is accepted, so is the
/// consumption.
pub proof fn lemma_purchase_then_consumption(
    before: Seq<InventoryEvent>,
    wine_id: i64,
    bottles: i64,
    date: CalendarDate,
    bought_at: TimeOfDay,
    drunk_at: TimeOfDay,
    other: i64,
)
    requires
        bottles > 0,
        representable(stock_of(before, wine_id)),
        representable(stock_of(before, wine_id) + bottles),
    ensures
        ({
            let bought = before.push(purchase_of(wine_id, bottles, date, bought_at));
            let drunk = bought.push(consumption_of(wine_id, bottles, date, drunk_at));
            &&& appended(before, bought, Ok(()), purchase_of(wine_id, bottles, date, bought_at))
            &&& appended(bought, drunk, Ok(()), consumption_of(wine_id, bottles, date, drunk_at))
            &&& stock_of(drunk, wine_id) == stock_of(before, wine_id)
            &&& stock_of(drunk, other) == stock_of(before, other)
        }),
{
    let purchase = purchase_of(wine_id, bottles, date, bought_at);
    let consumption = consumption_of(wine_id, bottles, date, drunk_at);
    lemma_stock_push(before, purchase, wine_id);
    lemma_stock_push(before.push(purchase), consumption, wine_id);
    lemma_stock_push(before, purchase, other);
    lemma_stock_push(before.push(purchase), consumption, other);
}

} // verus!
