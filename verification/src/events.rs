//! The major Islamic events that fall on fixed Hijri dates.

use vstd::prelude::*;

verus! {

/// A major Islamic event that falls on a fixed date in the Hijri calendar.
#[derive(Debug, Clone, Copy, PartialEq, Eq)]
pub struct Event {
    pub name: &'static str,
    pub month: u8,
    pub day: u8,
}

/// Major fixed-Hijri-date events, in calendar order.
pub open spec fn event_table() -> Seq<Event> {
    seq![
        Event { name: "Islamic New Year", month: 1, day: 1 },
        Event { name: "Ashura", month: 1, day: 10 },
        Event { name: "Mawlid", month: 3, day: 12 },
        Event { name: "Ramadan (start)", month: 9, day: 1 },
        Event { name: "Eid al-Fitr", month: 10, day: 1 },
        Event { name: "Eid al-Adha", month: 12, day: 10 },
    ]
}

/// Major fixed-Hijri-date events, in calendar order.
pub fn events() -> (res: &'static [Event; 6])
    ensures
        res@ == event_table(),
{
    let table: &'static [Event; 6] = &[
        Event { name: "Islamic New Year", month: 1, day: 1 },
        Event { name: "Ashura", month: 1, day: 10 },
        Event { name: "Mawlid", month: 3, day: 12 },
        Event { name: "Ramadan (start)", month: 9, day: 1 },
        Event { name: "Eid al-Fitr", month: 10, day: 1 },
        Event { name: "Eid al-Adha", month: 12, day: 10 },
    ];
    assert(table@ =~= event_table());
    table
}

/// Whether an event falls in `month`.
pub open spec fn in_month(month: u8) -> spec_fn(Event) -> bool {
    |e: Event| e.month == month
}

/// The events of `table` that fall in `month`, in table order.
pub open spec fn events_of_month(table: Seq<Event>, month: u8) -> Seq<Event> {
    table.filter(in_month(month))
}

/// All events in a given Hijri month, in day order.
pub fn events_in_month(month: u8) -> (res: Vec<&'static Event>)
    ensures
        res@.map_values(|e: &Event| *e) == events_of_month(event_table(), month),
{
    let table = events();
    let mut out: Vec<&'static Event> = Vec::new();
    let mut i: usize = 0;
    while i < 6
        invariant
            0 <= i <= 6,
            table@ == event_table(),
            out@.map_values(|e: &Event| *e) == events_of_month(table@.take(i as int), month),
        decreases 6 - i,
    {
        let e: &'static Event = &table[i];
        proof {
            assert(table@.take(i + 1).drop_last() =~= table@.take(i as int));
            reveal(Seq::filter);
        }
        if e.month == month {
            out.push(e);
        }
        i = i + 1;
    }
    assert(table@.take(6) =~= table@);
    out
}

} // verus!

verus! {

/// The event table is in calendar order: each event falls strictly before
/// the next, and every event is a real day of a Hijri month (months 1..=12,
/// days up to 29, which every month has).
pub proof fn lemma_events_in_calendar_order(i: int, j: int)
    requires
        0 <= i < j < 6,
    ensures
        event_table()[i].month < event_table()[j].month || (event_table()[i].month == event_table()[j].month
            && event_table()[i].day < event_table()[j].day),
        1 <= event_table()[i].month <= 12,
        1 <= event_table()[i].day <= 29,
{
}

/// The events of a month, as `events_in_month` lists them, all fall in that
/// month and come in day order.
pub proof fn lemma_month_events_in_day_order(month: u8, i: int, j: int)
    requires
        0 <= i < j < events_of_month(event_table(), month).len(),
    ensures
        events_of_month(event_table(), month)[i].month == month,
        events_of_month(event_table(), month)[i].day < events_of_month(event_table(), month)[j].day,
{
    reveal_with_fuel(Seq::filter, 7);
    assert(event_table().take(6) =~= event_table());
}

} // verus!
