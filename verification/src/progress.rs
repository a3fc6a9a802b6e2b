//! Scan progress reporting.
//!
//! A scan of a large repository takes tens of seconds during which the tool
//! is otherwise silent, which reads as a hang. The counter goes to stderr and
//! only when stderr is a terminal, so `--json` piped into a script stays
//! byte-for-byte clean.

use vstd::prelude::*;

use crate::text;

verus! {

/// One call of a [`Reporter`].
pub enum Event {
    Tick(usize, usize),
    Finish,
}

/// Progress sink for the scan. Implemented by a real terminal reporter and a
/// no-op one, so callers never branch on "is there a terminal".
pub trait Reporter {
    /// Every call so far. Only proofs speak of it: an implementation that is
    /// verified says what it is, and one that is not can leave it out.
    closed spec fn events(&self) -> Seq<Event> {
        arbitrary()
    }

    fn tick(&mut self, done: usize, total: usize)
        ensures
            final(self).events() == old(self).events().push(Event::Tick(done, total)),
    ;

    /// Wipe the counter line so the report that follows starts clean.
    fn finish(&mut self)
        ensures
            final(self).events() == old(self).events().push(Event::Finish),
    ;
}

/// Used whenever stderr is not a terminal.
pub struct NullReporter {
    log: Ghost<Seq<Event>>,
}

impl NullReporter {
    pub fn new() -> (r: Self)
        ensures
            r.events() == Seq::<Event>::empty(),
    {
        NullReporter { log: Ghost(Seq::empty()) }
    }
}

impl Reporter for NullReporter {
    closed spec fn events(&self) -> Seq<Event> {
        self.log@
    }

    fn tick(&mut self, done: usize, total: usize) {
        proof {
            self.log@ = self.log@.push(Event::Tick(done, total));
        }
    }

    fn finish(&mut self) {
        proof {
            self.log@ = self.log@.push(Event::Finish);
        }
    }
}

/// Where a counter line is written.
pub trait Sink {
    /// Every byte handed over so far. Write errors are swallowed
    /// deliberately: a broken progress line must never abort a scan that is
    /// otherwise fine. Only proofs speak of it.
    closed spec fn bytes(&self) -> Seq<u8> {
        arbitrary()
    }

    /// Hands over a piece of text and flushes it.
    fn put(&mut self, s: &str)
        ensures
            final(self).bytes() == old(self).bytes() + vstd::utf8::encode_utf8(s@),
    ;
}

impl Sink for Vec<u8> {
    open spec fn bytes(&self) -> Seq<u8> {
        self@
    }

    fn put(&mut self, s: &str) {
        let ghost before = self@;
        self.extend_from_slice(s.as_bytes());
        assert(self@ =~= before + vstd::utf8::encode_utf8(s@));
    }
}

/// What wipes the counter line.
pub open spec fn wipe() -> Seq<char> {
    "\r\x1b[K"@
}

/// The counter line that replaces the one before.
pub open spec fn counter_line(done: usize, total: usize) -> Seq<char> {
    "\r\x1b[Kscanning "@ + text::decimal(done as nat) + "/"@ + text::decimal(total as nat)
        + " branches"@
}

/// The state of a counter: the highest count shown, and what was written.
pub struct CounterView {
    pub high_water: usize,
    pub bytes: Seq<u8>,
}

impl CounterView {
    /// The counter after a call. A count that is not higher than the highest
    /// one shown is dropped.
    pub open spec fn after(self, event: Event) -> CounterView {
        match event {
            Event::Tick(done, total) => if done > self.high_water {
                CounterView {
                    high_water: done,
                    bytes: self.bytes + vstd::utf8::encode_utf8(counter_line(done, total)),
                }
            } else {
                self
            },
            Event::Finish => CounterView {
                high_water: self.high_water,
                bytes: self.bytes + vstd::utf8::encode_utf8(wipe()),
            },
        }
    }

    /// The counter after a run of calls.
    pub open spec fn after_all(self, events: Seq<Event>) -> CounterView
        decreases events.len(),
    {
        if events.len() == 0 {
            self
        } else {
            self.after_all(events.drop_last()).after(events.last())
        }
    }

    /// The counts that a run of calls shows, in order.
    pub open spec fn shown(self, events: Seq<Event>) -> Seq<usize>
        decreases events.len(),
    {
        if events.len() == 0 {
            Seq::empty()
        } else {
            let earlier = self.shown(events.drop_last());
            match events.last() {
                Event::Tick(done, _) if done > self.after_all(
                    events.drop_last(),
                ).high_water => earlier.push(done),
                _ => earlier,
            }
        }
    }
}

/// Redraws a single counter line in place.
pub struct WriteReporter<W: Sink> {
    out: W,
    /// Highest count printed so far. Workers claim their number and then
    /// queue for the reporter, so they can arrive out of order; without this
    /// the displayed count visibly jitters backwards mid-scan.
    high_water: usize,
    log: Ghost<Seq<Event>>,
}

impl<W: Sink> View for WriteReporter<W> {
    type V = CounterView;

    closed spec fn view(&self) -> CounterView {
        CounterView { high_water: self.high_water, bytes: self.out.bytes() }
    }
}

impl<W: Sink> WriteReporter<W> {
    pub fn new(out: W) -> (r: Self)
        ensures
            r@ == (CounterView { high_water: 0, bytes: out.bytes() }),
            r.events() == Seq::<Event>::empty(),
    {
        Self { out, high_water: 0, log: Ghost(Seq::empty()) }
    }

    /// What the counter was written to.
    pub fn into_inner(self) -> (out: W)
        ensures
            out.bytes() == self@.bytes,
    {
        self.out
    }
}

impl<W: Sink> Reporter for WriteReporter<W> {
    closed spec fn events(&self) -> Seq<Event> {
        self.log@
    }

    fn tick(&mut self, done: usize, total: usize)
        ensures
            final(self)@ == old(self)@.after(Event::Tick(done, total)),
    {
        proof {
            self.log@ = self.log@.push(Event::Tick(done, total));
        }
        if done <= self.high_water {
            return;
        }
        self.high_water = done;
        let line = "\r\x1b[Kscanning ".to_owned().concat(
            text::to_decimal(done as u128).as_str(),
        ).concat("/").concat(text::to_decimal(total as u128).as_str()).concat(" branches");
        self.out.put(line.as_str());
    }

    fn finish(&mut self)
        ensures
            final(self)@ == old(self)@.after(Event::Finish),
    {
        proof {
            self.log@ = self.log@.push(Event::Finish);
        }
        self.out.put("\r\x1b[K");
    }
}

/// The counter never goes backwards: in whatever order the calls arrive, the
/// counts shown rise, and none that stands higher than all before it is lost.
pub proof fn law_counter_never_goes_backwards(start: CounterView, events: Seq<Event>)
    ensures
        forall|i: int, j: int|
            0 <= i < j < start.shown(events).len() ==> start.shown(events)[i] < start.shown(
                events,
            )[j],
        forall|k: int|
            0 <= k < events.len() ==> match #[trigger] events[k] {
                Event::Tick(done, _) => done <= start.after_all(events).high_water,
                Event::Finish => true,
            },
        start.shown(events).len() == 0 ==> start.after_all(events).high_water == start.high_water,
        start.shown(events).len() > 0 ==> start.after_all(events).high_water == start.shown(
            events,
        ).last(),
    decreases events.len(),
{
    if events.len() > 0 {
        let rest = events.drop_last();
        law_counter_never_goes_backwards(start, rest);
        let old_shown = start.shown(rest);
        let new_shown = start.shown(events);
        assert forall|i: int, j: int| 0 <= i < j < new_shown.len() implies new_shown[i]
            < new_shown[j] by {
            if j < old_shown.len() {
                assert(old_shown[i] < old_shown[j]);
            } else {
                assert(i < old_shown.len());
                assert(old_shown[i] <= old_shown.last());
            }
        }
        assert forall|k: int| 0 <= k < events.len() implies match #[trigger] events[k] {
            Event::Tick(done, _) => done <= start.after_all(events).high_water,
            Event::Finish => true,
        } by {
            if k < rest.len() {
                assert(rest[k] == events[k]);
            }
        }
    }
}

/// What each call writes: a count above all before it replaces the line with
/// `scanning <done>/<total> branches` and becomes the mark to beat, any other
/// count writes nothing, and the end wipes the line.
pub proof fn law_what_the_counter_writes(c: CounterView, done: usize, total: usize)
    ensures
        done > c.high_water ==> c.after(Event::Tick(done, total)) == (CounterView {
            high_water: done,
            bytes: c.bytes + vstd::utf8::encode_utf8(
                "\r\x1b[Kscanning "@ + text::decimal(done as nat) + "/"@ + text::decimal(
                    total as nat,
                ) + " branches"@,
            ),
        }),
        done <= c.high_water ==> c.after(Event::Tick(done, total)) == c,
        c.after(Event::Finish) == (CounterView {
            bytes: c.bytes + vstd::utf8::encode_utf8("\r\x1b[K"@),
            ..c
        }),
{
}

} // verus!
