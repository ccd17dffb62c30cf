//! The render loop's decisions: what an iteration does to the timer, when the
//! tone sounds, and when the run ends. The loop itself, which polls, draws
//! and plays, belongs to the caller; it hands in what it polled and carries
//! out the action that comes back.

use vstd::prelude::*;
use figlet_rs::FIGfont;
use crate::alert::{alert, is_reminder_mark, should_play};
use crate::banner::{figure_of, printed};
use crate::counter::{clock_of, Counter, DisplayClock};
use crate::error::RunError;
use crate::layout::{clock_place, message_area, message_place, timer_area, Area};
use crate::quit::AppEvent;

verus! {

/// The state of a run, as the contracts see it.
pub struct AppState {
    /// Seconds remaining; negative in overtime.
    pub remaining: int,
    /// Whether the loop goes on.
    pub running: bool,
    /// Whether the tone has sounded for the reminder mark the counter is on.
    pub played: bool,
}

/// What the loop has to do at the end of an iteration.
#[derive(Debug, Clone, Copy, PartialEq, Eq, Structural)]
pub enum Action {
    /// Go on: sound the tone `tones` times, then draw the clock.
    Draw { clock: DisplayClock, tones: usize },
    /// End the run in success.
    Finish,
    /// End the run with this failure.
    Fail(RunError),
}

/// What one frame shows and where.
#[derive(Debug)]
pub struct Frame {
    /// Where the clock goes.
    pub clock_area: Area,
    /// The clock in large letters, or `None` where the font has no glyph for
    /// it.
    pub figure: Option<String>,
    /// Where the message goes, or `None` where there is no message.
    pub message_area: Option<Area>,
}

/// The state after one tick: a second less, and the memory of the alert
/// policy brought up to date.
pub open spec fn after_tick(s: AppState) -> AppState {
    AppState {
        remaining: s.remaining - 1,
        running: s.running,
        played: alert(s.remaining, s.remaining - 1, s.played).1,
    }
}

/// Whether the tone sounds on the tick that leaves the state `s`.
pub open spec fn tick_sounds(s: AppState) -> bool {
    alert(s.remaining, s.remaining - 1, s.played).0
}

/// The state stopped, with all else as it was.
pub open spec fn stopped(s: AppState) -> AppState {
    AppState { remaining: s.remaining, running: false, played: s.played }
}

/// The state after one event. A stopped run consumes nothing.
pub open spec fn after_event(s: AppState, e: AppEvent) -> AppState {
    if !s.running {
        s
    } else {
        match e {
            AppEvent::TickEvent => after_tick(s),
            AppEvent::ErrorEvent => stopped(s),
        }
    }
}

/// The state after the events, consumed in order.
pub open spec fn after_events(s: AppState, events: Seq<AppEvent>) -> AppState
    decreases events.len(),
{
    if events.len() == 0 {
        s
    } else {
        after_events(after_event(s, events[0]), events.drop_first())
    }
}

/// How often the tone sounds while the events are consumed: the policy is
/// asked once for each tick.
pub open spec fn tones(s: AppState, events: Seq<AppEvent>) -> nat
    decreases events.len(),
{
    if events.len() == 0 {
        0
    } else {
        let first: nat = if s.running && events[0] == AppEvent::TickEvent && tick_sounds(s) {
            1
        } else {
            0
        };
        first + tones(after_event(s, events[0]), events.drop_first())
    }
}

/// The state after a poll that found at most one event.
pub open spec fn after_poll(s: AppState, event: Option<AppEvent>) -> AppState {
    match event {
        Some(e) => after_event(s, e),
        None => s,
    }
}

/// The state after one iteration that polled at most one event and then saw
/// the cancellation flag as `cancelled`.
pub open spec fn after_step(s: AppState, event: Option<AppEvent>, cancelled: bool) -> AppState {
    let t = after_poll(s, event);
    if cancelled {
        stopped(t)
    } else {
        t
    }
}

/// The action of that iteration. A read error ends the run in failure; else a
/// raised flag ends it in success; else the clock is drawn, after the tone
/// where the tick calls for it.
pub open spec fn step_action(s: AppState, event: Option<AppEvent>, cancelled: bool) -> Action {
    let t = after_poll(s, event);
    if !s.running {
        Action::Finish
    } else if !t.running {
        Action::Fail(RunError::InputRead)
    } else if cancelled {
        Action::Finish
    } else {
        Action::Draw {
            clock: clock_of(t.remaining),
            tones: if event == Some(AppEvent::TickEvent) && tick_sounds(s) {
                1
            } else {
                0
            },
        }
    }
}

/// What a poll found, as a batch.
pub open spec fn polled(event: Option<AppEvent>) -> Seq<AppEvent> {
    match event {
        Some(e) => seq![e],
        None => Seq::<AppEvent>::empty(),
    }
}

/// The state after one iteration that polled `events` and then saw the
/// cancellation flag as `cancelled`.
pub open spec fn after_step_all(s: AppState, events: Seq<AppEvent>, cancelled: bool) -> AppState {
    let t = after_events(s, events);
    if cancelled {
        stopped(t)
    } else {
        t
    }
}

/// The action of that iteration. A read error among the events ends the run
/// in failure; else a raised flag ends it in success; else the clock is drawn.
pub open spec fn step_all_action(s: AppState, events: Seq<AppEvent>, cancelled: bool) -> Action {
    let t = after_events(s, events);
    if !s.running {
        Action::Finish
    } else if !t.running {
        Action::Fail(RunError::InputRead)
    } else if cancelled {
        Action::Finish
    } else {
        Action::Draw { clock: clock_of(t.remaining), tones: tones(s, events) as usize }
    }
}

/// The state after one event of the queue that also carries the quit key,
/// and the answer to the loop: whether the tone sounds, or the failure that
/// ends the run. A stopped run consumes nothing.
pub open spec fn handled(s: AppState, e: crate::events::AppEvent) -> (
    AppState,
    Result<bool, RunError>,
) {
    if !s.running {
        (s, Ok(false))
    } else {
        match e {
            crate::events::AppEvent::Tick => (after_tick(s), Ok(tick_sounds(s))),
            crate::events::AppEvent::Quit => (stopped(s), Ok(false)),
            crate::events::AppEvent::Error => (stopped(s), Err(RunError::InputRead)),
        }
    }
}

/// The state after a whole run of iterations, none of which saw the flag up.
pub open spec fn after_iterations(s: AppState, batches: Seq<Seq<AppEvent>>) -> AppState
    decreases batches.len(),
{
    if batches.len() == 0 {
        s
    } else {
        after_iterations(after_step_all(s, batches[0], false), batches.drop_first())
    }
}

/// How many events the batches hold together.
pub open spec fn total_events(batches: Seq<Seq<AppEvent>>) -> nat
    decreases batches.len(),
{
    if batches.len() == 0 {
        0
    } else {
        batches[0].len() + total_events(batches.drop_first())
    }
}

/// Every event is a tick.
pub open spec fn all_ticks(events: Seq<AppEvent>) -> bool {
    forall|i: int| 0 <= i < events.len() ==> events[i] == AppEvent::TickEvent
}

/// A stopped run stays as it is and stays silent, whatever arrives.
pub proof fn lemma_stopped_run_is_inert(s: AppState, events: Seq<AppEvent>)
    requires
        !s.running,
    ensures
        after_events(s, events) == s,
        tones(s, events) == 0,
    decreases events.len(),
{
    if events.len() > 0 {
        lemma_stopped_run_is_inert(s, events.drop_first());
    }
}

/// An iteration that polls at most one event is the iteration of the batch
/// that holds what it found.
pub proof fn lemma_step_is_batch_of_one(s: AppState, event: Option<AppEvent>, cancelled: bool)
    ensures
        after_step_all(s, polled(event), cancelled) == after_step(s, event, cancelled),
        step_all_action(s, polled(event), cancelled) == step_action(s, event, cancelled),
{
    reveal_with_fuel(after_events, 2);
    reveal_with_fuel(tones, 2);
    match event {
        Some(e) => {
            assert(polled(event)[0] == e);
            assert(polled(event).drop_first() =~= Seq::<AppEvent>::empty());
        },
        None => {},
    }
}

/// Consuming two batches one after the other is consuming them as one: the
/// state and the number of tones do not depend on where the batch was cut.
pub proof fn lemma_batches_join(s: AppState, a: Seq<AppEvent>, b: Seq<AppEvent>)
    ensures
        after_events(s, a + b) == after_events(after_events(s, a), b),
        tones(s, a + b) == tones(s, a) + tones(after_events(s, a), b),
    decreases a.len(),
{
    if a.len() == 0 {
        assert(a + b =~= b);
    } else {
        assert((a + b)[0] == a[0]);
        assert((a + b).drop_first() =~= a.drop_first() + b);
        lemma_batches_join(after_event(s, a[0]), a.drop_first(), b);
    }
}

/// Ticks alone take one second each off a running timer and leave it
/// running.
pub proof fn lemma_ticks_count_down(s: AppState, events: Seq<AppEvent>)
    requires
        s.running,
        all_ticks(events),
    ensures
        after_events(s, events).remaining == s.remaining - events.len(),
        after_events(s, events).running,
    decreases events.len(),
{
    if events.len() > 0 {
        assert(events[0] == AppEvent::TickEvent);
        lemma_ticks_count_down(after_event(s, events[0]), events.drop_first());
    }
}

/// A run that consumes N ticks, in whatever batches, and never sees the flag
/// up ends N seconds below where it started, still running.
pub proof fn lemma_run_counts_down(s: AppState, batches: Seq<Seq<AppEvent>>)
    requires
        s.running,
        forall|i: int| 0 <= i < batches.len() ==> all_ticks(#[trigger] batches[i]),
    ensures
        after_iterations(s, batches).remaining == s.remaining - total_events(batches),
        after_iterations(s, batches).running,
    decreases batches.len(),
{
    if batches.len() > 0 {
        assert(all_ticks(batches[0]));
        lemma_ticks_count_down(s, batches[0]);
        lemma_run_counts_down(after_step_all(s, batches[0], false), batches.drop_first());
    }
}

/// `count` ticks.
pub open spec fn ticks(count: nat) -> Seq<AppEvent> {
    Seq::new(count, |i: int| AppEvent::TickEvent)
}

/// A running timer at `seconds` for which no tone has sounded.
pub open spec fn fresh(seconds: int) -> AppState {
    AppState { remaining: seconds, running: true, played: false }
}

/// End to end: a timer started at `seconds`, not below zero, that consumes
/// `count` ticks stands at `seconds - count`. It has been silent while that
/// is not below zero; else the tone has sounded once for the step to -1 and
/// once more for every full reminder period of overtime.
pub proof fn lemma_countdown_tones(seconds: int, count: nat)
    requires
        seconds >= 0,
    ensures
        after_events(fresh(seconds), ticks(count)) == (AppState {
            remaining: seconds - count,
            running: true,
            played: count > 0 && (seconds - count == -1 || is_reminder_mark(seconds - count)),
        }),
        tones(fresh(seconds), ticks(count)) == (if count <= seconds {
            0
        } else {
            1 + (count - seconds) / 300
        }),
    decreases count,
{
    if count == 0 {
        assert(ticks(0) =~= Seq::<AppEvent>::empty());
    } else {
        let before = (count - 1) as nat;
        let one = seq![AppEvent::TickEvent];
        let start = fresh(seconds);
        let mid = after_events(start, ticks(before));
        lemma_countdown_tones(seconds, before);
        assert(ticks(count) =~= ticks(before) + one);
        lemma_batches_join(start, ticks(before), one);
        assert(one[0] == AppEvent::TickEvent);
        assert(one.drop_first() =~= Seq::<AppEvent>::empty());
        assert(after_events(mid, one) == after_tick(mid)) by {
            reveal_with_fuel(after_events, 2);
        }
        assert(tones(mid, one) == (if tick_sounds(mid) {
            1nat
        } else {
            0nat
        })) by {
            reveal_with_fuel(tones, 2);
        }
        let overtime = count - seconds;
        if overtime >= 2 {
            assert(is_reminder_mark(-overtime) <==> overtime % 300 == 0) by {
                lemma_mark_by_overtime(overtime);
            }
            assert(is_reminder_mark(-overtime) ==> !is_reminder_mark(1 - overtime)) by {
                lemma_mark_by_overtime(overtime);
                lemma_mark_by_overtime(overtime - 1);
            }
            let q = overtime / 300;
            let r = overtime % 300;
            assert(overtime == 300 * q + r);
            if r == 0 {
                assert(300 * (q - 1) <= overtime - 1 < 300 * (q - 1) + 300);
                assert((overtime - 1) / 300 == q - 1);
            } else {
                assert(300 * q <= overtime - 1 < 300 * q + 300);
                assert((overtime - 1) / 300 == q);
            }
        }
    }
}

/// A counter in overtime is on a reminder mark when the overtime is a whole
/// number of periods.
proof fn lemma_mark_by_overtime(overtime: int)
    requires
        overtime > 0,
    ensures
        is_reminder_mark(-overtime) <==> overtime % 300 == 0,
{
    let q = overtime / 300;
    let r = overtime % 300;
    assert(overtime == 300 * q + r);
    if r == 0 {
        assert(-overtime == 300 * (-q));
        assert((300 * (-q)) % 300 == 0);
    } else {
        assert(-overtime == 300 * (-q - 1) + (300 - r));
        assert((300 * (-q - 1) + (300 - r)) % 300 == 300 - r);
    }
}

/// The iteration that sees the flag up is the last: the run is stopped after
/// it, whatever was polled, and nothing is drawn.
pub proof fn lemma_cancel_stops(s: AppState, events: Seq<AppEvent>)
    ensures
        !after_step_all(s, events, true).running,
        !(step_all_action(s, events, true) is Draw),
{
}

/// Without a read error that last iteration ends the run in success.
pub proof fn lemma_cancel_succeeds(s: AppState, events: Seq<AppEvent>)
    requires
        forall|i: int| 0 <= i < events.len() ==> events[i] != AppEvent::ErrorEvent,
    ensures
        step_all_action(s, events, true) == Action::Finish,
{
    if s.running {
        assert(all_ticks(events)) by {
            assert forall|i: int| 0 <= i < events.len() implies events[i]
                == AppEvent::TickEvent by {
                assert(events[i] != AppEvent::ErrorEvent);
            }
        }
        lemma_ticks_count_down(s, events);
    }
}

/// The orchestrator's state: the timer, whether the loop goes on, the memory
/// of the alert policy, and the message shown under the clock.
#[derive(Debug)]
pub struct App {
    counter: Counter,
    is_running: bool,
    played: bool,
    message: String,
}

impl View for App {
    type V = AppState;

    closed spec fn view(&self) -> AppState {
        AppState {
            remaining: self.counter.count as int,
            running: self.is_running,
            played: self.played,
        }
    }
}

impl App {
    /// The characters of the message.
    pub closed spec fn label(&self) -> Seq<char> {
        self.message@
    }

    /// A running timer at `seconds`, which may be negative, with `message`
    /// under the clock.
    pub fn new(message: &str, seconds: i32) -> (app: Self)
        ensures
            app@ == (AppState { remaining: seconds as int, running: true, played: false }),
            app.label() == message@,
    {
        Self {
            counter: Counter::new(seconds),
            is_running: true,
            played: false,
            message: message.to_owned(),
        }
    }

    /// Seconds remaining.
    pub fn remaining(&self) -> (n: i32)
        ensures
            n == self@.remaining,
    {
        self.counter.read()
    }

    /// Whether the countdown has passed zero.
    pub fn is_overtime(&self) -> (over: bool)
        ensures
            over == (self@.remaining < 0),
    {
        self.counter.is_overtime()
    }

    /// Whether the loop goes on.
    pub fn is_running(&self) -> (running: bool)
        ensures
            running == self@.running,
    {
        self.is_running
    }

    /// The clock to draw.
    pub fn clock(&self) -> (clock: DisplayClock)
        ensures
            clock == clock_of(self@.remaining),
    {
        self.counter.display()
    }

    /// The message to show under the clock.
    pub fn message(&self) -> (text: &str)
        ensures
            text@ == self.label(),
    {
        self.message.as_str()
    }

    /// Whether there is a message to show.
    pub fn shows_message(&self) -> (shown: bool)
        ensures
            shown == (self.label().len() > 0),
    {
        !self.message.as_str().is_empty()
    }

    /// Lays out one frame on `area`: the clock in the large letters of `font`
    /// in the middle, and the message, where there is one, below it. Drawing
    /// the frame is the caller's.
    pub fn render(&self, area: Area, font: &FIGfont) -> (frame: Frame)
        requires
            area.fits(),
        ensures
            frame.clock_area == clock_place(area),
            printed(frame.figure) == figure_of(*font, clock_of(self@.remaining).spec_text()),
            frame.message_area == (if self.label().len() > 0 {
                Some(message_place(area))
            } else {
                None
            }),
    {
        let clock_area = timer_area(area);
        let figure = self.counter.display().banner(font);
        let message_area = if self.shows_message() {
            Some(message_area(area))
        } else {
            None
        };
        Frame { clock_area, figure, message_area }
    }

    /// Stops the loop.
    pub fn quit(&mut self)
        ensures
            final(self)@ == stopped(old(self)@),
            final(self).label() == old(self).label(),
    {
        self.is_running = false;
    }

    /// Stops the loop because the frame could not be drawn, and gives the
    /// failure to return.
    pub fn draw_failed(&mut self) -> (failure: RunError)
        ensures
            final(self)@ == stopped(old(self)@),
            final(self).label() == old(self).label(),
            failure == RunError::Render,
    {
        self.is_running = false;
        RunError::Render
    }

    /// Consumes one tick; says whether the tone sounds.
    fn tick(&mut self) -> (sounds: bool)
        requires
            old(self)@.remaining > i32::MIN,
        ensures
            final(self)@ == after_tick(old(self)@),
            final(self).label() == old(self).label(),
            sounds == tick_sounds(old(self)@),
    {
        let previous = self.counter.read();
        self.counter.decrement();
        let decision = should_play(previous, self.counter.read(), self.played);
        self.played = decision.1;
        decision.0
    }

    /// Consumes one event of the queue that also carries the quit key: a tick
    /// takes a second off and asks the alert policy, the quit key stops the
    /// loop, and a read error stops it with a failure.
    pub fn handle_event(&mut self, event: crate::events::AppEvent) -> (answer: Result<
        bool,
        RunError,
    >)
        requires
            old(self)@.running && event == crate::events::AppEvent::Tick ==> old(self)@.remaining
                > i32::MIN,
        ensures
            (final(self)@, answer) == handled(old(self)@, event),
            final(self).label() == old(self).label(),
    {
        if !self.is_running {
            return Ok(false);
        }
        match event {
            crate::events::AppEvent::Tick => Ok(self.tick()),
            crate::events::AppEvent::Quit => {
                self.quit();
                Ok(false)
            },
            crate::events::AppEvent::Error => {
                self.is_running = false;
                Err(RunError::InputRead)
            },
        }
    }

    /// One iteration of the loop that polled at most one event: consumes the
    /// event, then looks at the cancellation flag, and says what to do. On a
    /// stopped run it does nothing and answers `Finish`. For a tick a running
    /// counter must have room for one second.
    pub fn step(&mut self, event: Option<AppEvent>, cancelled: bool) -> (action: Action)
        requires
            old(self)@.running && event == Some(AppEvent::TickEvent) ==> old(self)@.remaining
                > i32::MIN,
        ensures
            final(self)@ == after_step(old(self)@, event, cancelled),
            final(self).label() == old(self).label(),
            action == step_action(old(self)@, event, cancelled),
    {
        if !self.is_running {
            return Action::Finish;
        }
        let mut sounded: usize = 0;
        match event {
            Some(AppEvent::TickEvent) => {
                if self.tick() {
                    sounded = 1;
                }
            },
            Some(AppEvent::ErrorEvent) => {
                self.is_running = false;
                return Action::Fail(RunError::InputRead);
            },
            None => {},
        }
        if cancelled {
            self.is_running = false;
            return Action::Finish;
        }
        Action::Draw { clock: self.counter.display(), tones: sounded }
    }

    /// One iteration of the loop that drained the queue: consumes the events
    /// that were polled, in order and up to the first read error, asking the
    /// alert policy at every tick, then looks at the cancellation flag, and
    /// says what to do. On a stopped run it does nothing and answers
    /// `Finish`. A running counter must have room for one second for each
    /// event.
    pub fn step_all(&mut self, events: &Vec<AppEvent>, cancelled: bool) -> (action: Action)
        requires
            old(self)@.running ==> old(self)@.remaining - events.len() >= i32::MIN,
        ensures
            final(self)@ == after_step_all(old(self)@, events@, cancelled),
            final(self).label() == old(self).label(),
            action == step_all_action(old(self)@, events@, cancelled),
    {
        if !self.is_running {
            proof {
                lemma_stopped_run_is_inert(self@, events@);
            }
            return Action::Finish;
        }
        let mut sounded: usize = 0;
        let mut i: usize = 0;
        assert(events@.subrange(0, events.len() as int) =~= events@);
        while i < events.len() && self.is_running
            invariant
                i <= events.len(),
                self.label() == old(self).label(),
                self@.remaining >= old(self)@.remaining - i,
                old(self)@.remaining - events.len() >= i32::MIN,
                sounded <= i,
                after_events(old(self)@, events@) == after_events(
                    self@,
                    events@.subrange(i as int, events.len() as int),
                ),
                tones(old(self)@, events@) == sounded + tones(
                    self@,
                    events@.subrange(i as int, events.len() as int),
                ),
            decreases events.len() - i,
        {
            proof {
                let rest = events@.subrange(i as int, events.len() as int);
                assert(rest[0] == events@[i as int]);
                assert(rest.drop_first() =~= events@.subrange(i + 1, events.len() as int));
            }
            match events[i] {
                AppEvent::TickEvent => {
                    if self.tick() {
                        sounded = sounded + 1;
                    }
                },
                AppEvent::ErrorEvent => {
                    self.is_running = false;
                },
            }
            i = i + 1;
        }
        if !self.is_running {
            proof {
                lemma_stopped_run_is_inert(
                    self@,
                    events@.subrange(i as int, events.len() as int),
                );
            }
            return Action::Fail(RunError::InputRead);
        }
        if cancelled {
            self.is_running = false;
            return Action::Finish;
        }
        Action::Draw { clock: self.counter.display(), tones: sounded }
    }
}

} // verus!
