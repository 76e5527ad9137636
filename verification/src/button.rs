//! Debounced button press classifier.
//!
//! A two-state machine (`Released`/`Pressed`) driven by sampled input levels.
//! The caller polls it at its own cadence, handing in the sampled level and the
//! current monotonic time in milliseconds; the machine answers with at most one
//! classified event per completed press episode, which the caller dispatches
//! however it likes. Reading the physical line and invoking reactions are the
//! caller's business; the classification logic lives here.

use vstd::prelude::*;

verus! {

/// A logic level sampled from (or driven onto) a digital line.
#[derive(Clone, Copy, PartialEq, Eq, Structural, Debug)]
pub enum Level {
    High,
    Low,
}

/// Which level counts as "the button is held down".
#[derive(Clone, Copy, PartialEq, Eq, Structural, Debug)]
pub enum WhenPressed {
    High,
    Low,
}

/// The two stable states of the debounce machine.
#[derive(Clone, Copy, PartialEq, Eq, Structural, Debug)]
pub enum ButtonState {
    Released,
    Pressed,
}

/// The classification of one completed press episode.
#[derive(Clone, Copy, PartialEq, Eq, Structural, Debug)]
pub enum ButtonEvent {
    ShortPress,
    LongPress,
}

impl Default for ButtonState {
    fn default() -> (r: Self)
        ensures
            r == ButtonState::Released,
    {
        ButtonState::Released
    }
}

impl Default for WhenPressed {
    fn default() -> (r: Self)
        ensures
            r == WhenPressed::Low,
    {
        WhenPressed::Low
    }
}

/// The press classifier. Purely a state machine: it holds no pin and no
/// callbacks; `poll` takes the sampled level and the clock reading as values.
#[derive(Clone, Copy, PartialEq, Eq, Structural, Debug)]
pub struct Button {
    /// Current stable state.
    pub button_state: ButtonState,
    /// Monotonic time, in milliseconds, at which the current press began.
    /// Meaningful only while `button_state` is `Pressed`.
    pub press_time: u64,
    /// Active polarity of the line.
    pub when_pressed: WhenPressed,
    /// Threshold, in milliseconds, at or above which a press is long.
    pub long_press_duration: u64,
}

impl Button {
    /// Whether a sampled level reads as "pressed" under polarity `wp`.
    pub open spec fn spec_pressed(level: Level, wp: WhenPressed) -> bool {
        match wp {
            WhenPressed::High => level == Level::High,
            WhenPressed::Low => level == Level::Low,
        }
    }

    /// Classification of an elapsed press duration against a threshold:
    /// strictly below the threshold is short, at or above it is long.
    pub open spec fn spec_classify(elapsed: int, threshold: u64) -> ButtonEvent {
        if elapsed < threshold {
            ButtonEvent::ShortPress
        } else {
            ButtonEvent::LongPress
        }
    }

    /// One step of the machine: the state after a poll that samples `pressed`
    /// at time `now_ms`, and the event (if any) that the poll emits.
    pub open spec fn spec_poll(self, pressed: bool, now_ms: u64) -> (Button, Option<ButtonEvent>) {
        match self.button_state {
            ButtonState::Released => {
                if pressed {
                    (
                        Button {
                            button_state: ButtonState::Pressed,
                            press_time: now_ms,
                            when_pressed: self.when_pressed,
                            long_press_duration: self.long_press_duration,
                        },
                        None,
                    )
                } else {
                    (self, None)
                }
            },
            ButtonState::Pressed => {
                if !pressed {
                    (
                        Button {
                            button_state: ButtonState::Released,
                            press_time: self.press_time,
                            when_pressed: self.when_pressed,
                            long_press_duration: self.long_press_duration,
                        },
                        Some(Self::spec_classify(now_ms - self.press_time, self.long_press_duration)),
                    )
                } else {
                    (self, None)
                }
            },
        }
    }

    /// The machine run over a whole sequence of samples, collecting every
    /// event emitted along the way in order.
    pub open spec fn spec_run(self, samples: Seq<(bool, u64)>) -> (Button, Seq<ButtonEvent>)
        decreases samples.len(),
    {
        if samples.len() == 0 {
            (self, Seq::empty())
        } else {
            let step = self.spec_poll(samples[0].0, samples[0].1);
            let rest = step.0.spec_run(samples.drop_first());
            let first_events = match step.1 {
                Some(e) => seq![e],
                None => Seq::empty(),
            };
            (rest.0, first_events + rest.1)
        }
    }

    /// Starts a classifier in `Released`, active-low, with a 500 ms
    /// long-press threshold.
    pub fn new() -> (r: Button)
        ensures
            r.button_state == ButtonState::Released,
            r.press_time == 0,
            r.when_pressed == WhenPressed::Low,
            r.long_press_duration == 500,
    {
        Button {
            button_state: ButtonState::Released,
            press_time: 0,
            when_pressed: WhenPressed::Low,
            long_press_duration: 500,
        }
    }

    /// Configures the line as active-high.
    pub fn set_high(self) -> (r: Button)
        ensures
            r == (Button { when_pressed: WhenPressed::High, ..self }),
    {
        Button { when_pressed: WhenPressed::High, ..self }
    }

    /// Configures the line as active-low.
    pub fn set_low(self) -> (r: Button)
        ensures
            r == (Button { when_pressed: WhenPressed::Low, ..self }),
    {
        Button { when_pressed: WhenPressed::Low, ..self }
    }

    /// Overrides the long-press threshold, in milliseconds.
    pub fn set_long_press_duration(self, duration_ms: u64) -> (r: Button)
        ensures
            r == (Button { long_press_duration: duration_ms, ..self }),
    {
        Button { long_press_duration: duration_ms, ..self }
    }

    /// Interprets a sampled level under this classifier's polarity.
    pub fn is_pressed(&self, level: Level) -> (b: bool)
        ensures
            b == Self::spec_pressed(level, self.when_pressed),
    {
        match self.when_pressed {
            WhenPressed::High => matches!(level, Level::High),
            WhenPressed::Low => matches!(level, Level::Low),
        }
    }

    /// Advances the machine by one sample.
    ///
    /// In `Released`, a pressed sample starts a press episode (recording
    /// `now_ms`) and emits nothing. In `Pressed`, a released sample ends the
    /// episode and emits exactly one event, `ShortPress` if the elapsed time
    /// is below the threshold and `LongPress` otherwise; a pressed sample
    /// changes nothing. The monotonic clock never goes backward, so `now_ms`
    /// is never earlier than the recorded press start.
    pub fn poll(&mut self, level: Level, now_ms: u64) -> (event: Option<ButtonEvent>)
        requires
            old(self).button_state == ButtonState::Pressed ==> now_ms >= old(self).press_time,
        ensures
            (*final(self), event) == old(self).spec_poll(
                Self::spec_pressed(level, old(self).when_pressed),
                now_ms,
            ),
    {
        let pressed = self.is_pressed(level);
        match self.button_state {
            ButtonState::Released => {
                if pressed {
                    self.button_state = ButtonState::Pressed;
                    self.press_time = now_ms;
                }
                None
            },
            ButtonState::Pressed => {
                if !pressed {
                    self.button_state = ButtonState::Released;
                    let elapsed = now_ms - self.press_time;
                    if elapsed < self.long_press_duration {
                        Some(ButtonEvent::ShortPress)
                    } else {
                        Some(ButtonEvent::LongPress)
                    }
                } else {
                    None
                }
            },
        }
    }
}

/// Law: a poll that causes no transition — `Released` with the line reading
/// idle, or held `Pressed` — emits no event and changes nothing.
pub proof fn lemma_no_event_without_transition(b: Button, pressed: bool, now_ms: u64)
    requires
        (b.button_state == ButtonState::Released && !pressed) || (b.button_state
            == ButtonState::Pressed && pressed),
    ensures
        b.spec_poll(pressed, now_ms) == (b, None::<ButtonEvent>),
{
}

/// Law: over any run of samples in which the line never reads pressed, a
/// machine sitting in `Released` emits no event and ends unchanged.
pub proof fn lemma_released_idle_run(b: Button, times: Seq<u64>)
    requires
        b.button_state == ButtonState::Released,
    ensures
        b.spec_run(times.map_values(|t: u64| (false, t))) == (b, Seq::<ButtonEvent>::empty()),
    decreases times.len(),
{
    let samples = times.map_values(|t: u64| (false, t));
    if times.len() > 0 {
        assert(samples[0] == (false, times[0]));
        lemma_released_idle_run(b, times.drop_first());
        assert(samples.drop_first() =~= times.drop_first().map_values(|t: u64| (false, t)));
        assert(Seq::<ButtonEvent>::empty() + Seq::<ButtonEvent>::empty() =~= Seq::<
            ButtonEvent,
        >::empty());
    }
}

/// Law: over any run of samples in which the line reads pressed throughout, a
/// machine held in `Pressed` emits no event — no repeats during a hold — and
/// ends unchanged, its recorded press start included.
pub proof fn lemma_held_run(b: Button, times: Seq<u64>)
    requires
        b.button_state == ButtonState::Pressed,
    ensures
        b.spec_run(times.map_values(|t: u64| (true, t))) == (b, Seq::<ButtonEvent>::empty()),
    decreases times.len(),
{
    let samples = times.map_values(|t: u64| (true, t));
    if times.len() > 0 {
        assert(samples[0] == (true, times[0]));
        lemma_held_run(b, times.drop_first());
        assert(samples.drop_first() =~= times.drop_first().map_values(|t: u64| (true, t)));
        assert(Seq::<ButtonEvent>::empty() + Seq::<ButtonEvent>::empty() =~= Seq::<
            ButtonEvent,
        >::empty());
    }
}

/// Running a concatenation of two sample sequences runs the first, then the
/// second from where the first left off, and emits the two event sequences in
/// order.
pub proof fn lemma_run_append(b: Button, s1: Seq<(bool, u64)>, s2: Seq<(bool, u64)>)
    ensures
        ({
            let r1 = b.spec_run(s1);
            let r2 = r1.0.spec_run(s2);
            b.spec_run(s1 + s2) == (r2.0, r1.1 + r2.1)
        }),
    decreases s1.len(),
{
    if s1.len() == 0 {
        assert(s1 + s2 =~= s2);
        let r2 = b.spec_run(s2);
        assert(Seq::<ButtonEvent>::empty() + r2.1 =~= r2.1);
    } else {
        let step = b.spec_poll(s1[0].0, s1[0].1);
        lemma_run_append(step.0, s1.drop_first(), s2);
        assert((s1 + s2).drop_first() =~= s1.drop_first() + s2);
        assert((s1 + s2)[0] == s1[0]);
        let first_events = match step.1 {
            Some(e) => seq![e],
            None => Seq::<ButtonEvent>::empty(),
        };
        let r1rest = step.0.spec_run(s1.drop_first());
        let r2 = r1rest.0.spec_run(s2);
        assert(first_events + (r1rest.1 + r2.1) =~= (first_events + r1rest.1) + r2.1);
    }
}

/// Law: one full cycle under matching polarity — a press edge at `t0`, the
/// line held pressed for any number of further samples, a release edge at
/// `t1` — emits exactly one event and no other: `ShortPress` when the elapsed
/// time `t1 - t0` is below the threshold, `LongPress` at or above it. The
/// machine ends back in `Released`.
pub proof fn lemma_press_release_cycle(b: Button, t0: u64, hold_times: Seq<u64>, t1: u64)
    requires
        b.button_state == ButtonState::Released,
        t0 <= t1,
    ensures
        ({
            let samples = seq![(true, t0)] + hold_times.map_values(|t: u64| (true, t)) + seq![
                (false, t1),
            ];
            let outcome = b.spec_run(samples);
            outcome.0.button_state == ButtonState::Released && outcome.1 == seq![
                Button::spec_classify(t1 - t0, b.long_press_duration),
            ]
        }),
{
    let held = Button {
        button_state: ButtonState::Pressed,
        press_time: t0,
        when_pressed: b.when_pressed,
        long_press_duration: b.long_press_duration,
    };
    let press = seq![(true, t0)];
    let holds = hold_times.map_values(|t: u64| (true, t));
    let release = seq![(false, t1)];
    let empty_s = Seq::<(bool, u64)>::empty();
    let no_events = Seq::<ButtonEvent>::empty();
    lemma_run_append(b, press, holds + release);
    assert(press[0] == (true, t0));
    assert(press.drop_first() =~= empty_s);
    assert(held.spec_run(empty_s) == (held, no_events));
    assert(b.spec_poll(true, t0) == (held, None::<ButtonEvent>));
    assert(b.spec_run(press) == (held, no_events + no_events));
    lemma_run_append(held, holds, release);
    lemma_held_run(held, hold_times);
    let ev = Button::spec_classify(t1 - t0, b.long_press_duration);
    let done = Button {
        button_state: ButtonState::Released,
        press_time: t0,
        when_pressed: b.when_pressed,
        long_press_duration: b.long_press_duration,
    };
    assert(release[0] == (false, t1));
    assert(release.drop_first() =~= empty_s);
    assert(done.spec_run(empty_s) == (done, no_events));
    assert(held.spec_poll(false, t1) == (done, Some(ev)));
    assert(held.spec_run(release) == (done, seq![ev] + no_events));
    assert(held.spec_run(release).1 =~= seq![ev]);
    let samples = press + holds + release;
    assert(samples =~= press + (holds + release));
    assert(b.spec_run(samples).1 =~= seq![ev]);
}

/// Law: the long-press boundary is inclusive — an elapsed time equal to the
/// threshold classifies as `LongPress`; one millisecond less, `ShortPress`.
pub proof fn lemma_threshold_boundary(threshold: u64)
    requires
        threshold >= 1,
    ensures
        Button::spec_classify(threshold as int, threshold) == ButtonEvent::LongPress,
        Button::spec_classify(threshold - 1, threshold) == ButtonEvent::ShortPress,
{
}

} // verus!
