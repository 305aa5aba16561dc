//! Run control: what the host does on each of its events. A run is paused or
//! running, and it may have a scenario waiting to be loaded.

use vstd::prelude::*;

verus! {

/// What can happen to the host.
#[derive(Debug, Clone, Copy, PartialEq, Eq, Structural)]
pub enum Event {
    /// The pause button was pressed.
    Press,
    /// A scenario file was handed over.
    FileDropped,
    /// A frame of the display begins.
    Frame,
    /// One fixed step of time has passed.
    FixedTick,
}

/// What the host is to do next.
#[derive(Debug, Clone, Copy, PartialEq, Eq, Structural)]
pub enum Action {
    /// Nothing.
    Idle,
    /// Drop the charges of the run and read the scenario that is waiting.
    Load,
    /// Carry out one tick.
    Tick,
}

/// The state of a run.
#[derive(Debug, Clone, Copy, PartialEq, Eq, Structural)]
pub struct Control {
    /// Ticks are carried out.
    pub running: bool,
    /// No scenario is waiting to be loaded.
    pub initialized: bool,
}

/// The state after `event` and the action that the event asks for.
///
/// A press turns running into paused and back. A dropped file waits until the
/// next frame, which loads it. A fixed tick asks for a tick only while
/// running; while paused it changes nothing.
pub open spec fn next(state: Control, event: Event) -> (Control, Action) {
    match event {
        Event::Press => (
            Control { running: !state.running, initialized: state.initialized },
            Action::Idle,
        ),
        Event::FileDropped => (
            Control { running: state.running, initialized: false },
            Action::Idle,
        ),
        Event::Frame => if state.initialized {
            (state, Action::Idle)
        } else {
            (Control { running: state.running, initialized: true }, Action::Load)
        },
        Event::FixedTick => if state.running {
            (state, Action::Tick)
        } else {
            (state, Action::Idle)
        },
    }
}

/// The text on the pause button.
pub open spec fn label_of(running: bool) -> Seq<char> {
    if running {
        seq!['P', 'a', 'u', 's', 'e']
    } else {
        seq!['U', 'n', 'p', 'a', 'u', 's', 'e']
    }
}

impl Control {
    /// A paused run with nothing to load.
    pub fn new() -> (state: Control)
        ensures
            !state.running,
            state.initialized,
    {
        Control { running: false, initialized: true }
    }

    /// Takes one event: moves to the next state and says what to do.
    pub fn handle(&mut self, event: Event) -> (action: Action)
        ensures
            (*final(self), action) == next(*old(self), event),
    {
        match event {
            Event::Press => {
                self.running = !self.running;
                Action::Idle
            },
            Event::FileDropped => {
                self.initialized = false;
                Action::Idle
            },
            Event::Frame => {
                if self.initialized {
                    Action::Idle
                } else {
                    self.initialized = true;
                    Action::Load
                }
            },
            Event::FixedTick => {
                if self.running {
                    Action::Tick
                } else {
                    Action::Idle
                }
            },
        }
    }

    /// The text that the pause button shows: what a press would do.
    pub fn label(&self) -> (text: &'static str)
        ensures
            text@ == label_of(self.running),
    {
        if self.running {
            proof {
                reveal_strlit("Pause");
            }
            assert("Pause"@ =~= label_of(true));
            "Pause"
        } else {
            proof {
                reveal_strlit("Unpause");
            }
            assert("Unpause"@ =~= label_of(false));
            "Unpause"
        }
    }
}

/// While paused, time does not move the run: fixed ticks, however many, ask
/// for no tick and leave the state as it was.
pub proof fn lemma_paused_stays(state: Control)
    requires
        !state.running,
    ensures
        next(state, Event::FixedTick) == (state, Action::Idle),
{
}

/// A dropped file is loaded at the next frame, and once only.
pub proof fn lemma_drop_loads_once(state: Control)
    ensures
        next(next(state, Event::FileDropped).0, Event::Frame).1 == Action::Load,
        next(next(next(state, Event::FileDropped).0, Event::Frame).0, Event::Frame).1
            == Action::Idle,
{
}

} // verus!
