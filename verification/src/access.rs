//! The access bracket around a Java string's character buffer.
//!
//! The Java runtime hands out the buffer on `BeginStringAccess`, tells its
//! length on `QueryCodeUnitLength` and takes it back on `EndStringAccess`.
//! [`Access`] decides which of the three is asked when: it is told what
//! happened as an [`Event`] and answers with the [`Action`] that is due.
//! Making the calls is left to the owner of the runtime.

use jni::sys::jsize;
use vstd::prelude::*;

verus! {

/// The string handle that stands for "no string". Access to it is never begun.
pub const NULL_STRING: usize = 0;

/// Why no view of the string could be had.
#[derive(Clone, Copy, Debug, PartialEq, Eq, Structural)]
pub enum AcquisitionError {
    /// The runtime did not grant a buffer.
    AccessRefused,
    /// The runtime granted a buffer and then did not tell its length.
    LengthUnknown,
}

/// A question to the runtime.
#[derive(Clone, Copy, Debug, PartialEq, Eq, Structural)]
pub enum Request {
    /// Grant a buffer that holds the code units of `string`.
    BeginStringAccess { string: usize },
    /// Tell how many code units `buffer` holds.
    QueryCodeUnitLength { buffer: usize },
    /// Take back `buffer`, which was granted for `string`.
    EndStringAccess { string: usize, buffer: usize },
}

/// What happened since the last action.
#[derive(Clone, Copy, Debug, PartialEq, Eq, Structural)]
pub enum Event {
    /// `BeginStringAccess` was answered with a buffer.
    Granted { buffer: usize },
    /// `QueryCodeUnitLength` was answered with a length in code units.
    Measured { length: jsize },
    /// `EndStringAccess` was carried out.
    Ended,
    /// The runtime reported a failure in place of an answer.
    Failed,
    /// The view of the buffer went out of scope.
    Dropped,
}

/// What is to be done next.
#[derive(Clone, Copy, Debug, PartialEq, Eq, Structural)]
pub enum Action {
    /// Put the request to the runtime and report its answer.
    Ask(Request),
    /// The buffer is open: `length` code units can be read at `buffer` until
    /// the view is dropped.
    Expose { buffer: usize, length: jsize },
    /// The buffer has been taken back and nothing is held.
    Finish,
    /// There is no view, and nothing is held.
    Fail(AcquisitionError),
    /// The runtime would not take back the buffer it granted. There is no way
    /// to go on from here: stop the program.
    Abort,
}

/// Where a bracket stands.
#[derive(Clone, Copy, Debug, PartialEq, Eq, Structural)]
pub enum Phase {
    /// `BeginStringAccess` has been asked.
    Beginning { string: usize },
    /// A buffer is held and `QueryCodeUnitLength` has been asked.
    Measuring { string: usize, buffer: usize },
    /// A buffer of known length is held, and a view may read it.
    Acquired { string: usize, buffer: usize, length: jsize },
    /// `EndStringAccess` has been asked, after the view was dropped or, where
    /// `failed` is set, after the length could not be had.
    Releasing { string: usize, buffer: usize, failed: bool },
    /// The buffer has been taken back after use.
    Released,
    /// The acquisition failed and nothing is held.
    Failed { error: AcquisitionError },
    /// The runtime would not take back the buffer.
    Aborted,
}

impl Phase {
    /// `event` is one that can happen in this phase.
    pub open spec fn fits(self, event: Event) -> bool {
        match self {
            Phase::Beginning { .. } => event is Granted || event is Failed,
            Phase::Measuring { .. } => (event matches Event::Measured { length } && length >= 0)
                || event is Failed,
            Phase::Acquired { .. } => event is Dropped,
            Phase::Releasing { .. } => event is Ended || event is Failed,
            Phase::Released | Phase::Failed { .. } | Phase::Aborted => false,
        }
    }

    /// The phase after `event`. An event that does not fit changes nothing.
    pub open spec fn step(self, event: Event) -> Phase {
        if !self.fits(event) {
            self
        } else {
            match self {
                Phase::Beginning { string } => match event {
                    Event::Granted { buffer } => Phase::Measuring { string, buffer },
                    _ => Phase::Failed { error: AcquisitionError::AccessRefused },
                },
                Phase::Measuring { string, buffer } => match event {
                    Event::Measured { length } => Phase::Acquired { string, buffer, length },
                    _ => Phase::Releasing { string, buffer, failed: true },
                },
                Phase::Acquired { string, buffer, .. } => Phase::Releasing {
                    string,
                    buffer,
                    failed: false,
                },
                Phase::Releasing { failed, .. } => match event {
                    Event::Ended => if failed {
                        Phase::Failed { error: AcquisitionError::LengthUnknown }
                    } else {
                        Phase::Released
                    },
                    _ => Phase::Aborted,
                },
                _ => self,
            }
        }
    }

    /// What is due in this phase.
    pub open spec fn action(self) -> Action {
        match self {
            Phase::Beginning { string } => Action::Ask(Request::BeginStringAccess { string }),
            Phase::Measuring { buffer, .. } => Action::Ask(
                Request::QueryCodeUnitLength { buffer },
            ),
            Phase::Acquired { buffer, length, .. } => Action::Expose { buffer, length },
            Phase::Releasing { string, buffer, .. } => Action::Ask(
                Request::EndStringAccess { string, buffer },
            ),
            Phase::Released => Action::Finish,
            Phase::Failed { error } => Action::Fail(error),
            Phase::Aborted => Action::Abort,
        }
    }

    /// Nothing can happen any more.
    pub open spec fn is_terminal(self) -> bool {
        self is Released || self is Failed || self is Aborted
    }
}

/// One access bracket, from the first request to the last answer.
///
/// Its view is the [`Phase`] it stands in. It cannot be copied, so a bracket
/// is advanced along one line of events only.
#[derive(Debug)]
pub struct Access {
    phase: Phase,
}

impl View for Access {
    type V = Phase;

    closed spec fn view(&self) -> Phase {
        self.phase
    }
}

impl Access {
    /// Opens a bracket for `string`. The first thing due is `BeginStringAccess`.
    pub fn begin(string: usize) -> (access: Self)
        requires
            string != NULL_STRING,
        ensures
            access@ == (Phase::Beginning { string }),
    {
        Access { phase: Phase::Beginning { string } }
    }

    /// The phase that the bracket stands in.
    pub fn phase(&self) -> (phase: Phase)
        ensures
            phase == self@,
    {
        self.phase
    }

    /// What is due now.
    pub fn action(&self) -> (action: Action)
        ensures
            action == self@.action(),
    {
        match self.phase {
            Phase::Beginning { string } => Action::Ask(Request::BeginStringAccess { string }),
            Phase::Measuring { buffer, .. } => Action::Ask(
                Request::QueryCodeUnitLength { buffer },
            ),
            Phase::Acquired { buffer, length, .. } => Action::Expose { buffer, length },
            Phase::Releasing { string, buffer, .. } => Action::Ask(
                Request::EndStringAccess { string, buffer },
            ),
            Phase::Released => Action::Finish,
            Phase::Failed { error } => Action::Fail(error),
            Phase::Aborted => Action::Abort,
        }
    }

    /// Takes in `event` and answers with what is due after it. An event that
    /// does not fit the phase is answered with `None` and changes nothing.
    pub fn advance(&mut self, event: Event) -> (due: Option<Action>)
        ensures
            old(self)@.fits(event) ==> final(self)@ == old(self)@.step(event) && due == Some(
                final(self)@.action(),
            ),
            !old(self)@.fits(event) ==> final(self)@ == old(self)@ && due is None,
    {
        let next: Phase = match self.phase {
            Phase::Beginning { string } => match event {
                Event::Granted { buffer } => Phase::Measuring { string, buffer },
                Event::Failed => Phase::Failed { error: AcquisitionError::AccessRefused },
                _ => { return None; },
            },
            Phase::Measuring { string, buffer } => match event {
                Event::Measured { length } => {
                    if length < 0 {
                        return None;
                    }
                    Phase::Acquired { string, buffer, length }
                },
                Event::Failed => Phase::Releasing { string, buffer, failed: true },
                _ => { return None; },
            },
            Phase::Acquired { string, buffer, .. } => match event {
                Event::Dropped => Phase::Releasing { string, buffer, failed: false },
                _ => { return None; },
            },
            Phase::Releasing { failed, .. } => match event {
                Event::Ended => {
                    if failed {
                        Phase::Failed { error: AcquisitionError::LengthUnknown }
                    } else {
                        Phase::Released
                    }
                },
                Event::Failed => Phase::Aborted,
                _ => { return None; },
            },
            _ => { return None; },
        };
        self.phase = next;
        Some(self.action())
    }
}

/// The phase that `events`, taken in order, lead to from `start`.
pub open spec fn run(start: Phase, events: Seq<Event>) -> Phase
    decreases events.len(),
{
    if events.len() == 0 {
        start
    } else {
        run(start.step(events[0]), events.drop_first())
    }
}

/// What `event` makes the bracket ask of the runtime in phase `phase`.
pub open spec fn asked_on(phase: Phase, event: Event) -> Seq<Request> {
    if phase.fits(event) {
        match phase.step(event).action() {
            Action::Ask(request) => seq![request],
            _ => Seq::empty(),
        }
    } else {
        Seq::empty()
    }
}

/// Every request that the bracket makes while `events` lead it on from
/// `start`, in order. The request that is due in `start` itself is not among
/// them.
pub open spec fn asked(start: Phase, events: Seq<Event>) -> Seq<Request>
    decreases events.len(),
{
    if events.len() == 0 {
        Seq::empty()
    } else {
        asked_on(start, events[0]) + asked(start.step(events[0]), events.drop_first())
    }
}

/// Once nothing can happen any more, nothing does: the phase stays and the
/// runtime is asked nothing.
pub proof fn lemma_terminal_stays(phase: Phase, events: Seq<Event>)
    requires
        phase.is_terminal(),
    ensures
        run(phase, events) == phase,
        asked(phase, events) == Seq::<Request>::empty(),
    decreases events.len(),
{
    if events.len() > 0 {
        lemma_terminal_stays(phase, events.drop_first());
    }
}

/// After `EndStringAccess` has been asked it is not asked again, whatever
/// comes.
pub proof fn lemma_releasing_asks_nothing(phase: Phase, events: Seq<Event>)
    requires
        phase is Releasing,
    ensures
        asked(phase, events) == Seq::<Request>::empty(),
        run(phase, events) is Releasing || run(phase, events).is_terminal(),
        run(phase, events) is Releasing ==> run(phase, events) == phase,
        run(phase, events) matches Phase::Failed { error } ==> error
            == AcquisitionError::LengthUnknown && phase->failed,
        run(phase, events) is Released ==> !phase->failed,
    decreases events.len(),
{
    if events.len() > 0 {
        let next = phase.step(events[0]);
        if next is Releasing {
            lemma_releasing_asks_nothing(next, events.drop_first());
        } else {
            lemma_terminal_stays(next, events.drop_first());
        }
    }
}

/// The buffer of an acquired view is given back exactly once: as long as the
/// bracket stays acquired nothing is asked of the runtime, and as soon as it
/// has left that phase `EndStringAccess` has been asked once, for the string
/// and the buffer of the view, and nothing else. Reading the view is no
/// event, so it is the same whether the code units were decoded or not.
pub proof fn lemma_acquired_released_once(
    string: usize,
    buffer: usize,
    length: jsize,
    events: Seq<Event>,
)
    ensures
        ({
            let start = Phase::Acquired { string, buffer, length };
            let end = run(start, events);
            &&& end == start ==> asked(start, events) == Seq::<Request>::empty()
            &&& end != start ==> asked(start, events) == seq![
                Request::EndStringAccess { string, buffer },
            ]
            &&& end == start || end == (Phase::Releasing { string, buffer, failed: false }) || end
                is Released || end is Aborted
        }),
    decreases events.len(),
{
    let start = Phase::Acquired { string, buffer, length };
    if events.len() > 0 {
        let next = start.step(events[0]);
        let rest = events.drop_first();
        if start.fits(events[0]) {
            lemma_releasing_asks_nothing(next, rest);
            assert(asked(start, events) =~= seq![Request::EndStringAccess { string, buffer }]);
        } else {
            lemma_acquired_released_once(string, buffer, length, rest);
            assert(asked(start, events) =~= asked(start, rest));
        }
    }
}

/// From the granted buffer on, `EndStringAccess` is asked at most once, and
/// exactly once as soon as the bracket has passed the acquired phase or the
/// length could not be had.
proof fn lemma_measuring(string: usize, buffer: usize, events: Seq<Event>)
    ensures
        ({
            let start = Phase::Measuring { string, buffer };
            let end = run(start, events);
            let held = end == start || (end matches Phase::Acquired {
                string: s,
                buffer: b,
                ..
            } && s == string && b == buffer);
            &&& held ==> asked(start, events) == Seq::<Request>::empty()
            &&& !held ==> asked(start, events) == seq![
                Request::EndStringAccess { string, buffer },
            ]
            &&& !held ==> end is Releasing || end is Released || end is Aborted || end == (
            Phase::Failed { error: AcquisitionError::LengthUnknown })
            &&& end matches Phase::Releasing { string: s, buffer: b, .. } ==> s == string && b
                == buffer
        }),
    decreases events.len(),
{
    let start = Phase::Measuring { string, buffer };
    if events.len() > 0 {
        let next = start.step(events[0]);
        let rest = events.drop_first();
        if !start.fits(events[0]) {
            lemma_measuring(string, buffer, rest);
            assert(asked(start, events) =~= asked(start, rest));
        } else if next is Releasing {
            lemma_releasing_asks_nothing(next, rest);
            assert(asked(start, events) =~= seq![Request::EndStringAccess { string, buffer }]);
        } else {
            lemma_acquired_released_once(string, buffer, next->length, rest);
            assert(asked(start, events) =~= asked(next, rest));
        }
    }
}

/// The course of one bracket, whatever events arrive and in whatever order.
///
/// Besides the `BeginStringAccess` that opens it, the bracket asks for the
/// length of the granted buffer at most once, and after that for the end of
/// access at most once, for the string it was opened for and the buffer that
/// was granted. Where no buffer was granted it asks nothing at all. The end
/// of access has been asked exactly when the bracket is releasing, released
/// or aborted, or has failed for want of the length.
pub proof fn lemma_bracket(string: usize, events: Seq<Event>)
    ensures
        ({
            let start = Phase::Beginning { string };
            let end = run(start, events);
            let requests = asked(start, events);
            let released = end is Releasing || end is Released || end is Aborted || end == (
            Phase::Failed { error: AcquisitionError::LengthUnknown });
            let refused = end == start || end == (Phase::Failed {
                error: AcquisitionError::AccessRefused,
            });
            &&& refused ==> requests.len() == 0
            &&& !refused && !released ==> requests.len() == 1
            &&& released ==> requests.len() == 2
            &&& requests.len() >= 1 ==> requests[0] is QueryCodeUnitLength
            &&& requests.len() == 2 ==> requests[1] == (Request::EndStringAccess {
                string,
                buffer: requests[0]->QueryCodeUnitLength_buffer,
            })
            &&& !refused && !released ==> (end is Measuring || end is Acquired)
        }),
    decreases events.len(),
{
    let start = Phase::Beginning { string };
    if events.len() > 0 {
        let next = start.step(events[0]);
        let rest = events.drop_first();
        if !start.fits(events[0]) {
            lemma_bracket(string, rest);
            assert(asked(start, events) =~= asked(start, rest));
        } else if next is Failed {
            lemma_terminal_stays(next, rest);
            assert(asked(start, events) =~= Seq::<Request>::empty());
        } else {
            let buffer = next->Measuring_buffer;
            lemma_measuring(string, buffer, rest);
            assert(asked(start, events) =~= seq![Request::QueryCodeUnitLength { buffer }]
                + asked(next, rest));
        }
    }
}

/// Where the runtime refuses to begin access, the acquisition fails with
/// [`AcquisitionError::AccessRefused`] and the runtime is never asked to end
/// an access that it did not begin.
pub proof fn lemma_refused_access_is_not_ended(string: usize, events: Seq<Event>)
    requires
        events.len() > 0,
        events[0] == Event::Failed,
    ensures
        run(Phase::Beginning { string }, events) == (Phase::Failed {
            error: AcquisitionError::AccessRefused,
        }),
        asked(Phase::Beginning { string }, events) == Seq::<Request>::empty(),
{
    let start = Phase::Beginning { string };
    lemma_terminal_stays(start.step(events[0]), events.drop_first());
    assert(asked(start, events) =~= Seq::<Request>::empty());
}

} // verus!
