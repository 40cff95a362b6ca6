//! The service that runs tests on request, one at a time.
use vstd::prelude::*;

verus! {

/// A reply to a request for a test.
#[derive(Debug)]
pub struct Reply {
    pub status: u16,
    pub body: String,
}

/// Whether a test is running.
#[derive(Clone, Copy, Debug, PartialEq, Eq, Structural)]
pub struct Slot {
    pub busy: bool,
}

/// The slot after a test was asked for, and whether that test may run.
pub open spec fn after_ask(g: Slot) -> (Slot, bool) {
    (Slot { busy: true }, !g.busy)
}

/// The slot after the running test left.
pub open spec fn after_leave(g: Slot) -> Slot {
    Slot { busy: false }
}

impl Slot {
    /// No test is running.
    pub fn new() -> (g: Slot)
        ensures
            !g.busy,
    {
        Slot { busy: false }
    }

    /// Asks to run a test. While another one runs, the reply refuses it;
    /// otherwise the slot is taken.
    pub fn enter(&mut self) -> (r: Option<Reply>)
        ensures
            (*final(self), r is None) == after_ask(*old(self)),
            r matches Some(reply) ==> reply.status == 409 && reply.body@
                == "a test is already running\n"@,
    {
        if self.busy {
            Some(Reply { status: 409, body: "a test is already running\n".to_string() })
        } else {
            self.busy = true;
            None
        }
    }

    /// The plan of the test that entered could not be read: the slot is free again.
    pub fn refuse_plan(&mut self, error: &str) -> (r: Reply)
        ensures
            *final(self) == after_leave(*old(self)),
            r.status == 400,
            r.body@ == "invalid plan: "@ + error@ + "\n"@,
    {
        self.busy = false;
        let mut body = "invalid plan: ".to_string();
        body.append(error);
        body.append("\n");
        Reply { status: 400, body }
    }

    /// The test that entered is over: the slot is free again.
    pub fn finish(&mut self)
        ensures
            *final(self) == after_leave(*old(self)),
    {
        self.busy = false;
    }
}

/// A line of metrics as it is streamed.
pub fn stream_line(line: &str) -> (r: String)
    ensures
        r@ == line@ + "\n"@,
{
    let mut r = line.to_string();
    r.append("\n");
    r
}

/// What happens to the slot.
pub enum SlotEvent {
    /// A test is asked for.
    Ask,
    /// The running test could not start or is over.
    Leave,
}

/// How many tests run after the events, and the slot.
pub open spec fn running_after(events: Seq<SlotEvent>) -> (nat, Slot)
    decreases events.len(),
{
    if events.len() == 0 {
        (0, Slot { busy: false })
    } else {
        let (running, slot) = running_after(events.drop_last());
        match events.last() {
            SlotEvent::Ask => (
                if after_ask(slot).1 {
                    running + 1
                } else {
                    running
                },
                after_ask(slot).0,
            ),
            SlotEvent::Leave => (
                if running > 0 {
                    (running - 1) as nat
                } else {
                    0
                },
                after_leave(slot),
            ),
        }
    }
}

/// Never does more than one test run, and the slot is taken exactly while one
/// does.
pub proof fn one_test_at_a_time(events: Seq<SlotEvent>)
    ensures
        running_after(events).0 <= 1,
        running_after(events).1.busy == (running_after(events).0 == 1),
    decreases events.len(),
{
    if events.len() > 0 {
        one_test_at_a_time(events.drop_last());
    }
}

/// A test may run exactly while no other does; asking takes the slot, and leaving
/// frees it.
pub proof fn slots_are_taken_in_turn(g: Slot)
    ensures
        after_ask(g).1 == !g.busy,
        after_ask(g).0.busy,
        !after_leave(g).busy,
        !after_ask(after_ask(g).0).1,
        after_ask(after_leave(g)).1,
{
}

} // verus!
