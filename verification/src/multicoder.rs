//! Several machines side by side, each with a queue of the events it has
//! reported and nobody has read yet.
//!
//! The group is driven by one caller, machine by machine: a value is handed to
//! a machine, the machine runs to its next event, and the event waits in the
//! machine's queue until it is read. Nothing here runs on its own.

use vstd::prelude::*;
use crate::intcoder::{IntResponse, Intcode};
use crate::model::{Machine, PADDING};

verus! {

/// One machine of the group and the events waiting in its queue.
pub struct Station {
    /// The machine.
    pub machine: Machine,
    /// What the machine has reported and nobody has read yet, oldest first.
    /// A halt is never queued: a halted machine reports nothing more.
    pub outbox: Seq<IntResponse>,
}

/// The number that stands for an event: the value of an output, and -1 for
/// anything else.
pub open spec fn answer_of(response: IntResponse) -> i64 {
    match response {
        IntResponse::Output(value) => value,
        _ => -1i64,
    }
}

/// A fresh group of `size` machines for `program`, all queues empty.
pub open spec fn fresh(program: Seq<i64>, size: nat) -> Seq<Station> {
    Seq::new(size, |i: int| Station { machine: Machine::load(program), outbox: Seq::empty() })
}

/// Whether `input` can be handed to machine `comp`: the machine exists and,
/// once offered the value, reaches a suspend point.
pub open spec fn deliverable(group: Seq<Station>, comp: int, input: i64) -> bool {
    0 <= comp < group.len() && group[comp].machine.supply(input).suspends()
}

/// The group after `input` was handed to machine `comp` and the machine ran
/// to its next event. The event joins the machine's queue unless it is the
/// halt.
pub open spec fn delivered(group: Seq<Station>, comp: int, input: i64) -> Seq<Station> {
    let (machine, response) = group[comp].machine.start(input);
    let outbox = if response == IntResponse::Halt {
        group[comp].outbox
    } else {
        group[comp].outbox.push(response)
    };
    group.update(comp, Station { machine, outbox })
}

/// Whether reading from machine `comp` comes back: an event is waiting, or
/// the machine has halted and will never report one.
pub open spec fn readable(group: Seq<Station>, comp: int) -> bool {
    0 <= comp < group.len() && (group[comp].outbox.len() > 0 || group[comp].machine.halted)
}

/// Reads from machine `comp`: the oldest waiting event leaves the queue and
/// its number is the answer; with nothing waiting the answer is -1.
pub open spec fn taken(group: Seq<Station>, comp: int) -> (Seq<Station>, i64) {
    if group[comp].outbox.len() > 0 {
        (
            group.update(
                comp,
                Station { machine: group[comp].machine, outbox: group[comp].outbox.drop_first() },
            ),
            answer_of(group[comp].outbox[0]),
        )
    } else {
        (group, -1i64)
    }
}

/// Hands `input` to machine `comp` and reads from it.
pub open spec fn sent(group: Seq<Station>, comp: int, input: i64) -> (Seq<Station>, i64) {
    taken(delivered(group, comp, input), comp)
}

/// Passes on what waits in the queue of `from`, oldest first: each output
/// value is handed to machine `to` unless that machine has halted, anything
/// else is dropped. `None` where the queue is not empty after `limit` events,
/// or where machine `to` cannot take a value.
pub open spec fn connected_within(group: Seq<Station>, from: int, to: int, limit: nat) -> Option<
    Seq<Station>,
>
    decreases limit,
{
    if group[from].outbox.len() == 0 {
        Some(group)
    } else if limit == 0 {
        None
    } else {
        let response = group[from].outbox[0];
        let rest = group.update(
            from,
            Station { machine: group[from].machine, outbox: group[from].outbox.drop_first() },
        );
        match response {
            IntResponse::Output(value) => if rest[to].machine.halted {
                connected_within(rest, from, to, (limit - 1) as nat)
            } else if deliverable(rest, to, value) {
                connected_within(delivered(rest, to, value), from, to, (limit - 1) as nat)
            } else {
                None
            },
            _ => connected_within(rest, from, to, (limit - 1) as nat),
        }
    }
}

/// Whether passing on the queue of `from` to `to` comes to an end.
pub open spec fn connects(group: Seq<Station>, from: int, to: int) -> bool {
    exists|limit: nat| connected_within(group, from, to, limit) is Some
}

/// The group after the queue of `from` was passed on to `to`.
pub open spec fn connected(group: Seq<Station>, from: int, to: int) -> Seq<Station>
    recommends
        connects(group, from, to),
{
    connected_within(
        group,
        from,
        to,
        choose|limit: nat| connected_within(group, from, to, limit) is Some,
    )->Some_0
}

/// Carries `answer` round the group, starting at machine `index`: while the
/// answer is positive it is sent to the next machine in turn, whose answer
/// takes its place. `last` is the latest positive answer seen. `None` where
/// more than `limit` sends are needed, or where a machine cannot take the
/// value.
pub open spec fn circulated_within(
    group: Seq<Station>,
    index: int,
    answer: i64,
    last: i64,
    limit: nat,
) -> Option<(Seq<Station>, i64)>
    decreases limit,
{
    if answer <= 0 {
        Some((group, last))
    } else if limit == 0 || !deliverable(group, index, answer) {
        None
    } else {
        let (next, reply) = sent(group, index, answer);
        circulated_within(
            next,
            (index + 1) % (group.len() as int),
            reply,
            if reply > 0 {
                reply
            } else {
                last
            },
            (limit - 1) as nat,
        )
    }
}

/// A feedback run that needs at most `limit` sends after the first: `start`
/// goes to machine 0, and its answer is carried round from machine 1 on.
pub open spec fn feedback_within(group: Seq<Station>, start: i64, limit: nat) -> Option<
    (Seq<Station>, i64),
> {
    if !deliverable(group, 0, start) {
        None
    } else {
        let (next, reply) = sent(group, 0, start);
        circulated_within(next, 1, reply, 0, limit)
    }
}

/// Whether a feedback run comes to an end.
pub open spec fn feeds_back(group: Seq<Station>, start: i64) -> bool {
    exists|limit: nat| feedback_within(group, start, limit) is Some
}

/// The group after a feedback run, and the run's result: the last positive
/// answer that a machine other than the first to be asked gave, or 0 if there
/// was none.
pub open spec fn fed_back(group: Seq<Station>, start: i64) -> (Seq<Station>, i64)
    recommends
        feeds_back(group, start),
{
    feedback_within(
        group,
        start,
        choose|limit: nat| feedback_within(group, start, limit) is Some,
    )->Some_0
}

/// Sending to a machine with nothing waiting in its queue gives the number of
/// the event that the machine reports next: its output, or -1 if it halts or
/// asks for more input. The queue is empty again afterwards, and no other
/// machine of the group is touched.
pub proof fn theorem_send_answers(group: Seq<Station>, comp: int, input: i64)
    requires
        deliverable(group, comp, input),
        group[comp].outbox.len() == 0,
    ensures
        sent(group, comp, input) == (
            group.update(
                comp,
                Station { machine: group[comp].machine.start(input).0, outbox: Seq::empty() },
            ),
            answer_of(group[comp].machine.start(input).1),
        ),
{
    let (machine, response) = group[comp].machine.start(input);
    let after = delivered(group, comp, input);
    assert(group[comp].outbox =~= Seq::<IntResponse>::empty());
    if response == IntResponse::Halt {
        assert(after[comp].outbox.len() == 0);
        assert(sent(group, comp, input).0 =~= group.update(
            comp,
            Station { machine, outbox: Seq::empty() },
        ));
    } else {
        assert(after[comp].outbox =~= seq![response]);
        assert(after[comp].outbox.drop_first() =~= Seq::<IntResponse>::empty());
        assert(sent(group, comp, input).0 =~= group.update(
            comp,
            Station { machine, outbox: Seq::empty() },
        ));
    }
}

/// A larger limit does not change where passing on a queue ends.
pub proof fn lemma_connected_stable(
    group: Seq<Station>,
    from: int,
    to: int,
    limit: nat,
    larger: nat,
)
    requires
        limit <= larger,
        connected_within(group, from, to, limit) is Some,
    ensures
        connected_within(group, from, to, larger) == connected_within(group, from, to, limit),
    decreases limit,
{
    if group[from].outbox.len() > 0 {
        let response = group[from].outbox[0];
        let rest = group.update(
            from,
            Station { machine: group[from].machine, outbox: group[from].outbox.drop_first() },
        );
        match response {
            IntResponse::Output(value) => {
                if rest[to].machine.halted {
                    lemma_connected_stable(rest, from, to, (limit - 1) as nat, (larger - 1) as nat);
                } else {
                    lemma_connected_stable(
                        delivered(rest, to, value),
                        from,
                        to,
                        (limit - 1) as nat,
                        (larger - 1) as nat,
                    );
                }
            },
            _ => {
                lemma_connected_stable(rest, from, to, (limit - 1) as nat, (larger - 1) as nat);
            },
        }
    }
}

/// Passing on a queue that ends within some limit ends in `connected`.
pub proof fn lemma_connected_is(group: Seq<Station>, from: int, to: int, limit: nat)
    requires
        connected_within(group, from, to, limit) is Some,
    ensures
        connects(group, from, to),
        connected_within(group, from, to, limit) == Some(connected(group, from, to)),
{
    let chosen = choose|chosen: nat| connected_within(group, from, to, chosen) is Some;
    if chosen <= limit {
        lemma_connected_stable(group, from, to, chosen, limit);
    } else {
        lemma_connected_stable(group, from, to, limit, chosen);
    }
}

/// A larger limit does not change where carrying an answer round ends.
pub proof fn lemma_circulated_stable(
    group: Seq<Station>,
    index: int,
    answer: i64,
    last: i64,
    limit: nat,
    larger: nat,
)
    requires
        limit <= larger,
        circulated_within(group, index, answer, last, limit) is Some,
    ensures
        circulated_within(group, index, answer, last, larger) == circulated_within(
            group,
            index,
            answer,
            last,
            limit,
        ),
    decreases limit,
{
    if answer > 0 {
        let (next, reply) = sent(group, index, answer);
        lemma_circulated_stable(
            next,
            (index + 1) % (group.len() as int),
            reply,
            if reply > 0 {
                reply
            } else {
                last
            },
            (limit - 1) as nat,
            (larger - 1) as nat,
        );
    }
}

/// A feedback run that ends within some limit ends in `fed_back`.
pub proof fn lemma_fed_back_is(group: Seq<Station>, start: i64, limit: nat)
    requires
        feedback_within(group, start, limit) is Some,
    ensures
        feeds_back(group, start),
        feedback_within(group, start, limit) == Some(fed_back(group, start)),
{
    let chosen = choose|chosen: nat| feedback_within(group, start, chosen) is Some;
    let (next, reply) = sent(group, 0, start);
    if chosen <= limit {
        lemma_circulated_stable(next, 1, reply, 0, chosen, limit);
    } else {
        lemma_circulated_stable(next, 1, reply, 0, limit, chosen);
    }
}

struct Unit {
    coder: Intcode,
    outbox: Vec<IntResponse>,
}

impl View for Unit {
    type V = Station;

    closed spec fn view(&self) -> Station {
        Station { machine: self.coder@, outbox: self.outbox@ }
    }
}

/// A group of machines that all started from the same program.
pub struct MultiCoder {
    units: Vec<Unit>,
}

impl View for MultiCoder {
    type V = Seq<Station>;

    closed spec fn view(&self) -> Seq<Station> {
        Seq::new(self.units@.len(), |i: int| self.units@[i]@)
    }
}

impl MultiCoder {
    /// Builds `size` machines for `prog`, with nothing said to any of them.
    pub fn new(prog: &Vec<i64>, size: usize) -> (group: MultiCoder)
        requires
            prog.len() + PADDING <= usize::MAX,
        ensures
            group@ == fresh(prog@, size as nat),
    {
        let mut units: Vec<Unit> = Vec::new();
        let mut made: usize = 0;
        while made < size
            invariant
                made <= size,
                units@.len() == made,
                prog.len() + PADDING <= usize::MAX,
                forall|i: int|
                    0 <= i < made ==> (#[trigger] units@[i])@ == (Station {
                        machine: Machine::load(prog@),
                        outbox: Seq::empty(),
                    }),
            decreases size - made,
        {
            let unit = Unit { coder: Intcode::new(prog), outbox: Vec::new() };
            units.push(unit);
            made = made + 1;
        }
        let group = MultiCoder { units };
        assert(group@ =~= fresh(prog@, size as nat));
        group
    }

    /// How many machines the group has.
    pub fn len(&self) -> (n: usize)
        ensures
            n == self@.len(),
    {
        self.units.len()
    }

    /// Hands `input` to machine `comp` and lets it run to its next event,
    /// which joins the machine's queue unless it is the halt.
    fn deliver(&mut self, comp: usize, input: i64)
        requires
            deliverable(old(self)@, comp as int, input),
        ensures
            final(self)@ == delivered(old(self)@, comp as int, input),
    {
        assert(self.units@[comp as int]@ == self@[comp as int]);
        let response = self.units[comp].coder.start(input);
        match response {
            IntResponse::Halt => {},
            _ => {
                self.units[comp].outbox.push(response);
            },
        }
        assert(self@ =~= delivered(old(self)@, comp as int, input));
    }

    /// Hands `input` to machine `comp`, lets it run to its next event and
    /// reads from the machine: the answer is the value of the oldest output
    /// waiting, or -1 if what waits is a request for input or if the machine
    /// halted with nothing waiting.
    ///
    /// The machine must be one that reaches an event once it has the value; a
    /// machine that has halted is not.
    pub fn send(&mut self, comp: usize, input: i64) -> (answer: i64)
        requires
            deliverable(old(self)@, comp as int, input),
        ensures
            (final(self)@, answer) == sent(old(self)@, comp as int, input),
    {
        proof {
            old(self)@[comp as int].machine.supply(input).lemma_run_halt();
        }
        self.deliver(comp, input);
        self.output(comp)
    }

    /// Passes on everything that waits in the queue of `from`: each output
    /// value is handed to machine `to`, which runs to its next event; a value
    /// for a halted machine, and anything that is no output, is dropped.
    ///
    /// The caller owes a queue that runs empty: with `from == to` a machine
    /// can feed itself for ever.
    pub fn connect(&mut self, from: usize, to: usize)
        requires
            from < old(self)@.len(),
            to < old(self)@.len(),
            connects(old(self)@, from as int, to as int),
        ensures
            final(self)@ == connected(old(self)@, from as int, to as int),
    {
        let ghost mut left: nat = choose|limit: nat|
            connected_within(old(self)@, from as int, to as int, limit) is Some;
        proof {
            lemma_connected_is(old(self)@, from as int, to as int, left);
        }
        loop
            invariant
                from < self@.len(),
                to < self@.len(),
                connected_within(self@, from as int, to as int, left) == Some(
                    connected(old(self)@, from as int, to as int),
                ),
            ensures
                self@ == connected(old(self)@, from as int, to as int),
            decreases left,
        {
            assert(self.units@[from as int]@ == self@[from as int]);
            if self.units[from].outbox.len() == 0 {
                break;
            }
            let ghost before = self@;
            let response = self.units[from].outbox.remove(0);
            let ghost rest = self@;
            assert(rest =~= before.update(
                from as int,
                Station {
                    machine: before[from as int].machine,
                    outbox: before[from as int].outbox.drop_first(),
                },
            ));
            assert(self.units@[to as int]@ == self@[to as int]);
            match response {
                IntResponse::Output(value) => {
                    if !self.units[to].coder.halted() {
                        self.deliver(to, value);
                    }
                },
                _ => {},
            }
            proof {
                left = (left - 1) as nat;
            }
        }
    }

    /// Reads from machine `comp`: the oldest waiting event leaves the queue.
    /// The answer is its value if it is an output, and -1 if it is a request
    /// for input, or if nothing waits because the machine has halted.
    ///
    /// Nothing runs while the caller reads, so a machine that has neither an
    /// event waiting nor halted would keep the caller waiting for ever: the
    /// caller owes a machine that is not in that state.
    pub fn output(&mut self, comp: usize) -> (answer: i64)
        requires
            readable(old(self)@, comp as int),
        ensures
            (final(self)@, answer) == taken(old(self)@, comp as int),
    {
        assert(self.units@[comp as int]@ == self@[comp as int]);
        if self.units[comp].outbox.len() == 0 {
            return -1;
        }
        let response = self.units[comp].outbox.remove(0);
        assert(self@ =~= taken(old(self)@, comp as int).0);
        match response {
            IntResponse::Output(value) => value,
            _ => -1,
        }
    }

    /// Sends `start` to machine 0 and carries the answer round the group,
    /// from machine 1 on and from the last machine back to machine 0, for as
    /// long as the answer is positive. Returns the last positive answer that
    /// came back on the way round, or 0 if the first answer was not positive.
    ///
    /// The caller owes a group in which this comes to an end and every
    /// machine that is asked reaches an event.
    pub fn feedback(&mut self, start: i64) -> (result: i64)
        requires
            feeds_back(old(self)@, start),
        ensures
            (final(self)@, result) == fed_back(old(self)@, start),
    {
        let ghost mut left: nat = choose|limit: nat|
            feedback_within(old(self)@, start, limit) is Some;
        proof {
            lemma_fed_back_is(old(self)@, start, left);
        }
        let mut answer = self.send(0, start);
        let mut final_answer: i64 = 0;
        let mut index: usize = 1;
        while answer > 0
            invariant
                circulated_within(self@, index as int, answer, final_answer, left) == Some(
                    fed_back(old(self)@, start),
                ),
            decreases left,
        {
            let size = self.units.len();
            assert(size == self@.len());
            answer = self.send(index, answer);
            if answer > 0 {
                final_answer = answer;
            }
            index = (index + 1) % size;
            proof {
                left = (left - 1) as nat;
            }
        }
        final_answer
    }
}

} // verus!
