//! The decisions of the interactive relay between the invoking terminal and a
//! child process. The caller waits for the next event (a byte of the child's
//! output, the end of that output, a line typed by the user, the child's exit),
//! hands it to [`Relay::step`], and performs the action it gets back.

use vstd::prelude::*;

verus! {

/// The interpreter and its run-a-string flag for the host: `cmd /C` on
/// Windows, `sh -c` elsewhere.
pub fn shell_for(windows: bool) -> (r: (String, String))
    ensures
        windows ==> r.0@ == seq!['c', 'm', 'd'] && r.1@ == seq!['/', 'C'],
        !windows ==> r.0@ == seq!['s', 'h'] && r.1@ == seq!['-', 'c'],
{
    if windows {
        let r = (crate::chars::text_of(&vec!['c', 'm', 'd']), crate::chars::text_of(&vec!['/', 'C']));
        r
    } else {
        let r = (crate::chars::text_of(&vec!['s', 'h']), crate::chars::text_of(&vec!['-', 'c']));
        r
    }
}

/// Where the relay stands.
#[derive(PartialEq, Eq, Structural, Clone, Copy, Debug)]
pub enum RelayPhase {
    /// Bytes and lines are being passed on.
    Relaying,
    /// The child's output has ended; its exit is awaited.
    Draining,
    /// The child's exit status has been reported.
    Done,
}

/// What the caller observed.
pub enum RelayEvent {
    /// One byte of the child's output.
    ChildByte(u8),
    /// The child's output reached its end.
    ChildClosed,
    /// A line read from the user's input, empty at the end of that input.
    InputLine(String),
    /// The child exited with this status.
    ChildExited(i32),
}

/// What the caller is to do next.
pub enum RelayAction {
    /// Write this byte to the user's output and flush it.
    Show(u8),
    /// Write this line to the child's input and flush it.
    Send(String),
    /// Nothing; wait for the next event.
    Idle,
    /// Stop reading and wait for the child to exit.
    AwaitExit,
    /// Return this exit status.
    Finish(i32),
}

/// An event as a mathematical value.
pub enum Event {
    Byte(u8),
    Closed,
    Line(Seq<char>),
    Exited(i32),
}

/// An action as a mathematical value.
pub enum Action {
    Show(u8),
    Send(Seq<char>),
    Idle,
    AwaitExit,
    Finish(i32),
}

impl View for RelayEvent {
    type V = Event;

    open spec fn view(&self) -> Event {
        match self {
            RelayEvent::ChildByte(b) => Event::Byte(*b),
            RelayEvent::ChildClosed => Event::Closed,
            RelayEvent::InputLine(l) => Event::Line(l@),
            RelayEvent::ChildExited(c) => Event::Exited(*c),
        }
    }
}

impl View for RelayAction {
    type V = Action;

    open spec fn view(&self) -> Action {
        match self {
            RelayAction::Show(b) => Action::Show(*b),
            RelayAction::Send(l) => Action::Send(l@),
            RelayAction::Idle => Action::Idle,
            RelayAction::AwaitExit => Action::AwaitExit,
            RelayAction::Finish(c) => Action::Finish(*c),
        }
    }
}

/// One step of the relay: the next phase and the action for an event.
/// While relaying, each byte of output is shown at once and each non-empty
/// line is sent at once; the end of the child's output, and only that, ends
/// the relay; the exit status is then reported once.
pub open spec fn step(p: RelayPhase, e: Event) -> (RelayPhase, Action) {
    match p {
        RelayPhase::Relaying => match e {
            Event::Byte(b) => (RelayPhase::Relaying, Action::Show(b)),
            Event::Line(l) => if l.len() > 0 {
                (RelayPhase::Relaying, Action::Send(l))
            } else {
                (RelayPhase::Relaying, Action::Idle)
            },
            Event::Closed => (RelayPhase::Draining, Action::AwaitExit),
            Event::Exited(_) => (RelayPhase::Relaying, Action::Idle),
        },
        RelayPhase::Draining => match e {
            Event::Exited(c) => (RelayPhase::Done, Action::Finish(c)),
            _ => (RelayPhase::Draining, Action::Idle),
        },
        RelayPhase::Done => (RelayPhase::Done, Action::Idle),
    }
}

/// The phase reached and the actions taken over a sequence of events.
pub open spec fn run(p: RelayPhase, es: Seq<Event>) -> (RelayPhase, Seq<Action>)
    decreases es.len(),
{
    if es.len() == 0 {
        (p, seq![])
    } else {
        let prev = run(p, es.drop_last());
        let next = step(prev.0, es.last());
        (next.0, prev.1.push(next.1))
    }
}

/// The bytes shown to the user, in order.
pub open spec fn shown(acts: Seq<Action>) -> Seq<u8>
    decreases acts.len(),
{
    if acts.len() == 0 {
        seq![]
    } else {
        shown(acts.drop_last()) + match acts.last() {
            Action::Show(b) => seq![b],
            _ => seq![],
        }
    }
}

/// The lines sent to the child, in order.
pub open spec fn sent(acts: Seq<Action>) -> Seq<Seq<char>>
    decreases acts.len(),
{
    if acts.len() == 0 {
        seq![]
    } else {
        sent(acts.drop_last()) + match acts.last() {
            Action::Send(l) => seq![l],
            _ => seq![],
        }
    }
}

/// The exit statuses reported, in order.
pub open spec fn finished(acts: Seq<Action>) -> Seq<i32>
    decreases acts.len(),
{
    if acts.len() == 0 {
        seq![]
    } else {
        finished(acts.drop_last()) + match acts.last() {
            Action::Finish(c) => seq![c],
            _ => seq![],
        }
    }
}

/// The bytes of the child's output among the events, in order.
pub open spec fn output_bytes(es: Seq<Event>) -> Seq<u8>
    decreases es.len(),
{
    if es.len() == 0 {
        seq![]
    } else {
        output_bytes(es.drop_last()) + match es.last() {
            Event::Byte(b) => seq![b],
            _ => seq![],
        }
    }
}

/// The non-empty lines typed by the user among the events, in order.
pub open spec fn typed_lines(es: Seq<Event>) -> Seq<Seq<char>>
    decreases es.len(),
{
    if es.len() == 0 {
        seq![]
    } else {
        typed_lines(es.drop_last()) + match es.last() {
            Event::Line(l) => if l.len() > 0 {
                seq![l]
            } else {
                seq![]
            },
            _ => seq![],
        }
    }
}

/// None of the events is the end of the child's output.
pub open spec fn output_open(es: Seq<Event>) -> bool {
    forall|i: int| 0 <= i < es.len() ==> !((#[trigger] es[i]) is Closed)
}

/// None of the events is the child's exit.
pub open spec fn no_exit(es: Seq<Event>) -> bool {
    forall|i: int| 0 <= i < es.len() ==> !((#[trigger] es[i]) is Exited)
}

proof fn lemma_run_append(p: RelayPhase, a: Seq<Event>, b: Seq<Event>)
    ensures
        run(p, a + b).0 == run(run(p, a).0, b).0,
        run(p, a + b).1 == run(p, a).1 + run(run(p, a).0, b).1,
    decreases b.len(),
{
    if b.len() == 0 {
        assert(a + b =~= a);
        assert(run(p, a).1 + run(run(p, a).0, b).1 =~= run(p, a).1);
    } else {
        assert((a + b).drop_last() =~= a + b.drop_last());
        assert((a + b).last() == b.last());
        lemma_run_append(p, a, b.drop_last());
        assert(run(p, a).1 + run(run(p, a).0, b).1 =~= (run(p, a).1 + run(
            run(p, a).0,
            b.drop_last(),
        ).1).push(run(p, a + b).1.last()));
    }
}

proof fn lemma_finished_append(x: Seq<Action>, y: Seq<Action>)
    ensures
        finished(x + y) == finished(x) + finished(y),
    decreases y.len(),
{
    if y.len() == 0 {
        assert(x + y =~= x);
        assert(finished(x) + finished(y) =~= finished(x));
    } else {
        assert((x + y).drop_last() =~= x + y.drop_last());
        lemma_finished_append(x, y.drop_last());
        assert(finished(x + y) =~= finished(x) + finished(y));
    }
}

/// While the child's output is open, the relay stays open, reports no exit,
/// and passes on every byte of output and every non-empty line of input at
/// once and in the order they came.
pub proof fn lemma_relay_keeps_order(es: Seq<Event>)
    requires
        output_open(es),
    ensures
        run(RelayPhase::Relaying, es).0 == RelayPhase::Relaying,
        shown(run(RelayPhase::Relaying, es).1) == output_bytes(es),
        sent(run(RelayPhase::Relaying, es).1) == typed_lines(es),
        finished(run(RelayPhase::Relaying, es).1) == Seq::<i32>::empty(),
    decreases es.len(),
{
    if es.len() > 0 {
        assert(output_open(es.drop_last())) by {
            assert forall|i: int| 0 <= i < es.drop_last().len() implies !((#[trigger] es.drop_last()[i]) is Closed) by {
                assert(es.drop_last()[i] == es[i]);
            }
        }
        assert(!(es[es.len() - 1] is Closed));
        lemma_relay_keeps_order(es.drop_last());
        let acts = run(RelayPhase::Relaying, es).1;
        assert(acts.drop_last() == run(RelayPhase::Relaying, es.drop_last()).1);
    }
}

proof fn lemma_draining_silent(es: Seq<Event>)
    requires
        no_exit(es),
    ensures
        run(RelayPhase::Draining, es).0 == RelayPhase::Draining,
        finished(run(RelayPhase::Draining, es).1) == Seq::<i32>::empty(),
    decreases es.len(),
{
    if es.len() > 0 {
        assert(no_exit(es.drop_last())) by {
            assert forall|i: int| 0 <= i < es.drop_last().len() implies !((#[trigger] es.drop_last()[i]) is Exited) by {
                assert(es.drop_last()[i] == es[i]);
            }
        }
        assert(!(es[es.len() - 1] is Exited));
        lemma_draining_silent(es.drop_last());
        let acts = run(RelayPhase::Draining, es).1;
        assert(acts.drop_last() == run(RelayPhase::Draining, es.drop_last()).1);
    }
}

proof fn lemma_done_silent(es: Seq<Event>)
    ensures
        run(RelayPhase::Done, es).0 == RelayPhase::Done,
        finished(run(RelayPhase::Done, es).1) == Seq::<i32>::empty(),
    decreases es.len(),
{
    if es.len() > 0 {
        lemma_done_silent(es.drop_last());
        let acts = run(RelayPhase::Done, es).1;
        assert(acts.drop_last() == run(RelayPhase::Done, es.drop_last()).1);
    }
}

/// Once the child's output has ended and the child has exited with status
/// `n`, the relay has reported `n`, exactly once, whatever else happened
/// around those two events.
pub proof fn lemma_exit_reported_once(
    before: Seq<Event>,
    between: Seq<Event>,
    n: i32,
    after: Seq<Event>,
)
    requires
        output_open(before),
        no_exit(between),
    ensures
        run(
            RelayPhase::Relaying,
            before + seq![Event::Closed] + between + seq![Event::Exited(n)] + after,
        ).0 == RelayPhase::Done,
        finished(
            run(
                RelayPhase::Relaying,
                before + seq![Event::Closed] + between + seq![Event::Exited(n)] + after,
            ).1,
        ) == seq![n],
{
    let r = RelayPhase::Relaying;
    let c = seq![Event::Closed];
    let x = seq![Event::Exited(n)];
    lemma_relay_keeps_order(before);
    lemma_draining_silent(between);
    lemma_done_silent(after);
    assert(c.drop_last() =~= Seq::<Event>::empty());
    assert(x.drop_last() =~= Seq::<Event>::empty());
    assert(run(RelayPhase::Relaying, Seq::<Event>::empty()).1 =~= Seq::<Action>::empty());
    assert(run(RelayPhase::Draining, Seq::<Event>::empty()).1 =~= Seq::<Action>::empty());
    assert(run(RelayPhase::Relaying, c).1 =~= seq![Action::AwaitExit]);
    assert(run(RelayPhase::Draining, x).1 =~= seq![Action::Finish(n)]);
    assert(finished(seq![Action::AwaitExit]) =~= Seq::<i32>::empty()) by {
        assert(seq![Action::AwaitExit].drop_last() =~= Seq::<Action>::empty());
        assert(finished(Seq::<Action>::empty()) =~= Seq::<i32>::empty());
        assert(seq![Action::AwaitExit].last() == Action::AwaitExit);
    }
    assert(finished(seq![Action::Finish(n)]) =~= seq![n]) by {
        assert(seq![Action::Finish(n)].drop_last() =~= Seq::<Action>::empty());
        assert(finished(Seq::<Action>::empty()) =~= Seq::<i32>::empty());
        assert(seq![Action::Finish(n)].last() == Action::Finish(n));
    }
    lemma_run_append(r, before, c);
    lemma_run_append(r, before + c, between);
    lemma_run_append(r, before + c + between, x);
    lemma_run_append(r, before + c + between + x, after);
    let a1 = run(r, before).1;
    let a2 = run(RelayPhase::Relaying, c).1;
    let a3 = run(RelayPhase::Draining, between).1;
    let a4 = run(RelayPhase::Draining, x).1;
    let a5 = run(RelayPhase::Done, after).1;
    lemma_finished_append(a1, a2);
    lemma_finished_append(a1 + a2, a3);
    lemma_finished_append(a1 + a2 + a3, a4);
    lemma_finished_append(a1 + a2 + a3 + a4, a5);
    assert(finished(a1 + a2 + a3 + a4 + a5) =~= seq![n]);
}

/// The state of one relay.
pub struct Relay {
    pub phase: RelayPhase,
}

impl Relay {
    /// A relay that has just started.
    pub fn new() -> (r: Relay)
        ensures
            r.phase == RelayPhase::Relaying,
    {
        Relay { phase: RelayPhase::Relaying }
    }

    /// Whether the relay has reported the exit status.
    pub fn is_done(&self) -> (r: bool)
        ensures
            r == (self.phase == RelayPhase::Done),
    {
        self.phase == RelayPhase::Done
    }

    /// Takes one event and says what to do about it.
    pub fn step(&mut self, e: RelayEvent) -> (a: RelayAction)
        ensures
            (final(self).phase, a@) == step(old(self).phase, e@),
    {
        match self.phase {
            RelayPhase::Relaying => match e {
                RelayEvent::ChildByte(b) => RelayAction::Show(b),
                RelayEvent::InputLine(l) => {
                    if !l.as_str().is_empty() {
                        RelayAction::Send(l)
                    } else {
                        RelayAction::Idle
                    }
                },
                RelayEvent::ChildClosed => {
                    self.phase = RelayPhase::Draining;
                    RelayAction::AwaitExit
                },
                RelayEvent::ChildExited(_) => RelayAction::Idle,
            },
            RelayPhase::Draining => match e {
                RelayEvent::ChildExited(c) => {
                    self.phase = RelayPhase::Done;
                    RelayAction::Finish(c)
                },
                _ => RelayAction::Idle,
            },
            RelayPhase::Done => RelayAction::Idle,
        }
    }
}

} // verus!
