//! What a run through the news of the transport owes: everything that waits for its turn gets it.

use vstd::prelude::*;

use crate::action::{plan, ActionView, Fault, LogLevel};
use crate::channel::Incoming;
use crate::frame::contents;
use crate::message::MessageView;
use crate::notify::unfinished;
use crate::state::Oxy;
use crate::transport::{TransportEvent, TransportNext, TransportTurn};

verus! {

/// One step through the news of the transport.
pub struct Step {
    pub before: Oxy,
    pub event: TransportEvent,
    pub turn: TransportTurn,
    pub after: Oxy,
}

impl Step {
    /// Whether the step took place and the program went on.
    pub open spec fn went_on(self) -> bool {
        &&& self.before.took(self.event, self.turn, self.after)
        &&& forall|i: int|
            0 <= i < self.turn.actions@.len() ==> !(#[trigger] self.turn.actions@[i]@ is Stop)
    }

    /// Whether the step takes in what the peer has sent.
    pub open spec fn receives(self) -> bool {
        ||| self.event is Notified
        ||| self.event is Chunk
        ||| self.event is Unreadable
        ||| self.event is Handled
    }
}

/// Whether an event is an answer to what was wanted.
pub open spec fn answers(next: TransportNext, event: TransportEvent) -> bool {
    match next {
        TransportNext::TakeChunk => event is Chunk,
        TransportNext::Handle { message_number, .. } => {
            ||| event == (TransportEvent::Unreadable { message_number })
            ||| event matches TransportEvent::Handled { message_number: n, .. } && n
                == message_number
        },
        TransportNext::ReadFiles => event is Files,
        TransportNext::LookAtStdin => event is Stdin,
        TransportNext::TakeStdin { amount } => event matches TransportEvent::StdinTaken {
            input,
            ..
        } && input@.len() == amount,
        TransportNext::RunHooks { hooks } => event matches TransportEvent::HooksRun {
            hooks: run,
            ..
        } && run@ == hooks@,
        TransportNext::Rest => false,
    }
}

/// A run through the news of a transport that is not closed, to its end, in which the program goes
/// on. What happens to the session between two steps is left open.
pub open spec fn full_run(run: Seq<Step>) -> bool {
    &&& run.len() > 0
    &&& run[0].event == (TransportEvent::Notified { closed: false })
    &&& forall|i: int| 0 <= i < run.len() ==> (#[trigger] run[i]).went_on()
    &&& forall|i: int|
        #![trigger run[i]]
        0 <= i < run.len() - 1 ==> answers(run[i].turn.next, run[i + 1].event)
    &&& run.last().turn.next == TransportNext::Rest
}

/// While messages are taken in, the run does not come to rest, and goes over to the files only
/// when no chunk is left.
proof fn lemma_receiving_goes_on(step: Step)
    requires
        step.went_on(),
        step.receives(),
        step.event is Notified ==> step.event == (TransportEvent::Notified { closed: false }),
    ensures
        ({
            ||| step.turn.next == TransportNext::TakeChunk
            ||| step.turn.next is Handle
            ||| step.turn.next == TransportNext::ReadFiles && step.event == TransportEvent::Chunk(
                None,
            )
        }),
{
    let actions = plan(step.turn.actions@);
    assert(actions.len() == step.turn.actions@.len());
    if let TransportEvent::Chunk(Some(chunk)) = step.event {
        if step.turn.next == TransportNext::Rest {
            let fault = choose|fault: Fault|
                actions == seq![ActionView::Stop(fault)] && #[trigger] step.before.received(
                    chunk@,
                    Incoming::Failed(fault),
                    step.after,
                );
            assert(actions[0] == ActionView::Stop(fault));
            assert(step.turn.actions@[0]@ == actions[0]);
        }
    }
}

/// Up to the first look at the files, all steps take in messages.
proof fn lemma_receiving_first(run: Seq<Step>, n: int)
    requires
        full_run(run),
        0 <= n < run.len(),
        forall|i: int| 0 <= i <= n ==> !((#[trigger] run[i]).event is Files),
    ensures
        run[n].receives(),
        n > 0 ==> !(run[n].event is Notified),
    decreases n,
{
    if n > 0 {
        lemma_receiving_first(run, n - 1);
        assert(run[n - 1].went_on());
        lemma_receiving_goes_on(run[n - 1]);
        assert(answers(run[n - 1].turn.next, run[n].event));
    }
}

/// Every run looks at the files.
proof fn lemma_files_get_a_look(run: Seq<Step>) -> (at: int)
    requires
        full_run(run),
    ensures
        0 < at < run.len(),
        run[at].event is Files,
        forall|i: int| 0 <= i < at ==> !((#[trigger] run[i]).event is Files),
{
    if forall|i: int| 0 <= i < run.len() ==> !((#[trigger] run[i]).event is Files) {
        let last = run.len() - 1;
        lemma_receiving_first(run, last);
        assert(run[last].went_on());
        lemma_receiving_goes_on(run[last]);
        assert(run.last() == run[last]);
        assert(false);
    }
    let some = choose|i: int| 0 <= i < run.len() && (#[trigger] run[i]).event is Files;
    lemma_first_look(run, some)
}

/// The first look at the files.
proof fn lemma_first_look(run: Seq<Step>, some: int) -> (at: int)
    requires
        full_run(run),
        0 <= some < run.len(),
        run[some].event is Files,
    ensures
        0 < at <= some,
        run[at].event is Files,
        forall|i: int| 0 <= i < at ==> !((#[trigger] run[i]).event is Files),
    decreases some,
{
    if exists|i: int| 0 <= i < some && (#[trigger] run[i]).event is Files {
        let earlier = choose|i: int| 0 <= i < some && (#[trigger] run[i]).event is Files;
        lemma_first_look(run, earlier)
    } else {
        some
    }
}

/// A run through the news of the transport leaves nothing out, whatever the state: all chunks that
/// are there are taken in, until there is none; then the files get one look, standard input gets
/// one, and all send hooks of that moment are run, once, and their answers taken. `at` is where the
/// files get theirs.
pub proof fn law_everything_gets_its_turn(run: Seq<Step>) -> (at: int)
    requires
        full_run(run),
    ensures
        1 < at < run.len() - 2,
        forall|i: int| 0 <= i < at ==> (#[trigger] run[i]).receives(),
        run[at - 1].event == TransportEvent::Chunk(None),
        run[at].event is Files,
        run[at + 1].event is Stdin,
        run[run.len() - 1].event is HooksRun,
        ({
            let asked = run[run.len() - 2];
            &&& asked.turn.next is RunHooks
            &&& asked.turn.next->RunHooks_hooks@ == asked.before.send_hooks@
            &&& run[run.len() - 1].event->HooksRun_hooks@ == asked.before.send_hooks@
        }),
        run[at + 2].event is HooksRun ==> run.len() == at + 3,
        !(run[at + 2].event is HooksRun) ==> run[at + 2].event is StdinTaken && run.len() == at
            + 4,
{
    let at = lemma_files_get_a_look(run);
    assert forall|i: int| 0 <= i < at implies (#[trigger] run[i]).receives() by {
        lemma_receiving_first(run, i);
    }
    lemma_receiving_first(run, at - 1);
    assert(run[at - 1].went_on());
    lemma_receiving_goes_on(run[at - 1]);
    assert(answers(run[at - 1].turn.next, run[at].event));
    assert(run[at].went_on());
    assert(run.last() == run[run.len() - 1]);
    assert(answers(run[at].turn.next, run[at + 1].event));
    assert(run[at + 1].went_on());
    assert(answers(run[at + 1].turn.next, run[at + 2].event));
    assert(run[at + 2].went_on());
    if run[at + 2].event is StdinTaken {
        assert(answers(run[at + 2].turn.next, run[at + 3].event));
        assert(run[at + 3].went_on());
        if run.len() > at + 4 {
            assert(answers(run[at + 3].turn.next, run[at + 4].event));
        }
    } else if run.len() > at + 3 {
        assert(answers(run[at + 2].turn.next, run[at + 3].event));
    }
    at
}

/// A message that comes out of a chunk is handed over to be handled, under its number; a fault
/// stops the program, and nothing more is wanted; anything else asks for the next chunk. Nothing
/// else is done.
pub proof fn law_messages_are_handed_over(step: Step, chunk: Vec<u8>)
    requires
        step.before.took(step.event, step.turn, step.after),
        step.event == TransportEvent::Chunk(Some(chunk)),
    ensures
        match step.turn.next {
            TransportNext::Handle { bytes, message_number } => step.turn.actions@.len() == 0
                && step.before.received(
                chunk@,
                (Incoming::Message { bytes, message_number }),
                step.after,
            ),
            TransportNext::TakeChunk => step.turn.actions@.len() == 0 && step.before.received(
                chunk@,
                Incoming::Incomplete,
                step.after,
            ),
            TransportNext::Rest => {
                &&& step.turn.actions@.len() == 1
                &&& step.turn.actions@[0]@ matches ActionView::Stop(fault)
                &&& step.before.received(chunk@, Incoming::Failed(fault), step.after)
            },
            _ => false,
        },
{
    let actions = plan(step.turn.actions@);
    assert(actions.len() == step.turn.actions@.len());
    if step.turn.next == TransportNext::Rest {
        let fault = choose|fault: Fault|
            actions == seq![ActionView::Stop(fault)] && #[trigger] step.before.received(
                chunk@,
                Incoming::Failed(fault),
                step.after,
            );
        assert(step.turn.actions@[0]@ == actions[0]);
    }
}

/// Whether an action rejects the message with this number, with this note.
pub open spec fn rejects(action: ActionView, message_number: u64, note: Seq<char>) -> bool {
    action matches ActionView::Send(message) && message matches MessageView::Reject {
        reference,
        note: text,
    } && reference == message_number && text == note
}

/// A message that cannot be read, or that is refused, is answered with one rejection of its number
/// and nothing else; one that was handled is not answered here; and in each case the next chunk is
/// wanted and the session stays as it is.
pub proof fn law_refused_messages_are_answered(step: Step)
    requires
        step.before.took(step.event, step.turn, step.after),
        step.event is Unreadable || step.event is Handled,
    ensures
        ({
            let actions = step.turn.actions@;
            &&& step.turn.next == TransportNext::TakeChunk
            &&& step.after == step.before
            &&& step.event matches TransportEvent::Unreadable { message_number } ==> actions.len()
                == 1 && rejects(actions[0]@, message_number, "Invalid message"@)
            &&& step.event matches TransportEvent::Handled {
                message_number,
                refusal: Some(note),
            } ==> actions.len() == 1 && rejects(actions[0]@, message_number, note@)
            &&& step.event matches TransportEvent::Handled { refusal: None, .. } ==> actions.len()
                == 0
        }),
{
    let actions = plan(step.turn.actions@);
    assert(actions.len() == step.turn.actions@.len());
    if actions.len() > 0 {
        assert(step.turn.actions@[0]@ == actions[0]);
    }
}

/// A closed transport is told of in the log and ends the program, and nothing more is wanted; one
/// that is not closed asks for the first chunk, and nothing else is done.
pub proof fn law_lost_connection_ends_the_program(step: Step, closed: bool)
    requires
        step.before.took(step.event, step.turn, step.after),
        step.event == (TransportEvent::Notified { closed }),
    ensures
        step.after == step.before,
        !closed ==> step.turn.actions@.len() == 0 && step.turn.next == TransportNext::TakeChunk,
        closed ==> {
            let actions = step.turn.actions@;
            &&& step.turn.next == TransportNext::Rest
            &&& actions.len() == 3
            &&& actions[0]@ == ActionView::BreakLine
            &&& actions[1]@ matches ActionView::Log { level, to_ui, message } && level
                == LogLevel::Info && to_ui == step.before.ui && message
                == "Connection loss detected."@
            &&& actions[2]@ == ActionView::Stop(Fault::ConnectionLost)
        },
{
    let actions = plan(step.turn.actions@);
    assert(actions.len() == step.turn.actions@.len());
    if closed {
        assert(step.turn.actions@[0]@ == actions[0]);
        assert(step.turn.actions@[1]@ == actions[1]);
        assert(step.turn.actions@[2]@ == actions[2]);
    }
}

/// A look at the files is a round with all of them, with what was read of each, if the transport
/// has room; then standard input is looked at.
pub proof fn law_files_get_their_round(
    step: Step,
    space: bool,
    reads: Vec<Vec<u8>>,
    data: Seq<Seq<u8>>,
)
    requires
        step.before.took(step.event, step.turn, step.after),
        step.event == (TransportEvent::Files { has_write_space: space, reads }),
        data.len() == reads@.len(),
        forall|i: int| 0 <= i < data.len() ==> #[trigger] data[i] == reads@[i]@,
    ensures
        step.turn.next == TransportNext::LookAtStdin,
        step.before.serviced(space, data, plan(step.turn.actions@), step.after),
        forall|i: int|
            0 <= i < step.turn.actions@.len() ==> plan(step.turn.actions@)[i] == (
            #[trigger] step.turn.actions@[i])@,
        plan(step.turn.actions@).len() == step.turn.actions@.len(),
{
    assert(data =~= contents(reads@));
}

/// News can come at any time, whatever the state: only a frame needs a session and a number for
/// what it may bring, and only what was taken from standard input needs a command that it goes to.
/// The answers of hooks come for hooks that are in the list, one for each.
pub proof fn law_news_can_come_at_any_time(oxy: Oxy, event: TransportEvent)
    ensures
        event is Notified || event is Unreadable || event is Handled || event is Stdin || event
            == TransportEvent::Chunk(None) ==> oxy.can_take(event),
        event is Chunk && event->Chunk_0 is Some && oxy.noise_session is Some && oxy.incoming_ticker
            < u64::MAX ==> oxy.can_take(event),
        event is StdinTaken && oxy.pipecmd_reference is Some ==> oxy.can_take(event),
        event is Files && !event->Files_has_write_space ==> oxy.can_take(event),
        event matches TransportEvent::HooksRun { hooks, done } && done@.len() == hooks@.len()
            && hooks@.len() <= oxy.send_hooks@.len() ==> oxy.can_take(event),
{
}

/// The place that a hook keeps: how many hooks before it are not done.
pub open spec fn kept_before(done: Seq<bool>, i: int) -> nat
    decreases i,
{
    if i <= 0 {
        0
    } else {
        kept_before(done, i - 1) + (if done[i - 1] {
            0nat
        } else {
            1
        })
    }
}

/// Whether the `i`-th hook stands where the hooks before it that are not done leave it.
pub open spec fn keeps_its_place(
    hooks: Seq<u64>,
    done: Seq<bool>,
    after: Seq<u64>,
    i: int,
) -> bool {
    &&& kept_before(done, i) < kept_before(done, hooks.len() as int)
    &&& after[kept_before(done, i) as int] == hooks[i]
}

/// The answers of the hooks that were run are taken: exactly those that are not done stay, each in
/// the place that is left to it, and behind them, in their order, the hooks that have come to stand
/// behind as many as were run. Nothing else of the session changes.
pub proof fn law_answers_of_hooks_are_taken(step: Step, hooks: Vec<u64>, done: Vec<bool>)
    requires
        step.before.can_take(step.event),
        step.before.took(step.event, step.turn, step.after),
        step.event == (TransportEvent::HooksRun { hooks, done }),
    ensures
        ({
            let n = hooks@.len() as int;
            let kept = kept_before(done@, n) as int;
            let before = step.before.send_hooks@;
            let after = step.after.send_hooks@;
            &&& step.turn.actions@.len() == 0
            &&& step.turn.next == TransportNext::Rest
            &&& after.len() == kept + before.len() - n
            &&& forall|i: int|
                0 <= i < n && !done@[i] ==> #[trigger] keeps_its_place(hooks@, done@, after, i)
            &&& forall|j: int| n <= j < before.len() ==> after[kept + j - n] == #[trigger] before[j]
            &&& step.after == (Oxy { send_hooks: step.after.send_hooks, ..step.before })
        }),
{
    let n = hooks@.len() as int;
    let before = step.before.send_hooks@;
    let after = step.after.send_hooks@;
    let kept = unfinished(hooks@, done@);
    assert(plan(step.turn.actions@).len() == step.turn.actions@.len());
    lemma_kept_count(hooks@, done@);
    assert forall|i: int| 0 <= i < n && !done@[i] implies #[trigger] keeps_its_place(
        hooks@,
        done@,
        after,
        i,
    ) by {
        lemma_kept_at(hooks@, done@, i);
    }
    let count = kept_before(done@, n) as int;
    assert forall|j: int| n <= j < before.len() implies after[count + j - n]
        == #[trigger] before[j] by {
        assert(before.skip(n)[j - n] == before[j]);
    }
}

/// How many hooks are not done.
proof fn lemma_kept_count(hooks: Seq<u64>, done: Seq<bool>)
    requires
        done.len() == hooks.len(),
    ensures
        unfinished(hooks, done).len() == kept_before(done, hooks.len() as int),
    decreases hooks.len(),
{
    if hooks.len() > 0 {
        lemma_kept_count(hooks.drop_last(), done.drop_last());
        lemma_kept_before_prefix(done, hooks.len() - 1);
    }
}

/// Where a hook that is not done ends up.
proof fn lemma_kept_at(hooks: Seq<u64>, done: Seq<bool>, i: int)
    requires
        done.len() == hooks.len(),
        0 <= i < hooks.len(),
        !done[i],
    ensures
        kept_before(done, i) < unfinished(hooks, done).len(),
        unfinished(hooks, done)[kept_before(done, i) as int] == hooks[i],
    decreases hooks.len(),
{
    let last = hooks.len() - 1;
    lemma_kept_before_prefix(done, i);
    if i < last {
        assert(hooks.drop_last()[i] == hooks[i] && done.drop_last()[i] == done[i]);
        lemma_kept_at(hooks.drop_last(), done.drop_last(), i);
    } else {
        lemma_kept_count(hooks.drop_last(), done.drop_last());
    }
}

/// The place of a hook does not depend on what comes after it.
proof fn lemma_kept_before_prefix(done: Seq<bool>, i: int)
    requires
        0 <= i < done.len(),
    ensures
        kept_before(done.drop_last(), i) == kept_before(done, i),
    decreases i,
{
    if i > 0 {
        lemma_kept_before_prefix(done, i - 1);
        assert(done.drop_last()[i - 1] == done[i - 1]);
    }
}

} // verus!
