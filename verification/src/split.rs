//! Sending updated and inserted rows to the writer over two channels.
//!
//! The writer reads the channel of updates to its end and then that of inserts,
//! so every updated row is written before any inserted one. This module decides
//! what to send where; the sending itself is done by whoever runs it.

use vstd::prelude::*;

verus! {

/// What happened last.
#[derive(Clone, Copy, Debug, PartialEq, Eq, Structural)]
pub enum SplitEvent {
    /// There is no further batch.
    InputEnded,
    /// A batch could not be read or processed.
    InputFailed,
    /// A batch was processed, and has updated rows, inserted rows, both or
    /// neither.
    BatchReady { updates: bool, inserts: bool },
    /// Something was sent, and the receiver took it or was gone.
    Sent { taken: bool },
}

/// What to do next.
#[derive(Clone, Copy, Debug, PartialEq, Eq, Structural)]
pub enum SplitCommand {
    /// Read and process the next batch.
    NextBatch,
    /// Send the updated rows of the batch.
    SendUpdates,
    /// Send the inserted rows of the batch.
    SendInserts,
    /// Send the error over the channel of updates.
    SendErrorToUpdates,
    /// Send the error over the channel of inserts.
    SendErrorToInserts,
    /// Nothing more.
    Stop,
}

/// What is awaited.
#[derive(Clone, Copy, Debug, PartialEq, Eq, Structural)]
pub enum SplitState {
    /// A batch.
    Reading,
    /// That the updates are sent; the batch has inserts too, or not.
    SendingUpdates { inserts: bool },
    /// That the inserts are sent.
    SendingInserts,
    /// That the error is sent over the channel of updates.
    ReportingToUpdates,
    /// That the error is sent over the channel of inserts.
    ReportingToInserts,
    /// Nothing.
    Stopped,
}

impl SplitState {
    /// The event is one that is awaited.
    pub open spec fn awaits(self, event: SplitEvent) -> bool {
        match self {
            SplitState::Reading => !(event is Sent),
            SplitState::Stopped => false,
            _ => event is Sent,
        }
    }

    /// What follows an event.
    pub open spec fn after(self, event: SplitEvent) -> (SplitState, SplitCommand) {
        match (self, event) {
            (SplitState::Reading, SplitEvent::InputFailed) => (
                SplitState::ReportingToUpdates,
                SplitCommand::SendErrorToUpdates,
            ),
            (SplitState::Reading, SplitEvent::BatchReady { updates, inserts }) => if updates {
                (SplitState::SendingUpdates { inserts }, SplitCommand::SendUpdates)
            } else if inserts {
                (SplitState::SendingInserts, SplitCommand::SendInserts)
            } else {
                (SplitState::Reading, SplitCommand::NextBatch)
            },
            (SplitState::SendingUpdates { inserts }, SplitEvent::Sent { taken: true }) =>
            if inserts {
                (SplitState::SendingInserts, SplitCommand::SendInserts)
            } else {
                (SplitState::Reading, SplitCommand::NextBatch)
            },
            (SplitState::SendingInserts, SplitEvent::Sent { taken: true }) => (
                SplitState::Reading,
                SplitCommand::NextBatch,
            ),
            (SplitState::ReportingToUpdates, SplitEvent::Sent { taken: false }) => (
                SplitState::ReportingToInserts,
                SplitCommand::SendErrorToInserts,
            ),
            _ => (SplitState::Stopped, SplitCommand::Stop),
        }
    }

    /// Takes note of an event and says what to do next.
    pub fn step(&mut self, event: SplitEvent) -> (r: SplitCommand)
        requires
            old(self).awaits(event),
        ensures
            (*final(self), r) == old(self).after(event),
    {
        let (next, command): (SplitState, SplitCommand) = match (*self, event) {
            (SplitState::Reading, SplitEvent::InputFailed) => (
                SplitState::ReportingToUpdates,
                SplitCommand::SendErrorToUpdates,
            ),
            (SplitState::Reading, SplitEvent::BatchReady { updates, inserts }) => {
                if updates {
                    (SplitState::SendingUpdates { inserts }, SplitCommand::SendUpdates)
                } else if inserts {
                    (SplitState::SendingInserts, SplitCommand::SendInserts)
                } else {
                    (SplitState::Reading, SplitCommand::NextBatch)
                }
            },
            (SplitState::SendingUpdates { inserts }, SplitEvent::Sent { taken: true }) => {
                if inserts {
                    (SplitState::SendingInserts, SplitCommand::SendInserts)
                } else {
                    (SplitState::Reading, SplitCommand::NextBatch)
                }
            },
            (SplitState::SendingInserts, SplitEvent::Sent { taken: true }) => (
                SplitState::Reading,
                SplitCommand::NextBatch,
            ),
            // It does not matter which channel takes the error, as long as one
            // does.
            (SplitState::ReportingToUpdates, SplitEvent::Sent { taken: false }) => (
                SplitState::ReportingToInserts,
                SplitCommand::SendErrorToInserts,
            ),
            _ => (SplitState::Stopped, SplitCommand::Stop),
        };
        *self = next;
        command
    }
}

/// The events are awaited, one after the other.
pub open spec fn plays(s: SplitState, events: Seq<SplitEvent>) -> bool
    decreases events.len(),
{
    events.len() == 0 || (plays(s, events.drop_last()) && end_state(
        s,
        events.drop_last(),
    ).awaits(events.last()))
}

/// Where a sequence of events leads.
pub open spec fn end_state(s: SplitState, events: Seq<SplitEvent>) -> SplitState
    decreases events.len(),
{
    if events.len() == 0 {
        s
    } else {
        end_state(s, events.drop_last()).after(events.last()).0
    }
}

/// What is done in answer to a sequence of events.
pub open spec fn commands(s: SplitState, events: Seq<SplitEvent>) -> Seq<SplitCommand>
    decreases events.len(),
{
    if events.len() == 0 {
        Seq::empty()
    } else {
        commands(s, events.drop_last()).push(
            end_state(s, events.drop_last()).after(events.last()).1,
        )
    }
}

/// The number of batches with updated rows.
pub open spec fn update_batches(events: Seq<SplitEvent>) -> nat {
    events.filter(|e: SplitEvent| e matches SplitEvent::BatchReady { updates: true, .. }).len()
}

/// The number of batches with inserted rows.
pub open spec fn insert_batches(events: Seq<SplitEvent>) -> nat {
    events.filter(|e: SplitEvent| e matches SplitEvent::BatchReady { inserts: true, .. }).len()
}

/// How often a command was given.
pub open spec fn times(given: Seq<SplitCommand>, command: SplitCommand) -> nat {
    given.filter(|c: SplitCommand| c == command).len()
}

/// The updated rows of every batch are sent. The inserted rows of every batch
/// are sent too, once its updated rows were taken, unless the receiver of one
/// or the other is gone: whenever the next batch is awaited, everything of the
/// batches so far has been sent.
pub proof fn law_every_batch_is_sent(events: Seq<SplitEvent>)
    requires
        plays(SplitState::Reading, events),
    ensures
        times(commands(SplitState::Reading, events), SplitCommand::SendUpdates) == update_batches(
            events,
        ),
        end_state(SplitState::Reading, events) is Reading ==> times(
            commands(SplitState::Reading, events),
            SplitCommand::SendInserts,
        ) == insert_batches(events),
{
    lemma_sent(events);
}

/// What has been sent in each state.
proof fn lemma_sent(events: Seq<SplitEvent>)
    requires
        plays(SplitState::Reading, events),
    ensures
        times(commands(SplitState::Reading, events), SplitCommand::SendUpdates) == update_batches(
            events,
        ),
        ({
            let sent = times(commands(SplitState::Reading, events), SplitCommand::SendInserts);
            match end_state(SplitState::Reading, events) {
                SplitState::SendingUpdates { inserts: true } => sent + 1 == insert_batches(events),
                SplitState::Stopped => sent <= insert_batches(events) <= sent + 1,
                _ => sent == insert_batches(events),
            }
        }),
    decreases events.len(),
{
    reveal(Seq::filter);
    if events.len() > 0 {
        let front = events.drop_last();
        let given = commands(SplitState::Reading, events);
        lemma_sent(front);
        assert(given.drop_last() =~= commands(SplitState::Reading, front));
        assert(given.last() == end_state(SplitState::Reading, front).after(events.last()).1);
    }
}

/// An error ends the sending. It is first offered to the receiver of updates,
/// and to the receiver of inserts if and only if that one is gone; no further
/// batch is read.
pub proof fn law_error_ends_the_stream(before: Seq<SplitEvent>, rest: Seq<SplitEvent>)
    requires
        plays(SplitState::Reading, before),
        end_state(SplitState::Reading, before) is Reading,
        plays(SplitState::Reading, before.push(SplitEvent::InputFailed) + rest),
    ensures
        ({
            let events = before.push(SplitEvent::InputFailed) + rest;
            let given = commands(SplitState::Reading, events).skip(before.len() as int);
            &&& rest.len() <= 2
            &&& given[0] == SplitCommand::SendErrorToUpdates
            &&& rest.len() >= 1 ==> given[1] == (if rest[0] == (SplitEvent::Sent { taken: true }) {
                SplitCommand::Stop
            } else {
                SplitCommand::SendErrorToInserts
            })
            &&& rest.len() == 2 ==> {
                &&& rest[0] == (SplitEvent::Sent { taken: false })
                &&& given[2] == SplitCommand::Stop
            }
        }),
{
    let start = SplitState::Reading;
    let failed = before.push(SplitEvent::InputFailed);
    let events = failed + rest;
    let n: int = failed.len() as int;
    assert(failed.drop_last() =~= before);
    lemma_prefix_plays(events, n);
    assert(events.take(n) =~= failed);
    lemma_commands_prefix(events, n);
    lemma_commands_len(events);
    assert(end_state(start, failed) == SplitState::ReportingToUpdates);
    assert(commands(start, failed).last() == SplitCommand::SendErrorToUpdates);
    assert(commands(start, events)[before.len() as int] == SplitCommand::SendErrorToUpdates) by {
        lemma_commands_len(failed);
    }
    if rest.len() >= 1 {
        let one = failed.push(rest[0]);
        assert(events.take(n + 1) =~= one);
        assert(one.drop_last() =~= failed);
        lemma_prefix_plays(events, n + 1);
        lemma_commands_prefix(events, n + 1);
        lemma_commands_len(one);
        assert(commands(start, one)[n] == commands(start, one).last());
        if rest.len() >= 2 {
            let two = one.push(rest[1]);
            assert(events.take(n + 2) =~= two);
            assert(two.drop_last() =~= one);
            lemma_prefix_plays(events, n + 2);
            lemma_commands_prefix(events, n + 2);
            lemma_commands_len(two);
            assert(commands(start, two)[n + 1] == commands(start, two).last());
            assert(end_state(start, two) is Stopped);
            if rest.len() >= 3 {
                let three = two.push(rest[2]);
                assert(events.take(n + 3) =~= three);
                assert(three.drop_last() =~= two);
                lemma_prefix_plays(events, n + 3);
                assert(false);
            }
        }
    }
}

/// What is awaited event by event is awaited from the start.
proof fn lemma_prefix_plays(events: Seq<SplitEvent>, n: int)
    requires
        plays(SplitState::Reading, events),
        0 <= n <= events.len(),
    ensures
        plays(SplitState::Reading, events.take(n)),
    decreases events.len(),
{
    if n < events.len() {
        assert(events.drop_last().take(n) =~= events.take(n));
        lemma_prefix_plays(events.drop_last(), n);
    } else {
        assert(events.take(n) =~= events);
    }
}

/// There is one command per event.
proof fn lemma_commands_len(events: Seq<SplitEvent>)
    ensures
        commands(SplitState::Reading, events).len() == events.len(),
    decreases events.len(),
{
    if events.len() > 0 {
        lemma_commands_len(events.drop_last());
    }
}

/// Later events change nothing about earlier commands.
proof fn lemma_commands_prefix(events: Seq<SplitEvent>, n: int)
    requires
        0 <= n <= events.len(),
    ensures
        commands(SplitState::Reading, events).take(n) == commands(
            SplitState::Reading,
            events.take(n),
        ),
    decreases events.len(),
{
    lemma_commands_len(events);
    if n < events.len() {
        assert(events.drop_last().take(n) =~= events.take(n));
        lemma_commands_len(events.drop_last());
        lemma_commands_prefix(events.drop_last(), n);
        assert(commands(SplitState::Reading, events).take(n) =~= commands(
            SplitState::Reading,
            events.drop_last(),
        ).take(n));
    } else {
        assert(events.take(n) =~= events);
        assert(commands(SplitState::Reading, events).take(n) =~= commands(
            SplitState::Reading,
            events,
        ));
    }
}

/// The updated rows of a batch go before its inserted rows, and both before the next
/// batch; a batch with neither is passed over. Once a receiver is gone, or the input
/// has ended, nothing more is sent. An error goes to the channel of updates, and to
/// that of inserts if nobody is there.
pub proof fn law_updates_go_first(updates: bool, inserts: bool)
    ensures
        ({
            let ready = SplitEvent::BatchReady { updates, inserts };
            let taken = SplitEvent::Sent { taken: true };
            let gone = SplitEvent::Sent { taken: false };
            let next = SplitState::Reading.after(ready);
            // A batch.
            &&& updates ==> next.1 is SendUpdates && next.0.after(gone).1 is Stop
                && next.0.after(gone).0 is Stopped
            &&& updates && inserts ==> {
                let later = next.0.after(taken);
                &&& later.1 is SendInserts
                &&& later.0.after(taken) == (SplitState::Reading, SplitCommand::NextBatch)
                &&& later.0.after(gone) == (SplitState::Stopped, SplitCommand::Stop)
            }
            &&& updates && !inserts ==> next.0.after(taken) == (
                SplitState::Reading,
                SplitCommand::NextBatch,
            )
            &&& !updates && inserts ==> {
                &&& next.1 is SendInserts
                &&& next.0.after(taken) == (SplitState::Reading, SplitCommand::NextBatch)
                &&& next.0.after(gone) == (SplitState::Stopped, SplitCommand::Stop)
            }
            &&& !updates && !inserts ==> next == (SplitState::Reading, SplitCommand::NextBatch)
            // The end.
            &&& SplitState::Reading.after(SplitEvent::InputEnded) == (
                SplitState::Stopped,
                SplitCommand::Stop,
            )
            // An error.
            &&& {
                let failed = SplitState::Reading.after(SplitEvent::InputFailed);
                let again = failed.0.after(gone);
                &&& failed.1 is SendErrorToUpdates
                &&& failed.0.after(taken) == (SplitState::Stopped, SplitCommand::Stop)
                &&& again.1 is SendErrorToInserts
                &&& again.0.after(taken) == (SplitState::Stopped, SplitCommand::Stop)
                &&& again.0.after(gone) == (SplitState::Stopped, SplitCommand::Stop)
            }
        }),
{
}

/// While a batch is awaited, a batch, the end of the input and its failure can come;
/// while something is being sent, only what becomes of it; and nothing once stopped.
pub proof fn law_every_event_has_its_time(s: SplitState, event: SplitEvent)
    ensures
        s is Reading && !(event is Sent) ==> s.awaits(event),
        s is Reading && event is Sent ==> !s.awaits(event),
        s is Stopped ==> !s.awaits(event),
        !(s is Reading) && !(s is Stopped) ==> (s.awaits(event) <==> event is Sent),
{
}

} // verus!
