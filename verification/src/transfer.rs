//! Files on their way to the peer.

use vstd::prelude::*;
use vstd::slice::{slice_subrange, slice_to_vec};

use crate::action::{group_plan, plan, Action, ActionView, LogLevel};
use crate::frame::contents;
use crate::message::{MessageView, OxyMessage};
use crate::state::Oxy;
use crate::words::texts;

verus! {

broadcast use group_plan;

/// The most bytes of a file that are read at a time.
pub const TRANSFER_CHUNK: usize = 16384;

/// A full progress bar.
pub const FULL_BAR: u64 = 1000;

/// A file that is being sent.
#[derive(Clone, Copy, Debug, PartialEq, Eq, Structural)]
pub struct TransferOut {
    /// The number of the message that the pieces belong to.
    pub reference: u64,
    /// How much of the file was sent.
    pub current_position: u64,
    /// How much of the file is to be sent.
    pub cutoff_position: u64,
}

/// What one round does with one file.
pub struct Service {
    pub actions: Seq<ActionView>,
    /// How much of the file has been sent after the round.
    pub position: u64,
    /// Whether the file is done.
    pub done: bool,
}

/// Progress on the terminal UI, where there is one.
pub open spec fn painted(ui: bool, progress: int, bytes: int) -> Seq<ActionView> {
    if ui {
        seq![ActionView::PaintProgressBar { progress: progress as u64, bytes: bytes as u64 }]
    } else {
        Seq::empty()
    }
}

/// A piece of a file.
pub open spec fn piece(reference: u64, data: Seq<u8>) -> ActionView {
    ActionView::Send(MessageView::FileData { reference, data })
}

impl TransferOut {
    /// Whether so many bytes more would go past the cutoff.
    pub open spec fn exceeded_by(self, amount: nat) -> bool {
        self.current_position + amount > self.cutoff_position
    }

    /// Whether one round can do its arithmetic: the position is not past the cutoff, and neither
    /// the new position nor, where it is needed, a thousand times that overflows.
    pub open spec fn serviceable(self, read: Seq<u8>) -> bool {
        &&& self.current_position <= self.cutoff_position
        &&& self.current_position + read.len() <= u64::MAX
        &&& !self.exceeded_by(read.len()) && self.cutoff_position != 0 ==> (self.current_position
            + read.len()) * FULL_BAR <= u64::MAX
    }

    /// What one round does with this file, of which `read` was read.
    pub open spec fn service(self, ui: bool, read: Seq<u8>) -> Service {
        if self.exceeded_by(read.len()) {
            Service {
                actions: seq![
                    piece(
                        self.reference,
                        read.take(self.cutoff_position - self.current_position),
                    ),
                    piece(self.reference, Seq::empty()),
                ] + painted(ui, FULL_BAR as int, 0) + seq![
                    ActionView::Log {
                        level: LogLevel::Info,
                        to_ui: ui,
                        message: "File transfer completed"@,
                    },
                ],
                position: self.current_position,
                done: true,
            }
        } else {
            let position = self.current_position + read.len();
            let ending = if read.len() == 0 {
                painted(ui, FULL_BAR as int, 0) + seq![
                    ActionView::Log {
                        level: LogLevel::Info,
                        to_ui: ui,
                        message: "File transfer completed."@,
                    },
                ]
            } else {
                Seq::empty()
            };
            let progress = if self.cutoff_position != 0 {
                painted(
                    ui,
                    position * FULL_BAR / self.cutoff_position as int,
                    read.len() as int,
                )
            } else {
                painted(ui, FULL_BAR as int, 0)
            };
            Service {
                actions: ending + seq![piece(self.reference, read)] + progress,
                position: position as u64,
                done: read.len() == 0,
            }
        }
    }
}

/// What the round does with the first `n` files.
pub open spec fn service_all(
    ui: bool,
    transfers: Seq<TransferOut>,
    reads: Seq<Seq<u8>>,
    n: nat,
) -> Seq<ActionView>
    decreases n,
{
    if n == 0 {
        Seq::empty()
    } else {
        service_all(ui, transfers, reads, (n - 1) as nat) + transfers[n - 1].service(
            ui,
            reads[n - 1],
        ).actions
    }
}

/// The files after the round, those that are done included.
pub open spec fn advanced(transfers: Seq<TransferOut>, reads: Seq<Seq<u8>>) -> Seq<TransferOut> {
    Seq::new(
        transfers.len(),
        |i: int|
            TransferOut {
                current_position: transfers[i].service(false, reads[i]).position,
                ..transfers[i]
            },
    )
}

/// The references of the files that the round finishes, in order.
pub open spec fn finished(transfers: Seq<TransferOut>, reads: Seq<Seq<u8>>, n: nat) -> Seq<u64>
    decreases n,
{
    if n == 0 {
        Seq::empty()
    } else {
        let before = finished(transfers, reads, (n - 1) as nat);
        if transfers[n - 1].service(false, reads[n - 1]).done {
            before.push(transfers[n - 1].reference)
        } else {
            before
        }
    }
}

/// The files whose reference is not among those given.
pub open spec fn without(transfers: Seq<TransferOut>, references: Seq<u64>) -> Seq<TransferOut> {
    transfers.filter(|t: TransferOut| !references.contains(t.reference))
}

/// What comes of the command at the front of the queue.
pub open spec fn next_command(queue: Seq<Vec<String>>) -> Seq<ActionView> {
    if queue.len() == 0 {
        Seq::empty()
    } else {
        seq![ActionView::HandleMetacommand(texts(queue[0]@))]
    }
}

/// The queue without the command at its front.
pub open spec fn without_next(queue: Seq<Vec<String>>) -> Seq<Vec<String>> {
    if queue.len() == 0 {
        queue
    } else {
        queue.remove(0)
    }
}

/// Whether a number is in the list.
fn lists(numbers: &Vec<u64>, number: u64) -> (found: bool)
    ensures
        found == numbers@.contains(number),
{
    let mut i: usize = 0;
    while i < numbers.len()
        invariant
            i <= numbers@.len(),
            forall|k: int| 0 <= k < i ==> numbers@[k] != number,
        decreases numbers@.len() - i,
    {
        if numbers[i] == number {
            return true;
        }
        i = i + 1;
    }
    false
}

/// Drops the transfers whose reference is listed; the others stay in order.
fn retain_others(transfers: &Vec<TransferOut>, references: &Vec<u64>) -> (kept: Vec<TransferOut>)
    ensures
        kept@ == without(transfers@, references@),
{
    let mut kept: Vec<TransferOut> = Vec::new();
    let mut i: usize = 0;
    let ghost keep = |t: TransferOut| !references@.contains(t.reference);
    proof {
        reveal(Seq::filter);
        assert(transfers@.take(0).filter(keep) =~= Seq::empty());
    }
    while i < transfers.len()
        invariant
            i <= transfers@.len(),
            keep == (|t: TransferOut| !references@.contains(t.reference)),
            kept@ == transfers@.take(i as int).filter(keep),
        decreases transfers@.len() - i,
    {
        proof {
            reveal(Seq::filter);
            assert(transfers@.take(i + 1).drop_last() =~= transfers@.take(i as int));
            assert(transfers@.take(i + 1).last() == transfers@[i as int]);
        }
        let transfer: TransferOut = transfers[i];
        if !lists(references, transfer.reference) {
            kept.push(transfer);
        }
        i = i + 1;
    }
    assert(transfers@.take(i as int) =~= transfers@);
    kept
}

impl Oxy {
    /// One round with one file, of which `read` was read. Tells whether the file is done.
    pub fn service_transfer(
        &self,
        transfer: &mut TransferOut,
        read: &Vec<u8>,
        actions: &mut Vec<Action>,
    ) -> (done: bool)
        requires
            old(transfer).serviceable(read@),
        ensures
            ({
                let service = old(transfer).service(self.ui, read@);
                &&& done == service.done
                &&& plan(final(actions)@) == plan(old(actions)@) + service.actions
                &&& *final(transfer) == (TransferOut {
                    current_position: service.position,
                    ..*old(transfer)
                })
            }),
    {
        let ghost service = transfer.service(self.ui, read@);
        let ghost before = plan(actions@);
        let reference: u64 = transfer.reference;
        let amount: usize = read.len();
        if transfer.current_position + amount as u64 > transfer.cutoff_position {
            let to_take: usize = (transfer.cutoff_position - transfer.current_position) as usize;
            let data: Vec<u8> = slice_to_vec(slice_subrange(read.as_slice(), 0, to_take));
            actions.push(Action::Send(OxyMessage::FileData { reference, data }));
            actions.push(Action::Send(OxyMessage::FileData { reference, data: Vec::new() }));
            if let Some(paint) = self.paint_progress_bar(FULL_BAR, 0) {
                actions.push(paint);
            }
            actions.push(self.log_info("File transfer completed"));
            assert(plan(actions@) =~= before + service.actions);
            return true;
        }
        if amount == 0 {
            if let Some(paint) = self.paint_progress_bar(FULL_BAR, 0) {
                actions.push(paint);
            }
            actions.push(self.log_info("File transfer completed."));
        }
        let data: Vec<u8> = slice_to_vec(read.as_slice());
        actions.push(Action::Send(OxyMessage::FileData { reference, data }));
        transfer.current_position = transfer.current_position + amount as u64;
        let painted: Option<Action> = if transfer.cutoff_position != 0 {
            self.paint_progress_bar(
                (transfer.current_position * FULL_BAR) / transfer.cutoff_position,
                amount as u64,
            )
        } else {
            self.paint_progress_bar(FULL_BAR, 0)
        };
        if let Some(paint) = painted {
            actions.push(paint);
        }
        assert(plan(actions@) =~= before + service.actions);
        amount == 0
    }

    /// Whether one round with every file stays within 64 bits, given what was read of each.
    pub open spec fn can_service(self, has_write_space: bool, reads: Seq<Seq<u8>>) -> bool {
        has_write_space ==> {
            &&& reads.len() == self.transfers_out@.len()
            &&& forall|i: int|
                0 <= i < reads.len() ==> (#[trigger] self.transfers_out@[i]).serviceable(reads[i])
        }
    }

    /// What one round with every file does: `self` is the state before it, `after` the one
    /// behind it.
    pub open spec fn serviced(
        self,
        has_write_space: bool,
        reads: Seq<Seq<u8>>,
        actions: Seq<ActionView>,
        after: Oxy,
    ) -> bool {
        let transfers = self.transfers_out@;
        let done = finished(transfers, reads, transfers.len());
        let queue = self.metacommand_queue@;
        &&& !has_write_space ==> actions.len() == 0 && after == self
        &&& has_write_space ==> {
            &&& after.transfers_out@ == without(advanced(transfers, reads), done)
            &&& actions == service_all(self.ui, transfers, reads, transfers.len()) + (
            if done.len() > 0 {
                next_command(queue)
            } else {
                Seq::empty()
            })
            &&& after.metacommand_queue@ == (if done.len() > 0 {
                without_next(queue)
            } else {
                queue
            })
        }
        &&& after == (Oxy {
            transfers_out: after.transfers_out,
            metacommand_queue: after.metacommand_queue,
            ..self
        })
    }

    /// One round with every file. `reads` holds what was read of each, in order; nothing is done
    /// while the transport has no room. Where a file is done, the next command gets its turn.
    pub fn service_transfers(&mut self, has_write_space: bool, reads: &Vec<Vec<u8>>) -> (actions:
        Vec<Action>)
        requires
            old(self).can_service(has_write_space, contents(reads@)),
        ensures
            old(self).serviced(
                has_write_space,
                contents(reads@),
                plan(actions@),
                *final(self),
            ),
    {
        let mut actions: Vec<Action> = Vec::new();
        if !has_write_space {
            return actions;
        }
        let ghost transfers = self.transfers_out@;
        let ghost data = contents(reads@);
        let mut to_remove: Vec<u64> = Vec::new();
        let mut i: usize = 0;
        let mut moved: Vec<TransferOut> = Vec::new();
        while i < self.transfers_out.len()
            invariant
                i <= self.transfers_out@.len(),
                *self == *old(self),
                transfers == self.transfers_out@,
                data == contents(reads@),
                data.len() == transfers.len(),
                forall|k: int|
                    0 <= k < data.len() ==> (#[trigger] transfers[k]).serviceable(data[k]),
                plan(actions@) == service_all(self.ui, transfers, data, i as nat),
                to_remove@ == finished(transfers, data, i as nat),
                moved@ == advanced(transfers, data).take(i as int),
            decreases self.transfers_out@.len() - i,
        {
            let mut transfer: TransferOut = self.transfers_out[i];
            assert(transfer == transfers[i as int] && data[i as int] == reads@[i as int]@);
            let done: bool = self.service_transfer(&mut transfer, &reads[i], &mut actions);
            if done {
                to_remove.push(transfer.reference);
            }
            moved.push(transfer);
            assert(moved@ =~= advanced(transfers, data).take(i + 1));
            i = i + 1;
        }
        assert(moved@ =~= advanced(transfers, data));
        self.transfers_out = retain_others(&moved, &to_remove);
        if !to_remove.is_empty() {
            if let Some(command) = self.pop_metacommand() {
                actions.push(command);
            }
        }
        assert(plan(actions@) =~= service_all(old(self).ui, transfers, data, transfers.len()) + (
        if to_remove@.len() > 0 {
            next_command(old(self).metacommand_queue@)
        } else {
            Seq::empty()
        }));
        actions
    }
}

} // verus!
