//! Files reach the peer: whole, up to their cutoff, and with an end.

use vstd::prelude::*;

use crate::action::{ActionView, LogLevel};
use crate::message::MessageView;
use crate::state::Oxy;
use crate::transfer::{
    advanced, finished, next_command, painted, piece, service_all, without, TransferOut, FULL_BAR,
    TRANSFER_CHUNK,
};

verus! {

/// The pieces of a file that a plan sends, in order.
pub open spec fn file_pieces(actions: Seq<ActionView>, reference: u64) -> Seq<Seq<u8>>
    decreases actions.len(),
{
    if actions.len() == 0 {
        Seq::empty()
    } else {
        let before = file_pieces(actions.drop_last(), reference);
        match actions.last() {
            ActionView::Send(MessageView::FileData { reference: r, data }) if r == reference =>
                before.push(data),
            _ => before,
        }
    }
}

/// The pieces of two plans, one after the other.
proof fn lemma_pieces_concat(first: Seq<ActionView>, second: Seq<ActionView>, reference: u64)
    ensures
        file_pieces(first + second, reference) == file_pieces(first, reference) + file_pieces(
            second,
            reference,
        ),
    decreases second.len(),
{
    if second.len() == 0 {
        assert(first + second =~= first);
        assert(file_pieces(first, reference) + Seq::<Seq<u8>>::empty() =~= file_pieces(
            first,
            reference,
        ));
    } else {
        lemma_pieces_concat(first, second.drop_last(), reference);
        assert((first + second).drop_last() =~= first + second.drop_last());
        assert(file_pieces(first + second, reference) =~= file_pieces(first, reference)
            + file_pieces(second, reference));
    }
}

/// A plan that sends nothing of a file.
proof fn lemma_no_pieces(actions: Seq<ActionView>, reference: u64)
    requires
        forall|i: int|
            0 <= i < actions.len() ==> !(#[trigger] actions[i] matches ActionView::Send(
                MessageView::FileData { reference: r, .. },
            ) && r == reference),
    ensures
        file_pieces(actions, reference).len() == 0,
    decreases actions.len(),
{
    if actions.len() > 0 {
        assert(actions[actions.len() - 1] == actions.last());
        assert forall|i: int| 0 <= i < actions.drop_last().len() implies !(#[trigger]
        actions.drop_last()[i] matches ActionView::Send(
            MessageView::FileData { reference: r, .. },
        ) && r == reference) by {
            assert(actions.drop_last()[i] == actions[i]);
        }
        lemma_no_pieces(actions.drop_last(), reference);
    }
}

/// A plan of one piece.
proof fn lemma_one_piece(reference: u64, data: Seq<u8>)
    ensures
        file_pieces(seq![piece(reference, data)], reference) == seq![data],
{
    reveal_with_fuel(file_pieces, 2);
    assert(file_pieces(seq![piece(reference, data)], reference) =~= seq![data]);
}

/// The pieces that one round sends of a file, of which `read` was read.
pub open spec fn round_pieces(transfer: TransferOut, read: Seq<u8>) -> Seq<Seq<u8>> {
    if transfer.exceeded_by(read.len()) {
        seq![read.take(transfer.cutoff_position - transfer.current_position), Seq::empty()]
    } else {
        seq![read]
    }
}

/// One round with a file sends what was read of it, but never goes past the cutoff; it keeps the
/// position within the cutoff; it is done when nothing was left to read or the cutoff was passed;
/// and its last piece is empty exactly then.
pub proof fn law_transfer_round(transfer: TransferOut, ui: bool, read: Seq<u8>)
    requires
        transfer.serviceable(read),
    ensures
        ({
            let service = transfer.service(ui, read);
            let left = transfer.cutoff_position - transfer.current_position;
            &&& file_pieces(service.actions, transfer.reference) == round_pieces(transfer, read)
            &&& transfer.current_position <= service.position <= transfer.cutoff_position
            &&& service.done <==> read.len() == 0 || read.len() > left
            &&& service.done <==> round_pieces(transfer, read).last().len() == 0
            &&& !service.done ==> service.position == transfer.current_position + read.len()
        }),
{
    let service = transfer.service(ui, read);
    let reference = transfer.reference;
    let actions = service.actions;
    let left = transfer.cutoff_position - transfer.current_position;
    if transfer.exceeded_by(read.len()) {
        let first = seq![piece(reference, read.take(left))];
        let second = seq![piece(reference, Seq::empty())];
        let rest = actions.skip(2);
        assert(actions =~= first + second + rest);
        lemma_no_pieces(rest, reference);
        lemma_one_piece(reference, read.take(left));
        lemma_one_piece(reference, Seq::empty());
        lemma_pieces_concat(first + second, rest, reference);
        lemma_pieces_concat(first, second, reference);
        assert(file_pieces(actions, reference) =~= round_pieces(transfer, read));
    } else {
        let full = painted(ui, FULL_BAR as int, 0);
        let at = if read.len() == 0 {
            full.len() as int + 1
        } else {
            0
        };
        let ending = actions.take(at);
        let rest = actions.skip(at + 1);
        let sent = seq![piece(reference, read)];
        assert(actions[at] == piece(reference, read));
        assert(actions =~= ending + sent + rest);
        lemma_no_pieces(ending, reference);
        lemma_no_pieces(rest, reference);
        lemma_one_piece(reference, read);
        lemma_pieces_concat(ending + sent, rest, reference);
        lemma_pieces_concat(ending, sent, reference);
        assert(file_pieces(actions, reference) =~= round_pieces(transfer, read));
    }
}

/// Progress never goes past a full bar.
pub proof fn law_progress_stays_on_the_bar(transfer: TransferOut, ui: bool, read: Seq<u8>, i: int)
    requires
        transfer.serviceable(read),
        0 <= i < transfer.service(ui, read).actions.len(),
    ensures
        transfer.service(ui, read).actions[i] matches ActionView::PaintProgressBar { progress, .. }
            ==> progress <= FULL_BAR,
{
    let position = transfer.current_position + read.len();
    let cutoff = transfer.cutoff_position as int;
    if !transfer.exceeded_by(read.len()) && cutoff != 0 {
        assert(0 <= position * FULL_BAR / cutoff <= FULL_BAR) by (nonlinear_arith)
            requires
                0 <= position <= cutoff,
                cutoff > 0,
                FULL_BAR == 1000,
        ;
    }
}

/// Which references a round finishes.
proof fn lemma_finished_contains(
    transfers: Seq<TransferOut>,
    reads: Seq<Seq<u8>>,
    n: nat,
    reference: u64,
)
    requires
        n <= transfers.len(),
    ensures
        finished(transfers, reads, n).contains(reference) <==> exists|i: int|
            0 <= i < n && (#[trigger] transfers[i]).reference == reference && transfers[i].service(
                false,
                reads[i],
            ).done,
    decreases n,
{
    if n > 0 {
        let before = finished(transfers, reads, (n - 1) as nat);
        lemma_finished_contains(transfers, reads, (n - 1) as nat, reference);
        let last = transfers[n - 1];
        if last.service(false, reads[n - 1]).done {
            let now = before.push(last.reference);
            if before.contains(reference) {
                let k = before.index_of(reference);
                assert(now[k] == reference);
            }
            if last.reference == reference {
                assert(now[before.len() as int] == reference);
            }
            if now.contains(reference) && last.reference != reference {
                let k = choose|k: int| 0 <= k < now.len() && now[k] == reference;
                assert(before[k] == reference);
            }
        }
    }
}

/// A round drops the files that are done, by their reference, and no others. Those that stay have
/// moved on by exactly what was read of them, and are still within their cutoff.
pub proof fn law_round_keeps_the_others(transfers: Seq<TransferOut>, reads: Seq<Seq<u8>>)
    requires
        reads.len() == transfers.len(),
        forall|i: int|
            0 <= i < transfers.len() ==> (#[trigger] transfers[i]).serviceable(reads[i]),
    ensures
        ({
            let moved = advanced(transfers, reads);
            let done = finished(transfers, reads, transfers.len());
            let after = without(moved, done);
            &&& forall|reference: u64| #[trigger]
                done.contains(reference) <==> exists|i: int|
                    0 <= i < transfers.len() && (#[trigger] transfers[i]).reference == reference
                        && transfers[i].service(false, reads[i]).done
            &&& forall|i: int|
                0 <= i < transfers.len() && !done.contains((#[trigger] transfers[i]).reference)
                    ==> after.contains(
                    TransferOut {
                        current_position: (transfers[i].current_position + reads[i].len()) as u64,
                        ..transfers[i]
                    },
                )
            &&& forall|k: int|
                0 <= k < after.len() ==> !done.contains((#[trigger] after[k]).reference)
                    && moved.contains(after[k]) && after[k].current_position
                    <= after[k].cutoff_position
        }),
{
    let moved = advanced(transfers, reads);
    let done = finished(transfers, reads, transfers.len());
    let keep = |t: TransferOut| !done.contains(t.reference);
    let after = without(moved, done);
    assert forall|reference: u64| #[trigger]
        done.contains(reference) <==> exists|i: int|
            0 <= i < transfers.len() && (#[trigger] transfers[i]).reference == reference
                && transfers[i].service(false, reads[i]).done by {
        lemma_finished_contains(transfers, reads, transfers.len(), reference);
    }
    assert forall|i: int|
        0 <= i < transfers.len() && !done.contains(
            (#[trigger] transfers[i]).reference,
        ) implies after.contains(
        TransferOut {
            current_position: (transfers[i].current_position + reads[i].len()) as u64,
            ..transfers[i]
        },
    ) by {
        law_transfer_round(transfers[i], false, reads[i]);
        assert(moved[i] == (TransferOut {
            current_position: (transfers[i].current_position + reads[i].len()) as u64,
            ..transfers[i]
        }));
        assert(keep(moved[i]));
        moved.lemma_filter_contains(keep, i);
    }
    assert forall|k: int| 0 <= k < after.len() implies !done.contains(
        (#[trigger] after[k]).reference,
    ) && moved.contains(after[k]) && after[k].current_position <= after[k].cutoff_position by {
        moved.lemma_filter_pred(keep, k);
        assert(keep(after[k]));
        lemma_filtered_is_listed(moved, keep, k);
        let j = choose|j: int| 0 <= j < moved.len() && moved[j] == after[k];
        law_transfer_round(transfers[j], false, reads[j]);
    }
}

/// What a filter keeps was there.
proof fn lemma_filtered_is_listed<A>(list: Seq<A>, keep: spec_fn(A) -> bool, k: int)
    requires
        0 <= k < list.filter(keep).len(),
    ensures
        list.contains(list.filter(keep)[k]),
    decreases list.len(),
{
    reveal(Seq::filter);
    if list.len() > 0 {
        let shorter = list.drop_last();
        if k < shorter.filter(keep).len() {
            lemma_filtered_is_listed(shorter, keep, k);
            let j = choose|j: int| 0 <= j < shorter.len() && shorter[j] == shorter.filter(keep)[k];
            assert(list[j] == list.filter(keep)[k]);
        } else {
            assert(list[list.len() - 1] == list.filter(keep)[k]);
        }
    }
}

/// What a round with all files sends of one of them: `i` is the only place where its reference can
/// stand.
proof fn lemma_service_all_pieces(
    ui: bool,
    transfers: Seq<TransferOut>,
    reads: Seq<Seq<u8>>,
    n: nat,
    reference: u64,
    i: int,
)
    requires
        n <= transfers.len(),
        forall|j: int|
            0 <= j < transfers.len() && j != i ==> (#[trigger] transfers[j]).reference
                != reference,
    ensures
        file_pieces(service_all(ui, transfers, reads, n), reference) == (if 0 <= i < n {
            file_pieces(transfers[i].service(ui, reads[i]).actions, reference)
        } else {
            Seq::empty()
        }),
    decreases n,
{
    if n > 0 {
        let before = service_all(ui, transfers, reads, (n - 1) as nat);
        let last = transfers[n - 1].service(ui, reads[n - 1]).actions;
        lemma_service_all_pieces(ui, transfers, reads, (n - 1) as nat, reference, i);
        lemma_pieces_concat(before, last, reference);
        if i != n - 1 {
            lemma_no_pieces(last, reference);
        }
        assert(file_pieces(before + last, reference) =~= (if 0 <= i < n {
            file_pieces(transfers[i].service(ui, reads[i]).actions, reference)
        } else {
            Seq::empty()
        }));
    }
}

/// Whether a file with this reference is being sent.
pub open spec fn occurs(transfers: Seq<TransferOut>, reference: u64) -> bool {
    exists|i: int| 0 <= i < transfers.len() && (#[trigger] transfers[i]).reference == reference
}

/// Whether no two files share this reference.
pub open spec fn at_most_one(transfers: Seq<TransferOut>, reference: u64) -> bool {
    forall|i: int, j: int|
        0 <= i < transfers.len() && 0 <= j < transfers.len() && (#[trigger] transfers[i]).reference
            == reference && (#[trigger] transfers[j]).reference == reference ==> i == j
}

/// Where the file with this reference stands in the list.
pub open spec fn place(transfers: Seq<TransferOut>, reference: u64) -> int {
    choose|i: int| 0 <= i < transfers.len() && (#[trigger] transfers[i]).reference == reference
}

/// The file with this reference, if it is being sent.
pub open spec fn entry(oxy: Oxy, reference: u64) -> Option<TransferOut> {
    if occurs(oxy.transfers_out@, reference) {
        Some(oxy.transfers_out@[place(oxy.transfers_out@, reference)])
    } else {
        None
    }
}

/// One round with all files: the state before it, what was read of each file, what is to be done,
/// and the state behind it.
pub struct Round {
    pub before: Oxy,
    pub reads: Seq<Seq<u8>>,
    pub actions: Seq<ActionView>,
    pub after: Oxy,
}

impl Round {
    /// Whether the round took place, with room on the transport.
    pub open spec fn took_place(self) -> bool {
        &&& self.before.can_service(true, self.reads)
        &&& self.before.serviced(true, self.reads, self.actions, self.after)
    }

    /// What was read of the file with this reference.
    pub open spec fn read_of(self, reference: u64) -> Seq<u8> {
        self.reads[place(self.before.transfers_out@, reference)]
    }

    /// The same; nothing, where the file is not being sent.
    pub open spec fn read_if_any(self, reference: u64) -> Seq<u8> {
        if occurs(self.before.transfers_out@, reference) {
            self.read_of(reference)
        } else {
            Seq::empty()
        }
    }
}

/// What a round with all files does with one of them.
proof fn lemma_round(round: Round, reference: u64)
    requires
        round.took_place(),
        at_most_one(round.before.transfers_out@, reference),
    ensures
        match entry(round.before, reference) {
            Some(transfer) => {
                let read = round.read_of(reference);
                &&& transfer.reference == reference
                &&& transfer.serviceable(read)
                &&& file_pieces(round.actions, reference) == round_pieces(transfer, read)
                &&& entry(round.after, reference) == (if transfer.service(false, read).done {
                    None
                } else {
                    Some(
                        TransferOut {
                            current_position: (transfer.current_position + read.len()) as u64,
                            ..transfer
                        },
                    )
                })
            },
            None => file_pieces(round.actions, reference).len() == 0 && entry(
                round.after,
                reference,
            ) is None,
        },
{
    let transfers = round.before.transfers_out@;
    let reads = round.reads;
    let ui = round.before.ui;
    let done = finished(transfers, reads, transfers.len());
    let moved = advanced(transfers, reads);
    let after = round.after.transfers_out@;
    let sent = service_all(ui, transfers, reads, transfers.len());
    let command = if done.len() > 0 {
        next_command(round.before.metacommand_queue@)
    } else {
        Seq::empty()
    };
    let i = if occurs(transfers, reference) {
        place(transfers, reference)
    } else {
        -1
    };
    law_round_keeps_the_others(transfers, reads);
    lemma_service_all_pieces(ui, transfers, reads, transfers.len(), reference, i);
    lemma_pieces_concat(sent, command, reference);
    lemma_no_pieces(command, reference);
    assert(file_pieces(round.actions, reference) =~= file_pieces(sent, reference));
    if occurs(transfers, reference) {
        let transfer = transfers[i];
        let read = reads[i];
        let next = TransferOut {
            current_position: (transfer.current_position + read.len()) as u64,
            ..transfer
        };
        law_transfer_round(transfer, ui, read);
        law_transfer_round(transfer, false, read);
        assert(done.contains(reference) <==> transfer.service(false, read).done);
        if transfer.service(false, read).done {
            assert(!occurs(after, reference));
        } else {
            assert(after.contains(next));
            let k = choose|k: int| 0 <= k < after.len() && after[k] == next;
            assert(after[k].reference == reference);
            assert(occurs(after, reference));
            let p = place(after, reference);
            let j = choose|j: int| 0 <= j < moved.len() && moved[j] == after[p];
            assert(transfers[j].reference == reference);
            assert(moved[i] == next);
        }
    } else {
        assert forall|k: int| 0 <= k < after.len() implies (#[trigger] after[k]).reference
            != reference by {
            let j = choose|j: int| 0 <= j < moved.len() && moved[j] == after[k];
            assert(transfers[j].reference == after[k].reference);
        }
    }
}

/// What was read of a file in so many rounds.
pub open spec fn read_so_far(rounds: Seq<Round>, reference: u64) -> Seq<u8>
    decreases rounds.len(),
{
    if rounds.len() == 0 {
        Seq::empty()
    } else {
        read_so_far(rounds.drop_last(), reference) + rounds.last().read_if_any(reference)
    }
}

/// The pieces of a file that so many rounds send.
pub open spec fn sent_so_far(rounds: Seq<Round>, reference: u64) -> Seq<Seq<u8>>
    decreases rounds.len(),
{
    if rounds.len() == 0 {
        Seq::empty()
    } else {
        sent_so_far(rounds.drop_last(), reference) + file_pieces(rounds.last().actions, reference)
    }
}

/// Whether `read` is what a file yields next, of which `before` was read: a piece of limited size,
/// and nothing only at its end.
pub open spec fn yields(file: Seq<u8>, before: Seq<u8>, read: Seq<u8>) -> bool {
    &&& read.len() <= TRANSFER_CHUNK
    &&& before.len() + read.len() <= file.len()
    &&& read == file.subrange(before.len() as int, (before.len() + read.len()) as int)
    &&& read.len() == 0 ==> before.len() == file.len()
}

/// Whether the `i`-th round reads on in the file where the rounds before it stopped, if the file
/// is being sent.
pub open spec fn reads_on(rounds: Seq<Round>, reference: u64, file: Seq<u8>, i: int) -> bool {
    entry(rounds[i].before, reference) is Some ==> yields(
        file,
        read_so_far(rounds.take(i), reference),
        rounds[i].read_of(reference),
    )
}

/// Whether nothing but rounds moves the file on: the `i`-th round finds it as the one before left
/// it.
pub open spec fn picks_up(rounds: Seq<Round>, reference: u64, i: int) -> bool {
    entry(rounds[i].before, reference) == entry(rounds[i - 1].after, reference)
}

/// Rounds in which a file is sent that has its reference to itself. Between two rounds other files
/// may come.
pub open spec fn sends_file(rounds: Seq<Round>, reference: u64, file: Seq<u8>) -> bool {
    &&& rounds.len() > 0
    &&& entry(rounds[0].before, reference) is Some
    &&& forall|i: int|
        0 <= i < rounds.len() ==> (#[trigger] rounds[i]).took_place() && at_most_one(
            rounds[i].before.transfers_out@,
            reference,
        )
    &&& forall|i: int| 0 <= i < rounds.len() ==> #[trigger] reads_on(rounds, reference, file, i)
    &&& forall|i: int| 0 < i < rounds.len() ==> #[trigger] picks_up(rounds, reference, i)
}

/// Two lists of pieces, one after the other.
proof fn lemma_flatten_concat(first: Seq<Seq<u8>>, second: Seq<Seq<u8>>)
    ensures
        (first + second).flatten_alt() == first.flatten_alt() + second.flatten_alt(),
    decreases second.len(),
{
    if second.len() == 0 {
        assert(first + second =~= first);
        assert(first.flatten_alt() + second.flatten_alt() =~= first.flatten_alt());
    } else {
        lemma_flatten_concat(first, second.drop_last());
        assert((first + second).drop_last() =~= first + second.drop_last());
        assert((first + second).flatten_alt() =~= first.flatten_alt() + second.flatten_alt());
    }
}

/// The bytes that one round sends of a file.
proof fn lemma_round_bytes(transfer: TransferOut, read: Seq<u8>)
    requires
        transfer.current_position <= transfer.cutoff_position,
    ensures
        ({
            let left = transfer.cutoff_position - transfer.current_position;
            round_pieces(transfer, read).flatten_alt() == (if read.len() > left {
                read.take(left)
            } else {
                read
            })
        }),
{
    let left = transfer.cutoff_position - transfer.current_position;
    reveal_with_fuel(Seq::<Seq<u8>>::flatten_alt, 3);
    if transfer.exceeded_by(read.len()) {
        assert(round_pieces(transfer, read).drop_last() =~= seq![read.take(left)]);
        assert(seq![read.take(left)].drop_last() =~= Seq::<Seq<u8>>::empty());
        assert(round_pieces(transfer, read).flatten_alt() =~= read.take(left));
    } else {
        assert(seq![read].drop_last() =~= Seq::<Seq<u8>>::empty());
        assert(round_pieces(transfer, read).flatten_alt() =~= read);
    }
}

/// Where a file stands after the first `n` rounds.
proof fn lemma_rounds(rounds: Seq<Round>, reference: u64, file: Seq<u8>, n: int)
    requires
        sends_file(rounds, reference, file),
        0 < n <= rounds.len(),
    ensures
        ({
            let start = entry(rounds[0].before, reference)->0;
            let left = start.cutoff_position - start.current_position;
            let read = read_so_far(rounds.take(n), reference);
            let sent = sent_so_far(rounds.take(n), reference);
            &&& 0 <= left
            &&& forall|k: int|
                0 <= k < sent.len() ==> (#[trigger] sent[k]).len() <= TRANSFER_CHUNK
            &&& match entry(rounds[n - 1].after, reference) {
                Some(transfer) => {
                    &&& read.len() <= left
                    &&& transfer == (TransferOut {
                        current_position: (start.current_position + read.len()) as u64,
                        ..start
                    })
                    &&& read.len() <= file.len()
                    &&& read == file.take(read.len() as int)
                    &&& sent.flatten_alt() == read
                },
                None => {
                    &&& sent.flatten_alt() == (if file.len() > left {
                        file.take(left)
                    } else {
                        file
                    })
                    &&& sent.len() > 0
                    &&& sent.last().len() == 0
                },
            }
        }),
    decreases n,
{
    let start = entry(rounds[0].before, reference)->0;
    let left = start.cutoff_position - start.current_position;
    let round = rounds[n - 1];
    let earlier = rounds.take(n - 1);
    let before = read_so_far(earlier, reference);
    let sent_before = sent_so_far(earlier, reference);
    let pieces = file_pieces(round.actions, reference);
    assert(rounds.take(n).drop_last() =~= earlier);
    assert(rounds.take(n).last() == round);
    assert(round.took_place());
    assert(reads_on(rounds, reference, file, n - 1));
    lemma_round(rounds[0], reference);
    lemma_round(round, reference);
    if n > 1 {
        lemma_rounds(rounds, reference, file, n - 1);
        assert(picks_up(rounds, reference, n - 1));
    } else {
        assert(earlier =~= Seq::<Round>::empty());
        assert(file.take(0) =~= Seq::<u8>::empty());
        assert(TransferOut { current_position: start.current_position, ..start } == start);
    }
    let sent = sent_before + pieces;
    lemma_flatten_concat(sent_before, pieces);
    if let Some(transfer) = entry(round.before, reference) {
        let read = round.read_of(reference);
        let now = before + read;
        lemma_round_bytes(transfer, read);
        law_transfer_round(transfer, false, read);
        assert(now =~= file.take(now.len() as int));
        assert forall|k: int| 0 <= k < sent.len() implies (#[trigger] sent[k]).len()
            <= TRANSFER_CHUNK by {
            if k >= sent_before.len() {
                assert(sent[k] == pieces[k - sent_before.len()]);
            }
        }
        if transfer.service(false, read).done {
            let room = transfer.cutoff_position - transfer.current_position;
            if read.len() > room {
                assert(before + read.take(room) =~= file.take(left));
            } else {
                assert(before + read =~= file);
            }
            assert(sent.last() == pieces.last());
        }
    } else {
        assert(sent =~= sent_before);
        assert(pieces.flatten_alt() =~= Seq::<u8>::empty());
    }
}

/// A file that has its reference to itself, and that rounds send until it is done, reaches the
/// peer: the pieces add up to the file, up to the cutoff and not a byte more; the last of them is
/// empty; none is longer than what is read at a time; and no later round sends another.
pub proof fn law_file_is_sent(rounds: Seq<Round>, reference: u64, file: Seq<u8>)
    requires
        sends_file(rounds, reference, file),
        entry(rounds.last().after, reference) is None,
    ensures
        ({
            let start = entry(rounds[0].before, reference)->0;
            let left = start.cutoff_position - start.current_position;
            let sent = sent_so_far(rounds, reference);
            &&& sent.flatten() == (if file.len() > left {
                file.take(left)
            } else {
                file
            })
            &&& sent.len() > 0 && sent.last().len() == 0
            &&& forall|k: int|
                0 <= k < sent.len() ==> (#[trigger] sent[k]).len() <= TRANSFER_CHUNK
        }),
        forall|i: int|
            0 <= i < rounds.len() && entry((#[trigger] rounds[i]).before, reference) is None
                ==> file_pieces(rounds[i].actions, reference).len() == 0,
{
    lemma_rounds(rounds, reference, file, rounds.len() as int);
    assert(rounds.take(rounds.len() as int) =~= rounds);
    sent_so_far(rounds, reference).lemma_flatten_and_flatten_alt_are_equivalent();
    assert forall|i: int|
        0 <= i < rounds.len() && entry((#[trigger] rounds[i]).before, reference) is None implies
        file_pieces(rounds[i].actions, reference).len() == 0 by {
        lemma_round(rounds[i], reference);
    }
}

/// As long as a file is not done, the peer has been sent all that was read of it.
pub proof fn law_nothing_read_is_held_back(rounds: Seq<Round>, reference: u64, file: Seq<u8>)
    requires
        sends_file(rounds, reference, file),
        entry(rounds.last().after, reference) is Some,
    ensures
        sent_so_far(rounds, reference).flatten() == read_so_far(rounds, reference),
{
    lemma_rounds(rounds, reference, file, rounds.len() as int);
    assert(rounds.take(rounds.len() as int) =~= rounds);
    sent_so_far(rounds, reference).lemma_flatten_and_flatten_alt_are_equivalent();
}

/// Rounds keep every file within its cutoff, and move none back.
pub proof fn law_positions_stay_within(
    before: Oxy,
    has_write_space: bool,
    reads: Seq<Seq<u8>>,
    actions: Seq<ActionView>,
    after: Oxy,
)
    requires
        before.can_service(has_write_space, reads),
        before.serviced(has_write_space, reads, actions, after),
        forall|i: int|
            0 <= i < before.transfers_out@.len() ==> (#[trigger] before.transfers_out@[
                i
            ]).current_position <= before.transfers_out@[i].cutoff_position,
    ensures
        forall|k: int|
            0 <= k < after.transfers_out@.len() ==> (#[trigger] after.transfers_out@[
                k
            ]).current_position <= after.transfers_out@[k].cutoff_position && exists|i: int|
                0 <= i < before.transfers_out@.len() && moved_on(
                    #[trigger] before.transfers_out@[i],
                    after.transfers_out@[k],
                ),
{
    let transfers = before.transfers_out@;
    let moved = advanced(transfers, reads);
    let kept = after.transfers_out@;
    assert forall|k: int| 0 <= k < kept.len() implies (#[trigger] kept[k]).current_position
        <= kept[k].cutoff_position && exists|i: int|
        0 <= i < transfers.len() && moved_on(#[trigger] transfers[i], kept[k]) by {
        if has_write_space {
            law_round_keeps_the_others(transfers, reads);
            let j = choose|j: int| 0 <= j < moved.len() && moved[j] == kept[k];
            law_transfer_round(transfers[j], false, reads[j]);
            assert(moved_on(transfers[j], kept[k]));
        } else {
            assert(moved_on(transfers[k], kept[k]));
        }
    }
}

/// Whether a file is the same, and no less of it has been sent.
pub open spec fn moved_on(earlier: TransferOut, later: TransferOut) -> bool {
    &&& later.reference == earlier.reference
    &&& later.cutoff_position == earlier.cutoff_position
    &&& later.current_position >= earlier.current_position
}

/// Whether a file ends with what was read of it: nothing, or more than is to be sent.
pub open spec fn ends_with(transfer: TransferOut, read: Seq<u8>) -> bool {
    read.len() == 0 || transfer.current_position + read.len() > transfer.cutoff_position
}

/// Whether some file ends in a round.
pub open spec fn some_file_ends(transfers: Seq<TransferOut>, reads: Seq<Seq<u8>>) -> bool {
    exists|i: int| 0 <= i < transfers.len() && ends_with(#[trigger] transfers[i], reads[i])
}

/// How many commands a plan starts.
pub open spec fn commands_started(actions: Seq<ActionView>) -> nat
    decreases actions.len(),
{
    if actions.len() == 0 {
        0
    } else {
        commands_started(actions.drop_last()) + (if actions.last() is HandleMetacommand {
            1nat
        } else {
            0
        })
    }
}

/// The commands of two plans, one after the other.
proof fn lemma_commands_concat(first: Seq<ActionView>, second: Seq<ActionView>)
    ensures
        commands_started(first + second) == commands_started(first) + commands_started(second),
    decreases second.len(),
{
    if second.len() == 0 {
        assert(first + second =~= first);
    } else {
        lemma_commands_concat(first, second.drop_last());
        assert((first + second).drop_last() =~= first + second.drop_last());
    }
}

/// A plan without commands.
proof fn lemma_no_commands(actions: Seq<ActionView>)
    requires
        forall|i: int| 0 <= i < actions.len() ==> !(#[trigger] actions[i] is HandleMetacommand),
    ensures
        commands_started(actions) == 0,
    decreases actions.len(),
{
    if actions.len() > 0 {
        assert(actions[actions.len() - 1] == actions.last());
        assert forall|i: int| 0 <= i < actions.drop_last().len() implies !(#[trigger]
        actions.drop_last()[i] is HandleMetacommand) by {
            assert(actions.drop_last()[i] == actions[i]);
        }
        lemma_no_commands(actions.drop_last());
    }
}

/// Files start no command on their own.
proof fn lemma_service_starts_none(
    ui: bool,
    transfers: Seq<TransferOut>,
    reads: Seq<Seq<u8>>,
    n: nat,
)
    ensures
        commands_started(service_all(ui, transfers, reads, n)) == 0,
    decreases n,
{
    if n > 0 {
        let last = transfers[n - 1].service(ui, reads[n - 1]).actions;
        lemma_service_starts_none(ui, transfers, reads, (n - 1) as nat);
        lemma_no_commands(last);
        lemma_commands_concat(service_all(ui, transfers, reads, (n - 1) as nat), last);
    }
}

/// The end of a file gives the next command its turn.
///
/// A round in which a file ends, one or more, starts the command at the front of the queue, behind
/// everything else, and takes it from the queue; where the queue is empty it starts none. A round
/// in which no file ends, or for which there is no room, starts none and leaves the queue as it
/// is. Without room nothing happens at all, and a round changes nothing but the files and the
/// queue.
pub proof fn law_end_of_a_file_starts_the_next_command(
    before: Oxy,
    has_write_space: bool,
    reads: Seq<Seq<u8>>,
    actions: Seq<ActionView>,
    after: Oxy,
)
    requires
        before.can_service(has_write_space, reads),
        before.serviced(has_write_space, reads, actions, after),
    ensures
        ({
            let queue = before.metacommand_queue@;
            let ended = has_write_space && some_file_ends(before.transfers_out@, reads);
            &&& ended && queue.len() > 0 ==> {
                &&& commands_started(actions) == 1
                &&& actions.len() > 0
                &&& actions.last() matches ActionView::HandleMetacommand(words) && words.len()
                    == queue[0]@.len() && (forall|k: int|
                    0 <= k < words.len() ==> #[trigger] words[k] == queue[0]@[k]@)
                &&& after.metacommand_queue@.len() == queue.len() - 1
                &&& forall|k: int|
                    0 <= k < queue.len() - 1 ==> #[trigger] after.metacommand_queue@[k] == queue[k
                        + 1]
            }
            &&& !ended || queue.len() == 0 ==> commands_started(actions) == 0
                && after.metacommand_queue@ == queue
        }),
        !has_write_space ==> actions.len() == 0 && after == before,
        after == (Oxy {
            transfers_out: after.transfers_out,
            metacommand_queue: after.metacommand_queue,
            ..before
        }),
{
    if has_write_space {
        let transfers = before.transfers_out@;
        let n = transfers.len();
        let done = finished(transfers, reads, n);
        let queue = before.metacommand_queue@;
        let sent = service_all(before.ui, transfers, reads, n);
        let command = if done.len() > 0 {
            next_command(queue)
        } else {
            Seq::empty()
        };
        lemma_service_starts_none(before.ui, transfers, reads, n);
        lemma_commands_concat(sent, command);
        lemma_ends(transfers, reads, n);
        if some_file_ends(transfers, reads) && queue.len() > 0 {
            assert(command =~= seq![command[0]]);
            assert(seq![command[0]].drop_last() =~= Seq::<ActionView>::empty());
            reveal_with_fuel(commands_started, 2);
            assert(actions.last() == command[0]);
        } else {
            assert(command =~= Seq::<ActionView>::empty());
        }
    } else {
        assert(actions =~= Seq::<ActionView>::empty());
    }
}

/// A round can be made with every list of files of which each is within its cutoff and small enough
/// for a thousand times its length to be counted.
pub proof fn law_files_can_be_sent(oxy: Oxy, reads: Seq<Seq<u8>>)
    requires
        reads.len() == oxy.transfers_out@.len(),
        forall|i: int|
            0 <= i < reads.len() ==> {
                let transfer = #[trigger] oxy.transfers_out@[i];
                &&& transfer.current_position <= transfer.cutoff_position
                &&& transfer.cutoff_position <= u64::MAX / 1000
                &&& transfer.cutoff_position + reads[i].len() <= u64::MAX
            },
    ensures
        oxy.can_service(true, reads),
{
    assert forall|i: int| 0 <= i < reads.len() implies (
    #[trigger] oxy.transfers_out@[i]).serviceable(reads[i]) by {
        let transfer = oxy.transfers_out@[i];
        assert(FULL_BAR == 1000);
    }
}

/// How many actions the files before this one take.
pub open spec fn actions_before(
    ui: bool,
    transfers: Seq<TransferOut>,
    reads: Seq<Seq<u8>>,
    i: int,
) -> nat
    decreases i,
{
    if i <= 0 {
        0
    } else {
        actions_before(ui, transfers, reads, i - 1) + transfers[i - 1].service(
            ui,
            reads[i - 1],
        ).actions.len()
    }
}

/// Every file gets its round, in order: what is done with one of them stands behind what is done
/// with those before it, whole, and behind the last there is at most the next command.
pub proof fn law_every_file_gets_its_round(
    before: Oxy,
    reads: Seq<Seq<u8>>,
    actions: Seq<ActionView>,
    after: Oxy,
    i: int,
    k: int,
)
    requires
        before.serviced(true, reads, actions, after),
        0 <= i < before.transfers_out@.len(),
        0 <= k < before.transfers_out@[i].service(before.ui, reads[i]).actions.len(),
    ensures
        ({
            let transfers = before.transfers_out@;
            let n = transfers.len() as int;
            let at = actions_before(before.ui, transfers, reads, i) + k;
            let all = actions_before(before.ui, transfers, reads, n);
            &&& at < all <= actions.len() <= all + 1
            &&& actions[at] == transfers[i].service(before.ui, reads[i]).actions[k]
            &&& actions.len() > all ==> actions.last() is HandleMetacommand
        }),
{
    let transfers = before.transfers_out@;
    let n = transfers.len();
    lemma_service_in_place(before.ui, transfers, reads, n, i, k);
}

/// Where the actions of one file stand among those of the first `n`.
proof fn lemma_service_in_place(
    ui: bool,
    transfers: Seq<TransferOut>,
    reads: Seq<Seq<u8>>,
    n: nat,
    i: int,
    k: int,
)
    requires
        0 <= i < n,
        0 <= k < transfers[i].service(ui, reads[i]).actions.len(),
    ensures
        service_all(ui, transfers, reads, n).len() == actions_before(
            ui,
            transfers,
            reads,
            n as int,
        ),
        actions_before(ui, transfers, reads, i) + k < actions_before(
            ui,
            transfers,
            reads,
            n as int,
        ),
        service_all(ui, transfers, reads, n)[actions_before(ui, transfers, reads, i) + k]
            == transfers[i].service(ui, reads[i]).actions[k],
    decreases n,
{
    if i < n - 1 {
        lemma_service_in_place(ui, transfers, reads, (n - 1) as nat, i, k);
    } else {
        lemma_service_count(ui, transfers, reads, (n - 1) as nat);
    }
}

/// How many actions the first `n` files take.
proof fn lemma_service_count(
    ui: bool,
    transfers: Seq<TransferOut>,
    reads: Seq<Seq<u8>>,
    n: nat,
)
    ensures
        service_all(ui, transfers, reads, n).len() == actions_before(
            ui,
            transfers,
            reads,
            n as int,
        ),
    decreases n,
{
    if n > 0 {
        lemma_service_count(ui, transfers, reads, (n - 1) as nat);
    }
}

/// Whether a round finishes anything.
proof fn lemma_ends(transfers: Seq<TransferOut>, reads: Seq<Seq<u8>>, n: nat)
    requires
        n <= transfers.len(),
        forall|i: int|
            0 <= i < transfers.len() ==> (#[trigger] transfers[i]).serviceable(reads[i]),
    ensures
        finished(transfers, reads, n).len() > 0 <==> exists|i: int|
            0 <= i < n && ends_with(#[trigger] transfers[i], reads[i]),
    decreases n,
{
    if n > 0 {
        lemma_ends(transfers, reads, (n - 1) as nat);
        law_transfer_round(transfers[n - 1], false, reads[n - 1]);
        assert(transfers[n - 1].service(false, reads[n - 1]).done <==> ends_with(
            transfers[n - 1],
            reads[n - 1],
        ));
    }
}

/// A round keeps exactly the files whose reference no ended file has, in their order, each moved on
/// by what was read of it.
pub proof fn law_round_keeps_what_has_not_ended(
    before: Oxy,
    reads: Seq<Seq<u8>>,
    actions: Seq<ActionView>,
    after: Oxy,
)
    requires
        before.can_service(true, reads),
        before.serviced(true, reads, actions, after),
    ensures
        ({
            let transfers = before.transfers_out@;
            let stays = |t: TransferOut|
                forall|i: int|
                    0 <= i < transfers.len() && ends_with(#[trigger] transfers[i], reads[i])
                        ==> transfers[i].reference != t.reference;
            let moved = Seq::new(
                transfers.len(),
                |i: int|
                    TransferOut {
                        reference: transfers[i].reference,
                        current_position: if ends_with(transfers[i], reads[i]) {
                            transfers[i].current_position
                        } else {
                            (transfers[i].current_position + reads[i].len()) as u64
                        },
                        cutoff_position: transfers[i].cutoff_position,
                    },
            );
            after.transfers_out@ == moved.filter(stays)
        }),
{
    let transfers = before.transfers_out@;
    let done = finished(transfers, reads, transfers.len());
    let keep = |t: TransferOut| !done.contains(t.reference);
    let stays = |t: TransferOut|
        forall|i: int|
            0 <= i < transfers.len() && ends_with(#[trigger] transfers[i], reads[i])
                ==> transfers[i].reference != t.reference;
    let moved = Seq::new(
        transfers.len(),
        |i: int|
            TransferOut {
                reference: transfers[i].reference,
                current_position: if ends_with(transfers[i], reads[i]) {
                    transfers[i].current_position
                } else {
                    (transfers[i].current_position + reads[i].len()) as u64
                },
                cutoff_position: transfers[i].cutoff_position,
            },
    );
    assert forall|i: int| 0 <= i < transfers.len() implies #[trigger] moved[i] == advanced(
        transfers,
        reads,
    )[i] by {
        law_transfer_round(transfers[i], false, reads[i]);
        assert(transfers[i].serviceable(reads[i]));
    }
    assert(moved =~= advanced(transfers, reads));
    assert forall|t: TransferOut| #[trigger] keep(t) == stays(t) by {
        lemma_finished_contains(transfers, reads, transfers.len(), t.reference);
        assert forall|i: int| 0 <= i < transfers.len() implies (#[trigger] transfers[i]).service(
            false,
            reads[i],
        ).done == ends_with(transfers[i], reads[i]) by {
            law_transfer_round(transfers[i], false, reads[i]);
        }
    }
    assert(keep =~= stays);
}

/// How many actions of a plan are log lines.
pub open spec fn log_lines(actions: Seq<ActionView>) -> nat
    decreases actions.len(),
{
    if actions.len() == 0 {
        0
    } else {
        log_lines(actions.drop_last()) + (if actions.last() is Log {
            1nat
        } else {
            0
        })
    }
}

/// What the user sees of one round with a file.
///
/// Nothing is painted without a terminal UI. Otherwise a file that has not ended gets one bar, in
/// thousandths of its cutoff rounded down, with the number of bytes that were read; a file that has
/// ended gets a full bar. One log line, at info level and to the UI where there is one, tells of a
/// file that has ended, and none of one that has not. Beyond pieces of the file, bars and log lines
/// there is nothing.
pub proof fn law_user_sees_the_progress(transfer: TransferOut, ui: bool, read: Seq<u8>, i: int)
    requires
        transfer.serviceable(read),
        0 <= i < transfer.service(ui, read).actions.len(),
    ensures
        ({
            let actions = transfer.service(ui, read).actions;
            let ended = ends_with(transfer, read);
            let position = transfer.current_position + read.len();
            &&& match actions[i] {
                ActionView::PaintProgressBar { progress, bytes } => {
                    &&& ui
                    &&& !ended ==> bytes == read.len() && progress * transfer.cutoff_position
                        <= position * 1000 < (progress + 1) * transfer.cutoff_position
                    &&& ended ==> bytes == 0
                },
                ActionView::Log { level, to_ui, message } => {
                    &&& ended
                    &&& level == LogLevel::Info
                    &&& to_ui == ui
                    &&& message == (if read.len() == 0 {
                        "File transfer completed."@
                    } else {
                        "File transfer completed"@
                    })
                },
                ActionView::Send(MessageView::FileData { reference, .. }) => reference
                    == transfer.reference,
                _ => false,
            }
            &&& log_lines(actions) == (if ended {
                1nat
            } else {
                0
            })
            &&& ui ==> exists|k: int|
                0 <= k < actions.len() && (#[trigger] actions[k] is PaintProgressBar)
            &&& ui && ended ==> exists|k: int|
                0 <= k < actions.len() && #[trigger] actions[k] == (ActionView::PaintProgressBar {
                    progress: 1000,
                    bytes: 0,
                })
            &&& read.len() > 0 && !ended ==> actions.len() == (if ui {
                2int
            } else {
                1
            }) && actions[0] is Send
            &&& read.len() > 0 && ended ==> actions.len() == (if ui {
                4int
            } else {
                3
            }) && actions[0] is Send && actions[1] is Send && actions.last() is Log
            &&& read.len() == 0 ==> actions.len() == (if ui {
                4int
            } else {
                2
            }) && (if ui {
                actions[1] is Log && actions[2] is Send
            } else {
                actions[0] is Log && actions[1] is Send
            })
        }),
{
    let actions = transfer.service(ui, read).actions;
    let position = transfer.current_position + read.len();
    let cutoff = transfer.cutoff_position as int;
    reveal_with_fuel(log_lines, 6);
    if !transfer.exceeded_by(read.len()) && cutoff != 0 {
        let progress = position * FULL_BAR / cutoff;
        assert(0 <= progress <= FULL_BAR && progress * cutoff <= position * 1000 < (progress + 1)
            * cutoff) by (nonlinear_arith)
            requires
                0 <= position <= cutoff,
                cutoff > 0,
                FULL_BAR == 1000,
                progress == position * FULL_BAR / cutoff,
        ;
    }
    if transfer.exceeded_by(read.len()) {
        if ui {
            assert(actions[2] == (ActionView::PaintProgressBar { progress: 1000, bytes: 0 }));
        }
    } else if ui {
        if read.len() == 0 {
            assert(actions[0] == (ActionView::PaintProgressBar { progress: 1000, bytes: 0 }));
        } else {
            assert(actions[1] is PaintProgressBar);
        }
    }
}

} // verus!
