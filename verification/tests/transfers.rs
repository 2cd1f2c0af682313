use oxy::action::{Action, LogLevel};
use oxy::message::OxyMessage;
use oxy::state::Oxy;
use oxy::transfer::TransferOut;

fn end() -> Oxy {
    Oxy::create(&"client".to_string(), 0).0
}

fn transfer(reference: u64, current_position: u64, cutoff_position: u64) -> TransferOut {
    TransferOut { reference, current_position, cutoff_position }
}

fn piece(reference: u64, data: &[u8]) -> Action {
    Action::Send(OxyMessage::FileData { reference, data: data.to_vec() })
}

fn paint(progress: u64, bytes: u64) -> Action {
    Action::PaintProgressBar { progress, bytes }
}

fn log(to_ui: bool, message: &str) -> Action {
    Action::Log { level: LogLevel::Info, to_ui, message: message.to_string() }
}

#[test]
fn nothing_is_read_while_the_transport_is_full() {
    let mut oxy = end();
    oxy.transfers_out.push(transfer(1, 0, 10));
    assert_eq!(oxy.service_transfers(false, &Vec::new()), Vec::new());
    assert_eq!(oxy.transfers_out, vec![transfer(1, 0, 10)]);
}

#[test]
fn piece_of_a_file_is_sent_and_painted() {
    let mut oxy = end();
    oxy.ui = true;
    oxy.transfers_out.push(transfer(7, 2, 8));
    let actions = oxy.service_transfers(true, &vec![vec![1, 2, 3]]);
    assert_eq!(actions, vec![piece(7, &[1, 2, 3]), paint(625, 3)]);
    assert_eq!(oxy.transfers_out, vec![transfer(7, 5, 8)]);
}

#[test]
fn end_of_a_file_is_an_empty_piece() {
    let mut oxy = end();
    oxy.ui = true;
    oxy.transfers_out.push(transfer(7, 4, 8));
    let actions = oxy.service_transfers(true, &vec![vec![]]);
    assert_eq!(
        actions,
        vec![
            paint(1000, 0),
            log(true, "File transfer completed."),
            piece(7, &[]),
            paint(500, 0)
        ]
    );
    assert_eq!(oxy.transfers_out, Vec::new());
}

#[test]
fn empty_file_has_a_full_bar() {
    let mut oxy = end();
    oxy.ui = true;
    oxy.transfers_out.push(transfer(7, 0, 0));
    let actions = oxy.service_transfers(true, &vec![vec![]]);
    assert_eq!(
        actions,
        vec![
            paint(1000, 0),
            log(true, "File transfer completed."),
            piece(7, &[]),
            paint(1000, 0)
        ]
    );
}

#[test]
fn nothing_is_sent_past_the_cutoff() {
    let mut oxy = end();
    oxy.ui = true;
    oxy.transfers_out.push(transfer(7, 6, 8));
    let actions = oxy.service_transfers(true, &vec![vec![1, 2, 3]]);
    assert_eq!(
        actions,
        vec![
            piece(7, &[1, 2]),
            piece(7, &[]),
            paint(1000, 0),
            log(true, "File transfer completed")
        ]
    );
    assert_eq!(oxy.transfers_out, Vec::new());
}

#[test]
fn file_that_ends_at_the_cutoff_needs_another_round() {
    let mut oxy = end();
    oxy.transfers_out.push(transfer(7, 6, 8));
    assert_eq!(oxy.service_transfers(true, &vec![vec![1, 2]]), vec![piece(7, &[1, 2])]);
    assert_eq!(oxy.transfers_out, vec![transfer(7, 8, 8)]);
    assert_eq!(
        oxy.service_transfers(true, &vec![vec![]]),
        vec![log(false, "File transfer completed."), piece(7, &[])]
    );
    assert_eq!(oxy.transfers_out, Vec::new());
}

#[test]
fn finished_files_go_and_the_others_stay() {
    let mut oxy = end();
    oxy.transfers_out = vec![transfer(1, 0, 9), transfer(2, 0, 9), transfer(3, 0, 9), transfer(2, 0, 9)];
    let actions = oxy.service_transfers(true, &vec![vec![1], vec![], vec![3, 3], vec![2]]);
    assert_eq!(
        actions,
        vec![
            piece(1, &[1]),
            log(false, "File transfer completed."),
            piece(2, &[]),
            piece(3, &[3, 3]),
            piece(2, &[2])
        ]
    );
    assert_eq!(oxy.transfers_out, vec![transfer(1, 1, 9), transfer(3, 2, 9)]);
}

#[test]
fn finished_file_gives_the_next_command_its_turn() {
    let mut oxy = end();
    oxy.queue_metacommand(vec!["first".to_string()]);
    oxy.queue_metacommand(vec!["second".to_string()]);
    oxy.transfers_out = vec![transfer(1, 0, 0), transfer(2, 0, 0)];
    let actions = oxy.service_transfers(true, &vec![vec![], vec![]]);
    assert_eq!(actions.last(), Some(&Action::HandleMetacommand(vec!["first".to_string()])));
    assert_eq!(oxy.metacommand_queue, vec![vec!["second".to_string()]]);
    oxy.transfers_out = vec![transfer(3, 0, 5)];
    assert_eq!(oxy.service_transfers(true, &vec![vec![1]]), vec![piece(3, &[1])]);
    assert_eq!(oxy.metacommand_queue, vec![vec!["second".to_string()]]);
}

#[test]
fn rounds_send_the_file_up_to_the_cutoff() {
    let file: Vec<u8> = (0..100).collect();
    let mut oxy = end();
    oxy.transfers_out.push(transfer(9, 10, 75));
    let mut sent: Vec<u8> = Vec::new();
    let mut ends = 0;
    for read in file[10..].chunks(20) {
        if oxy.transfers_out.is_empty() {
            continue;
        }
        for action in oxy.service_transfers(true, &vec![read.to_vec()]) {
            if let Action::Send(OxyMessage::FileData { reference: 9, data }) = action {
                if data.is_empty() {
                    ends += 1;
                }
                sent.extend(data);
            }
        }
    }
    assert_eq!(sent, file[10..75].to_vec());
    assert_eq!(ends, 1);
}

#[test]
fn files_side_by_side_each_arrive() {
    let files: Vec<Vec<u8>> = vec![(0..50).collect(), (100..130).collect()];
    let mut read = vec![0, 0];
    let mut oxy = end();
    oxy.transfers_out = vec![transfer(0, 0, 33), transfer(1, 0, 90)];
    let mut pieces: Vec<Vec<Vec<u8>>> = vec![Vec::new(), Vec::new()];
    for _ in 0..10 {
        let reads = oxy
            .transfers_out
            .iter()
            .map(|t| {
                let file = &files[t.reference as usize];
                let from = read[t.reference as usize];
                let to = std::cmp::min(from + 10, file.len());
                read[t.reference as usize] = to;
                file[from..to].to_vec()
            })
            .collect();
        for action in oxy.service_transfers(true, &reads) {
            if let Action::Send(OxyMessage::FileData { reference, data }) = action {
                pieces[reference as usize].push(data);
            }
        }
    }
    assert_eq!(pieces[0].concat(), files[0][..33].to_vec());
    assert_eq!(pieces[1].concat(), files[1]);
    for list in &pieces {
        assert!(list.last().unwrap().is_empty());
        assert!(list[..list.len() - 1].iter().all(|piece| !piece.is_empty()));
    }
}
