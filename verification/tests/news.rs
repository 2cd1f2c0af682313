use oxy::action::{Action, Fault, LogLevel};
use oxy::message::OxyMessage;
use oxy::notify::{signal_kind, ChildReport, PtyReport, SignalFacts, SignalKind, UiMessage};
use oxy::state::{Oxy, PortBind, PortStream};
use oxy::transfer::TransferOut;
use oxy::transport::{TransportEvent, TransportNext, TransportTurn};

fn end(mode: &str) -> Oxy {
    Oxy::create(&mode.to_string(), 0).0
}

fn send(message: OxyMessage) -> Action {
    Action::Send(message)
}

fn facts() -> SignalFacts {
    SignalFacts { w: 80, h: 24, ptys: Vec::new(), children: Vec::new() }
}

fn turn(actions: Vec<Action>, next: TransportNext) -> TransportTurn {
    TransportTurn { actions, next }
}

#[test]
fn packets_go_out_in_order() {
    let mut oxy = end("client");
    oxy.tuntaps.insert(6);
    assert_eq!(
        oxy.notify_tuntap(6, vec![vec![1], vec![], vec![2, 3]]),
        vec![
            send(OxyMessage::TunnelData { reference: 6, data: vec![1] }),
            send(OxyMessage::TunnelData { reference: 6, data: vec![] }),
            send(OxyMessage::TunnelData { reference: 6, data: vec![2, 3] })
        ]
    );
}

#[test]
fn connection_is_known_by_the_number_of_its_announcement() {
    let mut client = end("client");
    client.outgoing_ticker = 41;
    client.port_binds.insert(
        3,
        PortBind { remote_spec: "there:80".to_string(), local_spec: "8080".to_string() },
    );
    let (message, stream) = client.notify_bind(3);
    assert_eq!(message, OxyMessage::RemoteOpen { addr: "there:80".to_string() });
    assert_eq!(stream, PortStream { token: 41, local: true });
    assert_eq!(client.local_streams.get(&41), Some(&stream));
    assert_eq!(client.send(vec![0]).message_number, 41);
    let mut server = end("server");
    server.port_binds.insert(
        9,
        PortBind { remote_spec: "x".to_string(), local_spec: "y".to_string() },
    );
    assert_eq!(
        server.notify_bind(9),
        (
            OxyMessage::BindConnectionAccepted { reference: 9 },
            PortStream { token: 0, local: true }
        )
    );
}

#[test]
fn stream_data_goes_to_the_other_end() {
    let mut oxy = end("client");
    let here = PortStream { token: 1, local: true };
    let there = PortStream { token: 2, local: false };
    oxy.local_streams.insert(1, here);
    oxy.remote_streams.insert(2, there);
    assert_eq!(
        here.notify(&oxy, vec![7], false),
        vec![send(OxyMessage::RemoteStreamData { reference: 1, data: vec![7] })]
    );
    assert_eq!(
        here.notify(&oxy, vec![], true),
        vec![
            send(OxyMessage::RemoteStreamData { reference: 1, data: vec![] }),
            Action::CloseStream { token: 1, local: true },
            send(OxyMessage::RemoteStreamClosed { reference: 1 })
        ]
    );
    assert_eq!(
        there.notify(&oxy, vec![8], true),
        vec![
            send(OxyMessage::LocalStreamData { reference: 2, data: vec![8] }),
            Action::CloseStream { token: 2, local: false },
            send(OxyMessage::LocalStreamClosed { reference: 2 })
        ]
    );
    assert_eq!(
        there.notify(&oxy, vec![8], false),
        vec![send(OxyMessage::LocalStreamData { reference: 2, data: vec![8] })]
    );
}

#[test]
fn ui_messages_become_commands_and_keystrokes() {
    let mut oxy = end("client");
    assert_eq!(oxy.notify_ui(UiMessage::MetaCommand { parts: Vec::new() }), None);
    assert_eq!(
        oxy.notify_ui(UiMessage::MetaCommand { parts: vec!["ls".to_string()] }),
        Some(Action::HandleMetacommand(vec!["ls".to_string()]))
    );
    assert_eq!(oxy.notify_ui(UiMessage::RawInput { input: vec![3] }), None);
    oxy.active_pty = Some(12);
    assert_eq!(
        oxy.notify_ui(UiMessage::RawInput { input: vec![3] }),
        Some(send(OxyMessage::PtyInput { reference: 12, data: vec![3] }))
    );
}

#[test]
fn output_of_programs_is_sent() {
    let mut oxy = end("server");
    oxy.ptys.insert(5, 100);
    oxy.piped_children.insert(6);
    assert_eq!(
        oxy.notify_pty(5, vec![1]),
        Some(send(OxyMessage::PtyOutput { reference: 5, data: vec![1] }))
    );
    assert_eq!(oxy.notify_pty(5, vec![]), None);
    assert_eq!(
        oxy.notify_pty(4, vec![1]),
        Some(Action::Log {
            level: LogLevel::Warn,
            to_ui: false,
            message: "Invalid PTY Notification recieved".to_string()
        })
    );
    assert_eq!(
        oxy.notify_pipe_child(6, vec![1], vec![2]),
        Some(send(OxyMessage::PipeCommandOutput {
            reference: 6,
            stdout: vec![1],
            stderr: vec![2]
        }))
    );
    assert_eq!(oxy.notify_pipe_child(7, vec![1], vec![2]), None);
}

#[test]
fn new_window_size_is_advertised() {
    let name = "SIGWINCH".to_string();
    let mut oxy = end("client");
    assert_eq!(oxy.notify_signal(&name, &facts()), Vec::new());
    oxy.ui = true;
    assert_eq!(oxy.notify_signal(&name, &facts()), Vec::new());
    oxy.active_pty = Some(2);
    assert_eq!(
        oxy.notify_signal(&name, &facts()),
        vec![send(OxyMessage::PtySizeAdvertisement { reference: 2, w: 80, h: 24 })]
    );
    let mut server = end("server");
    server.ui = true;
    server.active_pty = Some(2);
    assert_eq!(server.notify_signal(&name, &facts()), Vec::new());
}

#[test]
fn exited_children_are_reported_and_forgotten() {
    let mut oxy = end("server");
    oxy.ptys.insert(1, 100);
    oxy.ptys.insert(2, 200);
    oxy.piped_children.insert(3);
    oxy.piped_children.insert(4);
    let mut found = facts();
    found.ptys = vec![
        PtyReport { reference: 2, exited: Some(7) },
        PtyReport { reference: 1, exited: None },
    ];
    found.children = vec![
        ChildReport { reference: 4, waited: true },
        ChildReport { reference: 3, waited: false },
    ];
    assert_eq!(oxy.notify_signal(&"SIGUSR1".to_string(), &found), Vec::new());
    assert_eq!(oxy.piped_children.len(), 2);
    assert_eq!(
        oxy.notify_signal(&"SIGCHLD".to_string(), &found),
        vec![
            Action::Log {
                level: LogLevel::Info,
                to_ui: false,
                message: "Received SIGCHLD".to_string()
            },
            send(OxyMessage::PtyExited { reference: 2, status: 7 }),
            send(OxyMessage::PipeCommandExited { reference: 4 })
        ]
    );
    assert_eq!(oxy.watched_children(), vec![3]);
    assert_eq!(oxy.ptys.len(), 2);
}

#[test]
fn every_child_is_watched_once() {
    let mut oxy = end("server");
    oxy.ptys.insert(1, 100);
    oxy.ptys.insert(2, 200);
    let mut watched = oxy.watched_ptys();
    watched.sort();
    assert_eq!(watched, vec![(1, 100), (2, 200)]);
    oxy.piped_children.insert(8);
    oxy.piped_children.insert(5);
    let mut children = oxy.watched_children();
    children.sort();
    assert_eq!(children, vec![5, 8]);
}

#[test]
fn two_signals_matter() {
    assert_eq!(signal_kind(&"SIGWINCH".to_string()), SignalKind::WindowChange);
    assert_eq!(signal_kind(&"SIGCHLD".to_string()), SignalKind::ChildChange);
    assert_eq!(signal_kind(&"SIGTERM".to_string()), SignalKind::Other);
}

#[test]
fn stdin_is_taken_in_pieces() {
    let mut oxy = end("client");
    assert_eq!(oxy.notify_pipe_stdin(true, false, 10), None);
    oxy.stdin_open = true;
    assert_eq!(oxy.notify_pipe_stdin(false, false, 10), None);
    assert_eq!(oxy.notify_pipe_stdin(true, false, 0), None);
    assert_eq!(oxy.notify_pipe_stdin(true, true, 0), Some(0));
    assert_eq!(oxy.notify_pipe_stdin(true, false, 8192), Some(8192));
    assert_eq!(oxy.notify_pipe_stdin(true, true, 8193), Some(8192));
}

#[test]
fn end_of_stdin_is_forwarded_once() {
    let mut oxy = end("client");
    oxy.stdin_open = true;
    oxy.pipecmd_reference = Some(3);
    let input = |data: &[u8]| {
        send(OxyMessage::PipeCommandInput { reference: 3, input: data.to_vec() })
    };
    assert_eq!(oxy.forward_stdin(true, vec![1]), input(&[1]));
    assert!(oxy.stdin_open);
    assert_eq!(oxy.forward_stdin(true, vec![]), input(&[]));
    assert!(!oxy.stdin_open);
    assert_eq!(oxy.notify_pipe_stdin(true, true, 0), None);
}

#[test]
fn send_hooks_stay_until_they_are_done() {
    let mut oxy = end("client");
    for hook in [10, 11, 12] {
        assert_eq!(oxy.push_send_hook(hook), Action::NotifyMainTransport);
    }
    oxy.push_send_hook(13);
    oxy.settle_send_hooks(&vec![10, 11, 12], &vec![false, true, false]);
    assert_eq!(oxy.send_hooks, vec![10, 12, 13]);
    oxy.settle_send_hooks(&vec![10, 12, 13], &vec![true, true, true]);
    assert_eq!(oxy.send_hooks, Vec::<u64>::new());
}

#[test]
fn hooks_that_were_run_take_their_place_again() {
    let mut oxy = end("client");
    oxy.send_hooks = vec![1, 3];
    oxy.settle_send_hooks(&vec![1, 2], &vec![false, false]);
    assert_eq!(oxy.send_hooks, vec![1, 2]);
}

#[test]
fn lost_connection_ends_the_program() {
    let mut oxy = end("client");
    oxy.ui = true;
    assert_eq!(
        oxy.notify_main_transport(TransportEvent::Notified { closed: true }),
        turn(
            vec![
                Action::BreakLine,
                Action::Log {
                    level: LogLevel::Info,
                    to_ui: true,
                    message: "Connection loss detected.".to_string()
                },
                Action::Stop(Fault::ConnectionLost)
            ],
            TransportNext::Rest
        )
    );
}

#[test]
fn unreadable_and_refused_messages_are_answered() {
    let mut oxy = end("client");
    let reject = |note: &str| {
        send(OxyMessage::Reject { reference: 5, note: note.to_string() })
    };
    assert_eq!(
        oxy.notify_main_transport(TransportEvent::Unreadable { message_number: 5 }),
        turn(vec![reject("Invalid message")], TransportNext::TakeChunk)
    );
    assert_eq!(
        oxy.notify_main_transport(TransportEvent::Handled {
            message_number: 5,
            refusal: Some("no".to_string())
        }),
        turn(vec![reject("no")], TransportNext::TakeChunk)
    );
    assert_eq!(
        oxy.notify_main_transport(TransportEvent::Handled { message_number: 5, refusal: None }),
        turn(Vec::new(), TransportNext::TakeChunk)
    );
}

#[test]
fn news_of_the_transport_are_gone_through_step_by_step() {
    let pattern = "Noise_NN_25519_ChaChaPoly_BLAKE2s";
    let mut client = end("client");
    let mut server = end("server");
    client.noise_session = Some(
        snow::Builder::new(pattern.parse().unwrap()).build_initiator().unwrap(),
    );
    server.noise_session = Some(
        snow::Builder::new(pattern.parse().unwrap()).build_responder().unwrap(),
    );
    let hello = client.encrypt(&[]).unwrap();
    server.decrypt(&hello).unwrap();
    let reply = server.encrypt(&[]).unwrap();
    client.decrypt(&reply).unwrap();
    client.noise_session = client.noise_session.map(|s| s.into_transport_mode().unwrap());
    server.noise_session = server.noise_session.map(|s| s.into_transport_mode().unwrap());

    server.transfers_out.push(TransferOut {
        reference: 8,
        current_position: 0,
        cutoff_position: 4,
    });
    server.send_hooks = vec![1, 2];
    server.stdin_open = true;
    server.pipecmd_reference = Some(6);
    let sent = client.send(vec![4; 300]);
    assert_eq!(
        server.notify_main_transport(TransportEvent::Notified { closed: false }),
        turn(Vec::new(), TransportNext::TakeChunk)
    );
    assert_eq!(
        server.notify_main_transport(TransportEvent::Chunk(Some(sent.frames[0].clone()))),
        turn(Vec::new(), TransportNext::TakeChunk)
    );
    assert_eq!(
        server.notify_main_transport(TransportEvent::Chunk(Some(sent.frames[1].clone()))),
        turn(
            Vec::new(),
            TransportNext::Handle { bytes: vec![4; 300], message_number: 0 }
        )
    );
    assert_eq!(
        server.notify_main_transport(TransportEvent::Chunk(None)),
        turn(Vec::new(), TransportNext::ReadFiles)
    );
    assert_eq!(
        server.notify_main_transport(TransportEvent::Files {
            has_write_space: true,
            reads: vec![vec![1, 2]]
        }),
        turn(
            vec![send(OxyMessage::FileData { reference: 8, data: vec![1, 2] })],
            TransportNext::LookAtStdin
        )
    );
    assert_eq!(
        server.notify_main_transport(TransportEvent::Stdin {
            has_write_space: true,
            closed: false,
            available: 9000
        }),
        turn(Vec::new(), TransportNext::TakeStdin { amount: 8192 })
    );
    assert_eq!(
        server.notify_main_transport(TransportEvent::StdinTaken {
            closed: false,
            input: vec![5; 3]
        }),
        turn(
            vec![send(OxyMessage::PipeCommandInput { reference: 6, input: vec![5; 3] })],
            TransportNext::RunHooks { hooks: vec![1, 2] }
        )
    );
    assert_eq!(
        server.notify_main_transport(TransportEvent::HooksRun {
            hooks: vec![1, 2],
            done: vec![true, false]
        }),
        turn(Vec::new(), TransportNext::Rest)
    );
    assert_eq!(server.send_hooks, vec![2]);
    assert_eq!(
        server.notify_main_transport(TransportEvent::Stdin {
            has_write_space: false,
            closed: true,
            available: 0
        }),
        turn(Vec::new(), TransportNext::RunHooks { hooks: vec![2] })
    );
    assert_eq!(
        server.notify_main_transport(TransportEvent::Chunk(Some(vec![0; 272]))),
        turn(vec![Action::Stop(Fault::DecryptionFailed)], TransportNext::Rest)
    );
}
