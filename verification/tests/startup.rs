use oxy::action::{Action, Fault, LogLevel, Timer};
use oxy::arguments::{
    command_or_stop, init_tuntap, run_batched_metacommands, split_tunnel, Arguments, Terminal,
};
use oxy::message::OxyMessage;
use oxy::startup::{PostAuthStep, PostAuthTurn};
use oxy::state::Oxy;

fn words(list: &[&str]) -> Vec<String> {
    list.iter().map(|w| w.to_string()).collect()
}

fn command(list: &[&str]) -> Action {
    Action::HandleMetacommand(words(list))
}

fn arguments() -> Arguments {
    Arguments {
        mode: "client".to_string(),
        compression: false,
        user: None,
        batched_metacommands: Vec::new(),
        local_port_forward: Vec::new(),
        remote_port_forward: Vec::new(),
        socks: Vec::new(),
        tun: Vec::new(),
        tap: Vec::new(),
        command: None,
    }
}

/// Takes all steps after a key exchange, and lists their actions.
fn post_auth(oxy: &mut Oxy, asked: &Arguments, terminal: &Terminal) -> Vec<Action> {
    let mut actions = Vec::new();
    let mut step = Some(PostAuthStep::Queue);
    while let Some(now) = step {
        let turn = oxy.do_post_auth(now, asked, terminal);
        actions.extend(turn.actions);
        step = turn.next;
    }
    actions
}

fn end(mode: &str) -> Oxy {
    Oxy::create(&mode.to_string(), 1000).0
}

fn terminal() -> Terminal {
    Terminal { interactive: true, term: Some("xterm".to_string()) }
}

fn no_terminal() -> Terminal {
    Terminal { interactive: false, term: Some("xterm".to_string()) }
}

#[test]
fn mode_decides_the_role() {
    for mode in ["server", "serve-one", "reexec", "reverse-server"] {
        let oxy = end(mode);
        assert!(oxy.is_server() && !oxy.is_client());
        assert_eq!(oxy.server_only(), Ok(()));
        assert_eq!(oxy.client_only(), Err(Fault::NotAClient));
    }
    for mode in ["client", "copy", "reverse-client", "", "Server"] {
        let oxy = end(mode);
        assert!(oxy.is_client() && !oxy.is_server());
        assert_eq!(oxy.client_only(), Ok(()));
        assert_eq!(oxy.server_only(), Err(Fault::NotAServer));
    }
}

#[test]
fn creation_sets_two_timers() {
    let (oxy, actions) = Oxy::create(&"client".to_string(), 42);
    assert_eq!(
        actions,
        vec![
            Action::SetTimeout { timer: Timer::Keepalive, seconds: 60 },
            Action::SetTimeout { timer: Timer::Launch, seconds: 0 }
        ]
    );
    assert_eq!(oxy.last_message_seen, 42);
    assert!(!oxy.launched && !oxy.is_encrypted() && oxy.peer().is_none());
    assert_eq!((oxy.outgoing_ticker, oxy.incoming_ticker), (0, 0));
}

#[test]
fn peer_has_the_name_it_was_given() {
    let mut oxy = end("client");
    oxy.set_peer_name("example");
    assert_eq!(oxy.peer(), Some("example".to_string()));
    oxy.set_peer_name("other");
    assert_eq!(oxy.peer(), Some("other".to_string()));
}

#[test]
fn numbers_follow_on_each_other() {
    let mut oxy = end("client");
    assert_eq!((oxy.tick_outgoing(), oxy.tick_outgoing(), oxy.tick_outgoing()), (0, 1, 2));
    assert_eq!((oxy.tick_incoming(), oxy.tick_incoming()), (0, 1));
}

#[test]
fn commands_come_out_in_order() {
    let mut oxy = end("client");
    assert_eq!(oxy.pop_metacommand(), None);
    oxy.queue_metacommand(words(&["a"]));
    oxy.queue_metacommand(words(&["b", "c"]));
    assert_eq!(oxy.pop_metacommand(), Some(command(&["a"])));
    assert_eq!(oxy.pop_metacommand(), Some(command(&["b", "c"])));
    assert_eq!(oxy.pop_metacommand(), None);
}

#[test]
fn client_launches_by_advertising_its_key() {
    let mut oxy = end("client");
    assert_eq!(oxy.launch(), vec![Action::PushExitHook, Action::AdvertiseClientKey]);
    assert!(oxy.launched);
}

#[test]
fn launched_session_stays_launched() {
    let mut oxy = end("server");
    oxy.launch();
    oxy.send(vec![1]);
    post_auth(&mut oxy, &arguments(), &terminal());
    assert!(oxy.launched);
}

#[test]
fn server_launches_by_waiting_for_the_handshake() {
    let mut oxy = end("server");
    assert_eq!(
        oxy.launch(),
        vec![
            Action::PushExitHook,
            Action::WatchHandshake,
            Action::FinishServerHandshake
        ]
    );
}

#[test]
fn exit_puts_everything_back() {
    let mut oxy = end("client");
    assert_eq!(oxy.exit_hook(), vec![Action::SayGoodbye]);
    oxy.ui = true;
    oxy.ptys.insert(4, 321);
    assert_eq!(
        oxy.exit_hook(),
        vec![
            Action::CookUi,
            Action::Terminate { pid: 321 },
            Action::SayGoodbye
        ]
    );
    oxy.set_daemon();
    assert_eq!(oxy.exit_hook(), vec![Action::CookUi, Action::Terminate { pid: 321 }]);
    assert_eq!(end("server").exit_hook(), Vec::new());
    assert_eq!(end("server").exit_actions(Some(5)), vec![Action::Terminate { pid: 5 }]);
}

#[test]
fn exit_takes_down_one_of_several_programs() {
    let mut oxy = end("server");
    oxy.ptys.insert(1, 11);
    oxy.ptys.insert(2, 12);
    let actions = oxy.exit_hook();
    assert!(
        actions == vec![Action::Terminate { pid: 11 }]
            || actions == vec![Action::Terminate { pid: 12 }]
    );
}

#[test]
fn only_a_client_with_a_terminal_has_a_ui() {
    let mut client = end("client");
    assert_eq!(client.create_ui(false), None);
    assert!(!client.ui);
    assert_eq!(client.create_ui(true), Some(Action::CreateUi));
    assert!(client.ui);
    let mut server = end("server");
    assert_eq!(server.create_ui(true), None);
    assert!(!server.ui);
}

#[test]
fn compression_is_not_for_daemons_that_forward() {
    let request = Some(Action::Send(OxyMessage::CompressionRequest { compression_type: 0 }));
    let mut oxy = end("client");
    let mut asked = arguments();
    assert_eq!(oxy.activate_compression(&asked), None);
    asked.compression = true;
    assert_eq!(oxy.activate_compression(&asked), request);
    oxy.set_daemon();
    assert_eq!(oxy.activate_compression(&asked), None);
    asked.mode = "copy".to_string();
    assert_eq!(oxy.activate_compression(&asked), request);
}

#[test]
fn tunnel_has_one_name_or_two() {
    let split = |text: &str| split_tunnel(&text.to_string());
    let pair = |a: &str, b: &str| (a.to_string(), b.to_string());
    assert_eq!(split("tun0"), pair("tun0", "tun0"));
    assert_eq!(split("tun0:tun1"), pair("tun0", "tun1"));
    assert_eq!(split("a:b:c"), pair("a", "b"));
    assert_eq!(split(":b"), pair("", "b"));
    assert_eq!(split("a:"), pair("a", ""));
    assert_eq!(split(""), pair("", ""));
    assert_eq!(split("gr\u{fc}n:\u{e9}t\u{e9}"), pair("gr\u{fc}n", "\u{e9}t\u{e9}"));
}

#[test]
fn tunnels_become_commands() {
    let mut asked = arguments();
    asked.tap = words(&["x"]);
    asked.tun = words(&["a:b", "c"]);
    assert_eq!(
        init_tuntap(&asked),
        vec![
            command(&["tun", "a", "b"]),
            command(&["tun", "c", "c"]),
            command(&["tap", "x", "x"])
        ]
    );
}

#[test]
fn command_line_is_carried_out_in_order() {
    let mut asked = arguments();
    asked.user = Some("me".to_string());
    asked.batched_metacommands = words(&["ls 'a b' c", "pwd"]);
    asked.local_port_forward = words(&["1:2", "3:4"]);
    asked.remote_port_forward = words(&["5:6"]);
    asked.socks = words(&["7"]);
    asked.tun = words(&["t"]);
    assert_eq!(
        run_batched_metacommands(&asked),
        vec![
            Action::Send(OxyMessage::UsernameAdvertisement { username: "me".to_string() }),
            command(&["ls", "a b", "c"]),
            command(&["pwd"]),
            command(&["L", "1:2"]),
            command(&["L", "3:4"]),
            command(&["R", "5:6"]),
            command(&["D", "7"]),
            command(&["tun", "t", "t"])
        ]
    );
}

#[test]
fn line_becomes_a_command_or_the_end() {
    assert_eq!(command_or_stop(Some(words(&["a", "b"]))), command(&["a", "b"]));
    assert_eq!(command_or_stop(None), Action::Stop(Fault::UnsplittableCommand));
}

#[test]
fn command_with_an_open_quotation_ends_it() {
    let mut asked = arguments();
    asked.batched_metacommands = words(&["good", "bad 'one", "never"]);
    asked.socks = words(&["7"]);
    assert_eq!(
        run_batched_metacommands(&asked),
        vec![command(&["good"]), Action::Stop(Fault::UnsplittableCommand)]
    );
}

#[test]
fn client_with_a_terminal_asks_for_a_pseudo_terminal() {
    let mut oxy = end("client");
    oxy.queue_metacommand(words(&["queued"]));
    assert_eq!(oxy.push_post_auth_hook(5), None);
    assert_eq!(oxy.push_post_auth_hook(3), None);
    let mut asked = arguments();
    asked.compression = true;
    asked.socks = words(&["7"]);
    asked.command = Some(words(&["top", "-b"]));
    assert_eq!(
        post_auth(&mut oxy, &asked, &terminal()),
        vec![
            command(&["queued"]),
            Action::Send(OxyMessage::CompressionRequest { compression_type: 0 }),
            command(&["D", "7"]),
            Action::Send(OxyMessage::EnvironmentAdvertisement {
                key: "TERM".to_string(),
                value: "xterm".to_string()
            }),
            command(&["pty", "--", "top", "-b"]),
            Action::CreateUi,
            Action::RegisterSignalHandler,
            Action::RunHook(5),
            Action::RunHook(3)
        ]
    );
    assert!(oxy.ui && !oxy.stdin_open && oxy.metacommand_queue.is_empty());
    assert!(oxy.post_auth_hooks.is_empty());
}

#[test]
fn steps_after_the_key_exchange_see_what_the_earlier_ones_did() {
    let mut oxy = end("client");
    oxy.queue_metacommand(words(&["queued"]));
    let mut asked = arguments();
    asked.compression = true;
    asked.socks = words(&["7"]);
    assert_eq!(
        oxy.do_post_auth(PostAuthStep::Queue, &asked, &terminal()),
        PostAuthTurn {
            actions: vec![command(&["queued"])],
            next: Some(PostAuthStep::CommandLine)
        }
    );
    oxy.set_daemon();
    assert_eq!(
        oxy.do_post_auth(PostAuthStep::CommandLine, &asked, &terminal()),
        PostAuthTurn { actions: Vec::new(), next: Some(PostAuthStep::Hooks) }
    );
    assert!(!oxy.ui);
    oxy.push_post_auth_hook(6);
    assert_eq!(
        oxy.do_post_auth(PostAuthStep::Hooks, &asked, &terminal()),
        PostAuthTurn {
            actions: vec![Action::RegisterSignalHandler, Action::RunHook(6)],
            next: None
        }
    );
}

#[test]
fn ui_comes_after_the_terminal() {
    let mut oxy = end("client");
    let turn = oxy.do_post_auth(PostAuthStep::Attachment, &arguments(), &terminal());
    assert_eq!(turn.next, Some(PostAuthStep::CreateUi));
    assert!(!oxy.ui);
    let turn = oxy.do_post_auth(PostAuthStep::CreateUi, &arguments(), &terminal());
    assert_eq!(turn.actions, vec![Action::CreateUi]);
    assert!(oxy.ui);
}

#[test]
fn hooks_are_not_run_again() {
    let mut oxy = end("server");
    oxy.push_post_auth_hook(5);
    assert_eq!(
        post_auth(&mut oxy, &arguments(), &terminal()),
        vec![Action::RegisterSignalHandler, Action::RunHook(5)]
    );
    assert_eq!(
        post_auth(&mut oxy, &arguments(), &terminal()),
        vec![Action::RegisterSignalHandler]
    );
}

#[test]
fn terminal_of_unknown_kind_is_not_advertised() {
    let mut oxy = end("client");
    let unknown = Terminal { interactive: true, term: None };
    assert_eq!(
        post_auth(&mut oxy, &arguments(), &unknown),
        vec![
            command(&["pty", "--"]),
            Action::CreateUi,
            Action::RegisterSignalHandler
        ]
    );
}

#[test]
fn client_without_a_terminal_pipes_its_command() {
    let mut oxy = end("client");
    let mut asked = arguments();
    asked.command = Some(words(&["cat"]));
    assert_eq!(
        post_auth(&mut oxy, &asked, &no_terminal()),
        vec![
            Action::WatchStdin,
            command(&["pipe", "--", "cat"]),
            Action::RegisterSignalHandler
        ]
    );
    assert!(oxy.stdin_open && !oxy.ui);
    let mut idle = end("client");
    assert_eq!(
        post_auth(&mut idle, &arguments(), &no_terminal()),
        vec![Action::RegisterSignalHandler]
    );
    assert!(!idle.stdin_open);
}

#[test]
fn daemon_leaves_the_terminal_alone() {
    let mut oxy = end("client");
    oxy.set_daemon();
    oxy.queue_metacommand(words(&["queued"]));
    let mut asked = arguments();
    asked.user = Some("me".to_string());
    assert_eq!(
        post_auth(&mut oxy, &asked, &terminal()),
        vec![command(&["queued"]), Action::RegisterSignalHandler]
    );
    assert!(!oxy.ui);
}

#[test]
fn server_only_runs_its_hooks() {
    let mut oxy = end("server");
    oxy.queue_metacommand(words(&["queued"]));
    oxy.push_post_auth_hook(1);
    assert_eq!(
        post_auth(&mut oxy, &arguments(), &terminal()),
        vec![Action::RegisterSignalHandler, Action::RunHook(1)]
    );
    assert_eq!(oxy.metacommand_queue.len(), 1);
}

#[test]
fn derailed_client_runs_no_hook() {
    let mut oxy = end("client");
    oxy.push_post_auth_hook(1);
    let mut asked = arguments();
    asked.batched_metacommands = words(&["\"open"]);
    assert_eq!(
        post_auth(&mut oxy, &asked, &terminal()),
        vec![Action::Stop(Fault::UnsplittableCommand)]
    );
    assert_eq!(oxy.post_auth_hooks, vec![1]);
}

#[test]
fn hook_of_an_encrypted_session_runs_at_once() {
    let mut oxy = end("client");
    let mut one = snow::Builder::new("Noise_NN_25519_ChaChaPoly_BLAKE2s".parse().unwrap())
        .build_initiator()
        .unwrap();
    let mut two = snow::Builder::new("Noise_NN_25519_ChaChaPoly_BLAKE2s".parse().unwrap())
        .build_responder()
        .unwrap();
    let mut message = vec![0; 65535];
    let mut payload = vec![0; 65535];
    let n = one.write_message(&[], &mut message).unwrap();
    two.read_message(&message[..n], &mut payload).unwrap();
    let n = two.write_message(&[], &mut message).unwrap();
    one.read_message(&message[..n], &mut payload).unwrap();
    oxy.noise_session = Some(one);
    assert_eq!(oxy.push_post_auth_hook(8), Some(Action::RunHook(8)));
    assert!(oxy.post_auth_hooks.is_empty());
}

#[test]
fn silent_peer_is_given_up_after_three_minutes() {
    let oxy = end("client");
    let limit: u128 = 180_000_000_000;
    let alive = vec![
        Action::Send(OxyMessage::Ping),
        Action::SetTimeout { timer: Timer::Keepalive, seconds: 60 },
    ];
    assert_eq!(oxy.notify_keepalive(1000), alive);
    assert_eq!(oxy.notify_keepalive(0), alive);
    assert_eq!(oxy.notify_keepalive(1000 + limit), alive);
    assert_eq!(
        oxy.notify_keepalive(1001 + limit),
        vec![Action::Stop(Fault::KeepaliveExpired)]
    );
}

#[test]
fn log_lines_go_to_the_ui_where_there_is_one() {
    let mut oxy = end("client");
    let line = |level, to_ui| Action::Log { level, to_ui, message: "text".to_string() };
    assert_eq!(oxy.log_info("text"), line(LogLevel::Info, false));
    assert_eq!(oxy.paint_progress_bar(10, 20), None);
    oxy.ui = true;
    assert_eq!(oxy.log_info("text"), line(LogLevel::Info, true));
    assert_eq!(oxy.log_debug("text"), line(LogLevel::Debug, true));
    assert_eq!(oxy.log_warn("text"), line(LogLevel::Warn, true));
    assert_eq!(
        oxy.paint_progress_bar(10, 20),
        Some(Action::PaintProgressBar { progress: 10, bytes: 20 })
    );
}

#[test]
fn watchers_are_kept_in_order() {
    let mut oxy = end("client");
    assert_eq!(oxy.watch(4), None);
    assert_eq!(oxy.watch(2), None);
    assert_eq!(oxy.response_watchers, vec![4, 2]);
    for watcher in 10..18 {
        assert_eq!(oxy.watch(watcher), None);
    }
    assert_eq!(
        oxy.watch(99),
        Some(Action::Log {
            level: LogLevel::Debug,
            to_ui: false,
            message: "Potential response watcher accumulation detected.".to_string()
        })
    );
    assert_eq!(oxy.response_watchers.len(), 11);
}

#[test]
fn news_come_before_what_follows_the_key_exchange() {
    assert_eq!(
        end("client").upgrade_to_encrypted(),
        vec![
            Action::WatchMainTransport,
            Action::NotifyMainTransport,
            Action::DoPostAuth
        ]
    );
}
