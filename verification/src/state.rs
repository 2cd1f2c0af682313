//! The state of one end of a connection, and the decisions that need no more than it.

use std::collections::{HashMap, HashSet};

use vstd::prelude::*;

use crate::action::{plan, Action, ActionView, Fault, LogLevel, Timer};
use crate::noise::{
    handshake_finished, noise_finished, noise_sending_nonce, receiving_half, sending_half,
};
use crate::transfer::TransferOut;

verus! {

/// Seconds between two signs of life.
pub const KEEPALIVE_SECONDS: u64 = 60;

/// Nanoseconds of silence after which the peer is given up.
pub const KEEPALIVE_LIMIT_NANOS: u128 = 180_000_000_000;

/// How many watchers are suspiciously many.
pub const WATCHER_ALERT: usize = 10;

/// A local port that is forwarded.
#[derive(Clone, Debug, PartialEq, Eq)]
pub struct PortBind {
    pub remote_spec: String,
    pub local_spec: String,
}

/// A forwarded connection: its token, and whether it was opened on this side.
#[derive(Clone, Copy, Debug, PartialEq, Eq, Structural)]
pub struct PortStream {
    pub token: u64,
    pub local: bool,
}

/// One end of a connection.
///
/// Hooks and watchers are callbacks of the program around the library, known here by number.
/// Streams, tunnels, terminals and child processes are known by their reference; the handles of
/// the operating system stay outside.
pub struct Oxy {
    /// Whether this end is the server; the other role is the client.
    pub is_server: bool,
    /// Whether the terminal is somebody else's business.
    pub is_daemon: bool,
    /// Whether `launch` has run.
    pub launched: bool,
    /// The name of the peer.
    pub peer_name: Option<String>,
    /// The Noise session, from the start of the handshake on.
    pub noise_session: Option<snow::Session>,
    /// The number of the next message to be sent.
    pub outgoing_ticker: u64,
    /// The number of the next message to be received.
    pub incoming_ticker: u64,
    /// Whether outgoing messages are compressed.
    pub outbound_compression: bool,
    /// Whether incoming messages are compressed.
    pub inbound_compression: bool,
    /// What has arrived of a message that is not complete yet.
    pub inbound_cleartext_buffer: Vec<u8>,
    /// When the peer was last heard of, in nanoseconds of a clock that never goes back.
    pub last_message_seen: u128,
    /// Files that are being sent.
    pub transfers_out: Vec<TransferOut>,
    /// Commands that wait for their turn.
    pub metacommand_queue: Vec<Vec<String>>,
    /// Callbacks for the moment the session is encrypted.
    pub post_auth_hooks: Vec<u64>,
    /// Callbacks that want to send; each stays until it reports that it is done.
    pub send_hooks: Vec<u64>,
    /// Callbacks that look at every incoming message.
    pub response_watchers: Vec<u64>,
    /// Whether there is a terminal UI.
    pub ui: bool,
    /// Whether standard input is being forwarded.
    pub stdin_open: bool,
    /// The piped command that standard input goes to.
    pub pipecmd_reference: Option<u64>,
    /// The pseudo terminal that keystrokes go to.
    pub active_pty: Option<u64>,
    /// Forwarded ports, by token.
    pub port_binds: HashMap<u64, PortBind>,
    /// Connections opened on this side, by token.
    pub local_streams: HashMap<u64, PortStream>,
    /// Connections opened on behalf of the peer, by token.
    pub remote_streams: HashMap<u64, PortStream>,
    /// Piped commands that run on this side.
    pub piped_children: HashSet<u64>,
    /// Process ids of the programs in pseudo terminals.
    pub ptys: HashMap<u64, i32>,
    /// Tunnels.
    pub tuntaps: HashSet<u64>,
}

/// The modes in which the program is a server.
pub open spec fn is_server_mode(mode: Seq<char>) -> bool {
    ||| mode == "server"@
    ||| mode == "serve-one"@
    ||| mode == "reexec"@
    ||| mode == "reverse-server"@
}

/// Whether two texts are the same.
pub(crate) fn same_text(a: &String, b: &str) -> (same: bool)
    ensures
        same == (a@ == b@),
{
    let other: String = b.to_owned();
    *a == other
}

impl Oxy {
    /// What sealing depends on, once there is a session.
    pub open spec fn sending_state(self) -> Seq<u8> {
        sending_half(self.noise_session->0)
    }

    /// What opening depends on, once there is a session.
    pub open spec fn receiving_state(self) -> Seq<u8> {
        receiving_half(self.noise_session->0)
    }

    /// Whether there is a session and its handshake is finished.
    pub open spec fn encrypted(self) -> bool {
        self.noise_session is Some && noise_finished(self.sending_state())
    }

    /// Whether there is a session and it was moved to transport mode.
    pub open spec fn in_transport_mode(self) -> bool {
        self.noise_session is Some && noise_sending_nonce(self.sending_state()) is Some
    }

    /// A log line, as the terminal UI or the logger gets it.
    pub open spec fn log_line(self, level: LogLevel, message: Seq<char>) -> ActionView {
        ActionView::Log { level, to_ui: self.ui, message }
    }

    /// Whether this is a fresh end of a connection.
    pub open spec fn is_fresh(self, mode: Seq<char>, now: u128) -> bool {
        &&& self.is_server == is_server_mode(mode)
        &&& !self.is_daemon && !self.launched
        &&& self.peer_name is None
        &&& self.noise_session is None
        &&& self.outgoing_ticker == 0 && self.incoming_ticker == 0
        &&& !self.outbound_compression && !self.inbound_compression
        &&& self.inbound_cleartext_buffer@.len() == 0
        &&& self.last_message_seen == now
        &&& self.transfers_out@.len() == 0
        &&& self.metacommand_queue@.len() == 0
        &&& self.post_auth_hooks@.len() == 0
        &&& self.send_hooks@.len() == 0
        &&& self.response_watchers@.len() == 0
        &&& !self.ui && !self.stdin_open
        &&& self.pipecmd_reference is None && self.active_pty is None
        &&& self.port_binds@ == Map::<u64, PortBind>::empty()
        &&& self.local_streams@ == Map::<u64, PortStream>::empty()
        &&& self.remote_streams@ == Map::<u64, PortStream>::empty()
        &&& self.piped_children@ == Set::<u64>::empty()
        &&& self.ptys@ == Map::<u64, i32>::empty()
        &&& self.tuntaps@ == Set::<u64>::empty()
    }

    /// A fresh end of a connection. `mode` is the mode the program runs in, `now` the time on
    /// the clock of `last_message_seen`.
    pub fn create(mode: &String, now: u128) -> (created: (Oxy, Vec<Action>))
        ensures
            created.0.is_fresh(mode@, now),
            plan(created.1@) == seq![
                ActionView::SetTimeout { timer: Timer::Keepalive, seconds: KEEPALIVE_SECONDS },
                ActionView::SetTimeout { timer: Timer::Launch, seconds: 0 },
            ],
    {
        let is_server: bool = same_text(mode, "server") || same_text(mode, "serve-one")
            || same_text(mode, "reexec") || same_text(mode, "reverse-server");
        let oxy = Oxy {
            is_server,
            is_daemon: false,
            launched: false,
            peer_name: None,
            noise_session: None,
            outgoing_ticker: 0,
            incoming_ticker: 0,
            outbound_compression: false,
            inbound_compression: false,
            inbound_cleartext_buffer: Vec::new(),
            last_message_seen: now,
            transfers_out: Vec::new(),
            metacommand_queue: Vec::new(),
            post_auth_hooks: Vec::new(),
            send_hooks: Vec::new(),
            response_watchers: Vec::new(),
            ui: false,
            stdin_open: false,
            pipecmd_reference: None,
            active_pty: None,
            port_binds: HashMap::new(),
            local_streams: HashMap::new(),
            remote_streams: HashMap::new(),
            piped_children: HashSet::new(),
            ptys: HashMap::new(),
            tuntaps: HashSet::new(),
        };
        let actions: Vec<Action> = vec![
            Action::SetTimeout { timer: Timer::Keepalive, seconds: KEEPALIVE_SECONDS },
            Action::SetTimeout { timer: Timer::Launch, seconds: 0 },
        ];
        assert(plan(actions@) =~= seq![
            ActionView::SetTimeout { timer: Timer::Keepalive, seconds: KEEPALIVE_SECONDS },
            ActionView::SetTimeout { timer: Timer::Launch, seconds: 0 },
        ]);
        (oxy, actions)
    }

    /// Whether this end is the server.
    pub fn is_server(&self) -> (server: bool)
        ensures
            server == self.is_server,
    {
        self.is_server
    }

    /// Whether this end is the client.
    pub fn is_client(&self) -> (client: bool)
        ensures
            client == !self.is_server,
    {
        !self.is_server()
    }

    /// Whether this end may receive what only a client may.
    pub open spec fn as_client(self) -> Result<(), Fault> {
        if self.is_server {
            Err(Fault::NotAClient)
        } else {
            Ok(())
        }
    }

    /// Whether this end may receive what only a server may.
    pub open spec fn as_server(self) -> Result<(), Fault> {
        if self.is_server {
            Ok(())
        } else {
            Err(Fault::NotAServer)
        }
    }

    /// Guards what only a client may receive.
    pub fn client_only(&self) -> (allowed: Result<(), Fault>)
        ensures
            allowed == self.as_client(),
    {
        if !self.is_client() {
            return Err(Fault::NotAClient);
        }
        Ok(())
    }

    /// Guards what only a server may receive.
    pub fn server_only(&self) -> (allowed: Result<(), Fault>)
        ensures
            allowed == self.as_server(),
    {
        if !self.is_server() {
            return Err(Fault::NotAServer);
        }
        Ok(())
    }

    /// The name of the peer, if one was set.
    pub fn peer(&self) -> (name: Option<String>)
        ensures
            name == self.peer_name,
    {
        match &self.peer_name {
            Some(name) => Some(name.clone()),
            None => None,
        }
    }

    /// Sets the name of the peer.
    pub fn set_peer_name(&mut self, name: &str)
        ensures
            final(self).peer_name is Some,
            final(self).peer_name->0@ == name@,
            *final(self) == (Oxy { peer_name: final(self).peer_name, ..*old(self) }),
    {
        self.peer_name = Some(name.to_owned());
    }

    /// Leaves the terminal alone from now on.
    pub fn set_daemon(&mut self)
        ensures
            *final(self) == (Oxy { is_daemon: true, ..*old(self) }),
    {
        self.is_daemon = true;
    }

    /// Whether the key exchange is complete.
    pub fn is_encrypted(&self) -> (encrypted: bool)
        ensures
            encrypted == self.encrypted(),
    {
        match &self.noise_session {
            Some(session) => handshake_finished(session),
            None => false,
        }
    }

    /// What it takes to have a callback run once the session is encrypted: `self` is the state
    /// before it, `after` the one behind it.
    pub open spec fn waits_for_keys(self, callback: u64, now: Option<Action>, after: Oxy) -> bool {
        &&& self.encrypted() ==> now == Some(Action::RunHook(callback)) && after == self
        &&& !self.encrypted() ==> now is None && after.post_auth_hooks@
            == self.post_auth_hooks@.push(callback)
        &&& after == (Oxy { post_auth_hooks: after.post_auth_hooks, ..self })
    }

    /// Has a callback run once the session is encrypted: at once, where it already is.
    pub fn push_post_auth_hook(&mut self, callback: u64) -> (now: Option<Action>)
        ensures
            old(self).waits_for_keys(callback, now, *final(self)),
    {
        if self.is_encrypted() {
            Some(Action::RunHook(callback))
        } else {
            self.post_auth_hooks.push(callback);
            None
        }
    }

    /// What it takes to have a callback look at every incoming message: `self` is the state before
    /// it, `after` the one behind it.
    pub open spec fn watches(self, callback: u64, warning: Option<Action>, after: Oxy) -> bool {
        &&& warning is Some <==> self.response_watchers@.len() >= WATCHER_ALERT
        &&& warning matches Some(line) ==> line@ == (ActionView::Log {
            level: LogLevel::Debug,
            to_ui: false,
            message: "Potential response watcher accumulation detected."@,
        })
        &&& after.response_watchers@ == self.response_watchers@.push(callback)
        &&& after == (Oxy { response_watchers: after.response_watchers, ..self })
    }

    /// Has a callback look at every incoming message. Warns in the log where callbacks pile up.
    pub fn watch(&mut self, callback: u64) -> (warning: Option<Action>)
        ensures
            old(self).watches(callback, warning, *final(self)),
    {
        let warning: Option<Action> = if self.response_watchers.len() >= WATCHER_ALERT {
            Some(
                Action::Log {
                    level: LogLevel::Debug,
                    to_ui: false,
                    message: "Potential response watcher accumulation detected.".to_owned(),
                },
            )
        } else {
            None
        };
        self.response_watchers.push(callback);
        warning
    }

    /// What putting a command into the queue does: `self` is the state before it, `after` the one
    /// behind it.
    pub open spec fn queued(self, command: Vec<String>, after: Oxy) -> bool {
        &&& after.metacommand_queue@ == self.metacommand_queue@.push(command)
        &&& after == (Oxy { metacommand_queue: after.metacommand_queue, ..self })
    }

    /// What taking a command from the queue does: `self` is the state before it, `after` the one
    /// behind it.
    pub open spec fn popped(self, next: Option<Action>, after: Oxy) -> bool {
        &&& self.metacommand_queue@.len() == 0 ==> next is None && after == self
        &&& self.metacommand_queue@.len() > 0 ==> next == Some(
            Action::HandleMetacommand(self.metacommand_queue@[0]),
        ) && after.metacommand_queue@ == self.metacommand_queue@.remove(0)
        &&& after == (Oxy { metacommand_queue: after.metacommand_queue, ..self })
    }

    /// Puts a command at the end of the queue.
    pub fn queue_metacommand(&mut self, command: Vec<String>)
        ensures
            old(self).queued(command, *final(self)),
    {
        self.metacommand_queue.push(command);
    }

    /// Takes the command at the front of the queue, to be carried out.
    pub fn pop_metacommand(&mut self) -> (next: Option<Action>)
        ensures
            old(self).popped(next, *final(self)),
    {
        if self.metacommand_queue.is_empty() {
            None
        } else {
            Some(Action::HandleMetacommand(self.metacommand_queue.remove(0)))
        }
    }

    /// Takes the number for the next outgoing message.
    pub fn tick_outgoing(&mut self) -> (message_number: u64)
        requires
            old(self).outgoing_ticker < u64::MAX,
        ensures
            message_number == old(self).outgoing_ticker,
            *final(self) == (Oxy {
                outgoing_ticker: (message_number + 1) as u64,
                ..*old(self)
            }),
    {
        let message_number: u64 = self.outgoing_ticker;
        self.outgoing_ticker = message_number + 1;
        message_number
    }

    /// Takes the number for the message that has just arrived.
    pub fn tick_incoming(&mut self) -> (message_number: u64)
        requires
            old(self).incoming_ticker < u64::MAX,
        ensures
            message_number == old(self).incoming_ticker,
            *final(self) == (Oxy {
                incoming_ticker: (message_number + 1) as u64,
                ..*old(self)
            }),
    {
        let message_number: u64 = self.incoming_ticker;
        self.incoming_ticker = message_number + 1;
        message_number
    }

    /// Shows progress on the terminal UI, where there is one.
    pub fn paint_progress_bar(&self, progress: u64, bytes: u64) -> (painted: Option<Action>)
        ensures
            painted == (if self.ui {
                Some(Action::PaintProgressBar { progress, bytes })
            } else {
                None
            }),
    {
        if self.ui {
            Some(Action::PaintProgressBar { progress, bytes })
        } else {
            None
        }
    }

    /// Logs to the terminal UI where there is one, else to the logger.
    pub fn log_info(&self, message: &str) -> (line: Action)
        ensures
            line@ == self.log_line(LogLevel::Info, message@),
    {
        Action::Log { level: LogLevel::Info, to_ui: self.ui, message: message.to_owned() }
    }

    /// Logs to the terminal UI where there is one, else to the logger.
    pub fn log_debug(&self, message: &str) -> (line: Action)
        ensures
            line@ == self.log_line(LogLevel::Debug, message@),
    {
        Action::Log { level: LogLevel::Debug, to_ui: self.ui, message: message.to_owned() }
    }

    /// Logs to the terminal UI where there is one, else to the logger.
    pub fn log_warn(&self, message: &str) -> (line: Action)
        ensures
            line@ == self.log_line(LogLevel::Warn, message@),
    {
        Action::Log { level: LogLevel::Warn, to_ui: self.ui, message: message.to_owned() }
    }
}

} // verus!
