//! What the library asks of the program around it.
//!
//! The library decides; the program around it reads, writes, waits and prints. A decision is
//! handed over as a list of actions, which are to be carried out in order.
//!
//! A `Log` action is a line that a decision calls for. What the program notes about its own course
//! at debug and trace level it writes where it carries the actions out.

use vstd::prelude::*;

use crate::message::{MessageView, OxyMessage};
use crate::words::texts;

verus! {

/// Why a session cannot go on.
#[derive(Clone, Copy, Debug, PartialEq, Eq, Structural)]
pub enum Fault {
    /// The peer sent a message that only a server may send to a client, and this is a server.
    NotAClient,
    /// The peer sent a message that only a client may send to a server, and this is a client.
    NotAServer,
    /// A message was to be sent before the key exchange was complete.
    SentBeforeKeyExchange,
    /// A frame could not be sealed.
    EncryptionFailed,
    /// A frame could not be opened.
    DecryptionFailed,
    /// An opened frame has the wrong size.
    IncorrectFrameLength,
    /// The session has no nonce left, or its handshake is over but it was not moved to transport
    /// mode.
    SessionSpent,
    /// A message could not be decompressed.
    DecompressionFailed,
    /// A batched command has an open quotation.
    UnsplittableCommand,
    /// Nothing was heard from the peer for too long.
    KeepaliveExpired,
    /// The connection is gone.
    ConnectionLost,
}

/// How the program ends on a fault.
#[derive(Clone, Copy, Debug, PartialEq, Eq, Structural)]
pub enum Ending {
    /// It exits with this status; the exit hooks run first.
    Exit { status: i32 },
    /// It exits with this status at once.
    ExitAtOnce { status: i32 },
    /// It panics.
    Panic,
}

impl Fault {
    /// How the program ends on this fault.
    pub open spec fn spec_ending(self) -> Ending {
        match self {
            Fault::SentBeforeKeyExchange => Ending::Exit { status: 1 },
            Fault::KeepaliveExpired => Ending::Exit { status: 2 },
            Fault::ConnectionLost => Ending::Exit { status: 0 },
            Fault::SessionSpent | Fault::DecompressionFailed | Fault::UnsplittableCommand =>
                Ending::Panic,
            _ => Ending::ExitAtOnce { status: 1 },
        }
    }

    /// How the program ends on this fault.
    pub fn ending(&self) -> (ending: Ending)
        ensures
            ending == self.spec_ending(),
    {
        match self {
            Fault::SentBeforeKeyExchange => Ending::Exit { status: 1 },
            Fault::KeepaliveExpired => Ending::Exit { status: 2 },
            Fault::ConnectionLost => Ending::Exit { status: 0 },
            Fault::SessionSpent | Fault::DecompressionFailed | Fault::UnsplittableCommand =>
                Ending::Panic,
            _ => Ending::ExitAtOnce { status: 1 },
        }
    }
}

/// How much a log line matters.
#[derive(Clone, Copy, Debug, PartialEq, Eq, Structural)]
pub enum LogLevel {
    Debug,
    Info,
    Warn,
}

/// The things that happen later.
#[derive(Clone, Copy, Debug, PartialEq, Eq, Structural)]
pub enum Timer {
    Launch,
    Keepalive,
}

/// One thing to be done.
#[derive(Clone, Debug, PartialEq, Eq)]
pub enum Action {
    /// Serialize the message and send it.
    Send(OxyMessage),
    /// Carry out a command that is meant for this side.
    HandleMetacommand(Vec<String>),
    /// Show progress, in thousandths, and how many bytes went since the last time.
    PaintProgressBar { progress: u64, bytes: u64 },
    /// Write a log line, to the terminal UI or to the logger.
    Log { level: LogLevel, to_ui: bool, message: String },
    /// Call back after so many seconds.
    SetTimeout { timer: Timer, seconds: u64 },
    /// Run a hook.
    RunHook(u64),
    /// Close the connection of a stream.
    CloseStream { token: u64, local: bool },
    /// Create the terminal UI and be notified of its messages.
    CreateUi,
    /// Wrap standard input and be notified of its data.
    WatchStdin,
    /// Be notified of signals.
    RegisterSignalHandler,
    /// Have the exit hook run when the program exits.
    PushExitHook,
    /// Start the handshake as a client.
    AdvertiseClientKey,
    /// Let the handshake go on whenever the transport has news.
    WatchHandshake,
    /// Take the handshake as far as it goes, as a server.
    FinishServerHandshake,
    /// Go through the news of the main transport whenever it has some.
    WatchMainTransport,
    /// Go through the news of the main transport.
    NotifyMainTransport,
    /// Do what follows the key exchange.
    DoPostAuth,
    /// Put the terminal back into its ordinary mode.
    CookUi,
    /// Send SIGTERM to a process.
    Terminate { pid: i32 },
    /// Say that the client is leaving.
    SayGoodbye,
    /// Start a new line on the terminal.
    BreakLine,
    /// End the program.
    Stop(Fault),
}

/// An action with its texts and data as sequences.
pub enum ActionView {
    Send(MessageView),
    HandleMetacommand(Seq<Seq<char>>),
    PaintProgressBar { progress: u64, bytes: u64 },
    Log { level: LogLevel, to_ui: bool, message: Seq<char> },
    SetTimeout { timer: Timer, seconds: u64 },
    RunHook(u64),
    CloseStream { token: u64, local: bool },
    CreateUi,
    WatchStdin,
    RegisterSignalHandler,
    PushExitHook,
    AdvertiseClientKey,
    WatchHandshake,
    FinishServerHandshake,
    WatchMainTransport,
    NotifyMainTransport,
    DoPostAuth,
    CookUi,
    Terminate { pid: i32 },
    SayGoodbye,
    BreakLine,
    Stop(Fault),
}

impl View for Action {
    type V = ActionView;

    open spec fn view(&self) -> ActionView {
        match *self {
            Action::Send(message) => ActionView::Send(message@),
            Action::HandleMetacommand(parts) => ActionView::HandleMetacommand(texts(parts@)),
            Action::PaintProgressBar { progress, bytes } => ActionView::PaintProgressBar {
                progress,
                bytes,
            },
            Action::Log { level, to_ui, message } => ActionView::Log {
                level,
                to_ui,
                message: message@,
            },
            Action::SetTimeout { timer, seconds } => ActionView::SetTimeout { timer, seconds },
            Action::RunHook(hook) => ActionView::RunHook(hook),
            Action::CloseStream { token, local } => ActionView::CloseStream { token, local },
            Action::CreateUi => ActionView::CreateUi,
            Action::WatchStdin => ActionView::WatchStdin,
            Action::RegisterSignalHandler => ActionView::RegisterSignalHandler,
            Action::PushExitHook => ActionView::PushExitHook,
            Action::AdvertiseClientKey => ActionView::AdvertiseClientKey,
            Action::WatchHandshake => ActionView::WatchHandshake,
            Action::FinishServerHandshake => ActionView::FinishServerHandshake,
            Action::WatchMainTransport => ActionView::WatchMainTransport,
            Action::NotifyMainTransport => ActionView::NotifyMainTransport,
            Action::DoPostAuth => ActionView::DoPostAuth,
            Action::CookUi => ActionView::CookUi,
            Action::Terminate { pid } => ActionView::Terminate { pid },
            Action::SayGoodbye => ActionView::SayGoodbye,
            Action::BreakLine => ActionView::BreakLine,
            Action::Stop(fault) => ActionView::Stop(fault),
        }
    }
}

/// The views of a list of actions.
pub open spec fn plan(actions: Seq<Action>) -> Seq<ActionView> {
    actions.map_values(|a: Action| a@)
}

/// The view of a list that grew by one action.
pub broadcast proof fn lemma_plan_push(actions: Seq<Action>, action: Action)
    ensures
        #[trigger] plan(actions.push(action)) == plan(actions).push(action@),
{
    assert(plan(actions.push(action)) =~= plan(actions).push(action@));
}

/// The view of two lists, one after the other.
pub broadcast proof fn lemma_plan_concat(first: Seq<Action>, second: Seq<Action>)
    ensures
        #[trigger] plan(first + second) == plan(first) + plan(second),
{
    assert(plan(first + second) =~= plan(first) + plan(second));
}

/// The view of an empty list.
pub broadcast proof fn lemma_plan_empty(actions: Seq<Action>)
    requires
        actions.len() == 0,
    ensures
        #[trigger] plan(actions) == Seq::<ActionView>::empty(),
{
    assert(plan(actions) =~= Seq::<ActionView>::empty());
}

pub broadcast group group_plan {
    lemma_plan_push,
    lemma_plan_concat,
    lemma_plan_empty,
}

} // verus!
