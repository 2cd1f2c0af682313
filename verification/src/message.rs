//! The messages that the two peers exchange.

use vstd::prelude::*;

verus! {

/// A protocol message. A `reference` is the number of the message that opened whatever the
/// message is about.
#[derive(Clone, Debug, PartialEq, Eq)]
pub enum OxyMessage {
    /// A sign of life.
    Ping,
    /// Answers a message that could not be read, or that was refused.
    Reject { reference: u64, note: String },
    /// The user that the client wants to be.
    UsernameAdvertisement { username: String },
    /// An environment variable of the client.
    EnvironmentAdvertisement { key: String, value: String },
    /// Asks the server to compress what follows.
    CompressionRequest { compression_type: u8 },
    /// A packet of a tunnel.
    TunnelData { reference: u64, data: Vec<u8> },
    /// Asks the server to connect to an address.
    RemoteOpen { addr: String },
    /// Tells the client that a connection came in on a bound port.
    BindConnectionAccepted { reference: u64 },
    /// Data for the remote end of a stream that was opened locally.
    RemoteStreamData { reference: u64, data: Vec<u8> },
    /// The locally opened stream was closed.
    RemoteStreamClosed { reference: u64 },
    /// Data for the local end of a stream that was opened remotely.
    LocalStreamData { reference: u64, data: Vec<u8> },
    /// The remotely opened stream was closed.
    LocalStreamClosed { reference: u64 },
    /// Keystrokes for a pseudo terminal.
    PtyInput { reference: u64, data: Vec<u8> },
    /// Output of a pseudo terminal.
    PtyOutput { reference: u64, data: Vec<u8> },
    /// The size of the client's terminal.
    PtySizeAdvertisement { reference: u64, w: u16, h: u16 },
    /// The program in a pseudo terminal exited.
    PtyExited { reference: u64, status: i32 },
    /// Standard input of a piped command; empty at its end.
    PipeCommandInput { reference: u64, input: Vec<u8> },
    /// Output of a piped command.
    PipeCommandOutput { reference: u64, stdout: Vec<u8>, stderr: Vec<u8> },
    /// A piped command exited.
    PipeCommandExited { reference: u64 },
    /// A piece of a file; empty at its end.
    FileData { reference: u64, data: Vec<u8> },
}

/// A protocol message with its texts and data as sequences.
pub enum MessageView {
    Ping,
    Reject { reference: u64, note: Seq<char> },
    UsernameAdvertisement { username: Seq<char> },
    EnvironmentAdvertisement { key: Seq<char>, value: Seq<char> },
    CompressionRequest { compression_type: u8 },
    TunnelData { reference: u64, data: Seq<u8> },
    RemoteOpen { addr: Seq<char> },
    BindConnectionAccepted { reference: u64 },
    RemoteStreamData { reference: u64, data: Seq<u8> },
    RemoteStreamClosed { reference: u64 },
    LocalStreamData { reference: u64, data: Seq<u8> },
    LocalStreamClosed { reference: u64 },
    PtyInput { reference: u64, data: Seq<u8> },
    PtyOutput { reference: u64, data: Seq<u8> },
    PtySizeAdvertisement { reference: u64, w: u16, h: u16 },
    PtyExited { reference: u64, status: i32 },
    PipeCommandInput { reference: u64, input: Seq<u8> },
    PipeCommandOutput { reference: u64, stdout: Seq<u8>, stderr: Seq<u8> },
    PipeCommandExited { reference: u64 },
    FileData { reference: u64, data: Seq<u8> },
}

impl View for OxyMessage {
    type V = MessageView;

    open spec fn view(&self) -> MessageView {
        match *self {
            OxyMessage::Ping => MessageView::Ping,
            OxyMessage::Reject { reference, note } => MessageView::Reject {
                reference,
                note: note@,
            },
            OxyMessage::UsernameAdvertisement { username } => MessageView::UsernameAdvertisement {
                username: username@,
            },
            OxyMessage::EnvironmentAdvertisement { key, value } => MessageView::EnvironmentAdvertisement {
                key: key@,
                value: value@,
            },
            OxyMessage::CompressionRequest { compression_type } => MessageView::CompressionRequest {
                compression_type,
            },
            OxyMessage::TunnelData { reference, data } => MessageView::TunnelData {
                reference,
                data: data@,
            },
            OxyMessage::RemoteOpen { addr } => MessageView::RemoteOpen { addr: addr@ },
            OxyMessage::BindConnectionAccepted { reference } => MessageView::BindConnectionAccepted {
                reference,
            },
            OxyMessage::RemoteStreamData { reference, data } => MessageView::RemoteStreamData {
                reference,
                data: data@,
            },
            OxyMessage::RemoteStreamClosed { reference } => MessageView::RemoteStreamClosed {
                reference,
            },
            OxyMessage::LocalStreamData { reference, data } => MessageView::LocalStreamData {
                reference,
                data: data@,
            },
            OxyMessage::LocalStreamClosed { reference } => MessageView::LocalStreamClosed {
                reference,
            },
            OxyMessage::PtyInput { reference, data } => MessageView::PtyInput {
                reference,
                data: data@,
            },
            OxyMessage::PtyOutput { reference, data } => MessageView::PtyOutput {
                reference,
                data: data@,
            },
            OxyMessage::PtySizeAdvertisement { reference, w, h } => MessageView::PtySizeAdvertisement {
                reference,
                w,
                h,
            },
            OxyMessage::PtyExited { reference, status } => MessageView::PtyExited {
                reference,
                status,
            },
            OxyMessage::PipeCommandInput { reference, input } => MessageView::PipeCommandInput {
                reference,
                input: input@,
            },
            OxyMessage::PipeCommandOutput { reference, stdout, stderr } => MessageView::PipeCommandOutput {
                reference,
                stdout: stdout@,
                stderr: stderr@,
            },
            OxyMessage::PipeCommandExited { reference } => MessageView::PipeCommandExited {
                reference,
            },
            OxyMessage::FileData { reference, data } => MessageView::FileData {
                reference,
                data: data@,
            },
        }
    }
}

} // verus!
