use oxy::action::{Ending, Fault};
use oxy::channel::{compress, decompress, Incoming, Outgoing, SEALED_FRAME_SIZE};
use oxy::frame::frame;
use oxy::state::Oxy;

const PATTERN: &str = "Noise_NN_25519_ChaChaPoly_BLAKE2s";

fn end(mode: &str) -> Oxy {
    Oxy::create(&mode.to_string(), 0).0
}

/// Two ends whose handshake is done, by way of `encrypt` and `decrypt`.
fn shaken() -> (Oxy, Oxy) {
    let mut client = end("client");
    let mut server = end("server");
    client.noise_session = Some(
        snow::Builder::new(PATTERN.parse().unwrap())
            .build_initiator()
            .unwrap(),
    );
    server.noise_session = Some(
        snow::Builder::new(PATTERN.parse().unwrap())
            .build_responder()
            .unwrap(),
    );
    assert!(!client.is_encrypted());
    let hello = client.encrypt(b"hello").unwrap();
    assert_eq!(server.decrypt(&hello).unwrap(), b"hello".to_vec());
    let reply = server.encrypt(b"welcome").unwrap();
    assert_eq!(client.decrypt(&reply).unwrap(), b"welcome".to_vec());
    assert!(client.is_encrypted() && server.is_encrypted());
    (client, server)
}

/// Two ends in transport mode.
fn pair() -> (Oxy, Oxy) {
    let (mut client, mut server) = shaken();
    client.noise_session = client.noise_session.map(|s| s.into_transport_mode().unwrap());
    server.noise_session = server.noise_session.map(|s| s.into_transport_mode().unwrap());
    (client, server)
}

/// Takes in all frames, and checks that only the last of them brings something.
fn deliver(sent: &Outgoing, to: &mut Oxy) -> Incoming {
    assert_eq!(sent.fault, None);
    let (last, first) = sent.frames.split_last().unwrap();
    for chunk in first {
        assert_eq!(to.recv(chunk), Incoming::Incomplete);
    }
    to.recv(last)
}

fn message(bytes: &[u8], message_number: u64) -> Incoming {
    Incoming::Message { bytes: bytes.to_vec(), message_number }
}

#[test]
fn empty_message_takes_no_frame() {
    assert_eq!(frame(Vec::new()), Vec::<Vec<u8>>::new());
}

#[test]
fn short_message_takes_one_padded_frame() {
    let mut expected = vec![3u8, 7, 8, 9];
    expected.resize(256, 0);
    assert_eq!(frame(vec![7, 8, 9]), vec![expected]);
}

#[test]
fn full_frame_is_followed_by_an_empty_one() {
    let data: Vec<u8> = (0..255).map(|i| i as u8).collect();
    let frames = frame(data.clone());
    assert_eq!(frames.len(), 2);
    assert_eq!(frames[0][0], 255);
    assert_eq!(frames[0][1..], data[..]);
    assert_eq!(frames[1], vec![0u8; 256]);
}

#[test]
fn long_message_is_cut_at_the_capacity() {
    let data = vec![5u8; 600];
    let frames = frame(data);
    assert_eq!(frames.len(), 3);
    assert!(frames.iter().all(|f| f.len() == 256));
    assert_eq!((frames[0][0], frames[1][0], frames[2][0]), (255, 255, 90));
    assert_eq!(frames[2][90], 5);
    assert_eq!(frames[2][91], 0);
}

#[test]
fn opened_frames_add_up_to_the_message() {
    let mut oxy = end("client");
    let data: Vec<u8> = (0..255).map(|i| i as u8).collect();
    let frames = frame(data.clone());
    assert_eq!(oxy.absorb_frame(&frames[0]), Incoming::Incomplete);
    assert_eq!(oxy.inbound_cleartext_buffer, data);
    assert_eq!(oxy.absorb_frame(&frames[1]), message(&data, 0));
    assert!(oxy.inbound_cleartext_buffer.is_empty());
    assert_eq!(oxy.absorb_frame(&frame(vec![1])[0]), message(&[1], 1));
    assert_eq!(
        oxy.absorb_frame(&vec![0; 255]),
        Incoming::Failed(Fault::IncorrectFrameLength)
    );
    assert_eq!(oxy.absorb_frame(&vec![0; 256]), message(&[], 2));
}

#[test]
fn only_a_message_takes_a_number() {
    let mut oxy = end("client");
    assert_eq!(oxy.complete_message(Ok(vec![4])), message(&[4], 0));
    assert_eq!(
        oxy.complete_message(Err(Fault::DecompressionFailed)),
        Incoming::Failed(Fault::DecompressionFailed)
    );
    assert_eq!(oxy.complete_message(Ok(vec![])), message(&[], 1));
}

#[test]
fn what_is_sent_arrives() {
    let (mut client, mut server) = pair();
    for (number, len) in [1usize, 254, 255, 256, 510, 511, 5000].iter().enumerate() {
        let data: Vec<u8> = (0..*len).map(|i| (i % 251) as u8).collect();
        let sent = client.send(data.clone());
        assert_eq!(sent.message_number, number as u64);
        assert_eq!(sent.frames.len(), len / 255 + 1);
        assert!(sent.frames.iter().all(|f| f.len() == SEALED_FRAME_SIZE));
        assert_eq!(deliver(&sent, &mut server), message(&data, number as u64));
    }
    assert_eq!(client.outgoing_ticker, 7);
    assert_eq!(server.incoming_ticker, 7);
    assert!(server.inbound_cleartext_buffer.is_empty());
}

#[test]
fn sealed_frames_do_not_show_the_message() {
    let (mut client, _server) = pair();
    let sent = client.send(vec![1, 2, 3]);
    assert_ne!(sent.frames[0][..256], frame(vec![1, 2, 3])[0][..]);
}

#[test]
fn traffic_in_one_direction_leaves_the_other_alone() {
    let (mut client, mut server) = pair();
    let first = client.send(vec![1]);
    for n in 0..3u64 {
        let back = server.send(vec![9, n as u8]);
        assert_eq!(deliver(&back, &mut client), message(&[9, n as u8], n));
    }
    let second = client.send(vec![2]);
    assert_eq!(deliver(&first, &mut server), message(&[1], 0));
    assert_eq!(deliver(&second, &mut server), message(&[2], 1));
}

#[test]
fn compressed_messages_arrive() {
    let (mut client, mut server) = pair();
    client.outbound_compression = true;
    server.inbound_compression = true;
    let data = vec![b'a'; 5000];
    let sent = client.send(data.clone());
    assert_eq!(sent.frames.len(), 1);
    assert_eq!(deliver(&sent, &mut server), message(&data, 0));
}

#[test]
fn compression_is_undone_by_decompression() {
    let data: Vec<u8> = (0..3000u32).map(|i| (i * i % 256) as u8).collect();
    let compressed = compress(&data);
    assert_ne!(compressed, data);
    assert_eq!(decompress(&compressed), Ok(data));
    assert_eq!(decompress(&compress(&[])), Ok(Vec::new()));
}

#[test]
fn garbage_does_not_decompress() {
    assert_eq!(decompress(&[]), Err(Fault::DecompressionFailed));
    assert_eq!(decompress(&[120]), Err(Fault::DecompressionFailed));
    assert_eq!(decompress(&[1, 2, 3]), Err(Fault::DecompressionFailed));
    let mut cut = compress(b"some text that is long enough");
    cut.truncate(8);
    assert_eq!(decompress(&cut), Err(Fault::DecompressionFailed));
}

#[test]
fn message_that_cannot_be_decompressed_stops_the_session() {
    let (mut client, mut server) = pair();
    server.inbound_compression = true;
    let sent = client.send(vec![1, 2, 3]);
    assert_eq!(server.recv(&sent.frames[0]), Incoming::Failed(Fault::DecompressionFailed));
    assert_eq!(server.incoming_ticker, 0);
    assert!(server.inbound_cleartext_buffer.is_empty());
}

#[test]
fn nothing_is_sent_before_the_key_exchange() {
    let mut client = end("client");
    let sent = client.send(vec![1]);
    assert_eq!(
        sent,
        Outgoing {
            message_number: 0,
            frames: Vec::new(),
            fault: Some(Fault::SentBeforeKeyExchange)
        }
    );
    assert_eq!(client.outgoing_ticker, 1);
}

#[test]
fn altered_frame_stops_the_session() {
    let (mut client, mut server) = pair();
    let mut sent = client.send(vec![1]);
    sent.frames[0][17] ^= 1;
    assert_eq!(server.recv(&sent.frames[0]), Incoming::Failed(Fault::DecryptionFailed));
}

#[test]
fn replayed_frame_stops_the_session() {
    let (mut client, mut server) = pair();
    let sent = client.send(vec![1]);
    assert_eq!(deliver(&sent, &mut server), message(&[1], 0));
    assert_eq!(server.recv(&sent.frames[0]), Incoming::Failed(Fault::DecryptionFailed));
}

#[test]
fn frame_of_the_wrong_size_stops_the_session() {
    let (mut client, mut server) = pair();
    let sealed = client.encrypt(&[1, 5]).unwrap();
    assert_eq!(sealed.len(), 18);
    assert_eq!(server.recv(&sealed), Incoming::Failed(Fault::IncorrectFrameLength));
}

#[test]
fn session_that_was_not_moved_to_transport_mode_is_of_no_use() {
    let (mut client, mut server) = shaken();
    assert_eq!(client.encrypt(&[1]), Err(Fault::EncryptionFailed));
    assert_eq!(server.decrypt(&[0; 272]), Err(Fault::SessionSpent));
    let sent = client.send(vec![1]);
    assert_eq!(sent.frames.len(), 0);
    assert_eq!(sent.fault, Some(Fault::EncryptionFailed));
}

#[test]
fn payload_that_is_too_long_is_not_sealed() {
    let (mut client, _server) = pair();
    assert_eq!(client.encrypt(&vec![0; 65520]), Err(Fault::EncryptionFailed));
    assert_eq!(client.encrypt(&vec![0; 65519]).unwrap().len(), 65535);
}

#[test]
fn sender_without_nonces_stops() {
    let (mut client, _server) = pair();
    if let Some(snow::Session::Transport(ref mut transport)) = client.noise_session {
        transport.cipherstates.0.set_nonce(u64::MAX - 1);
    }
    let sent = client.send(vec![1; 300]);
    assert_eq!(sent.frames.len(), 1);
    assert_eq!(sent.fault, Some(Fault::SessionSpent));
}

#[test]
fn receiver_without_nonces_stops() {
    let (mut client, mut server) = pair();
    let sent = client.send(vec![1]);
    if let Some(snow::Session::Transport(ref mut transport)) = server.noise_session {
        transport.set_receiving_nonce(u64::MAX);
    }
    assert_eq!(server.recv(&sent.frames[0]), Incoming::Failed(Fault::SessionSpent));
}

#[test]
fn stateless_session_reads_nothing() {
    let (client, mut server) = shaken();
    drop(client);
    server.noise_session = server
        .noise_session
        .map(|s| s.into_stateless_transport_mode().unwrap());
    assert_eq!(server.decrypt(&[0; 272]), Err(Fault::DecryptionFailed));
    assert_eq!(server.encrypt(&[1]), Err(Fault::EncryptionFailed));
    assert_eq!(server.recv(&[0; 272]), Incoming::Failed(Fault::DecryptionFailed));
}

#[test]
fn oversized_message_is_refused_though_the_handshake_is_over() {
    let (_client, mut server) = shaken();
    assert_eq!(server.decrypt(&vec![0; 65536]), Err(Fault::DecryptionFailed));
    assert_eq!(server.decrypt(&vec![0; 65535]), Err(Fault::SessionSpent));
    assert!(server.is_encrypted());
}

#[test]
fn message_of_impossible_length_is_refused_though_nonces_are_out() {
    let (mut client, mut server) = pair();
    if let Some(snow::Session::Transport(ref mut transport)) = server.noise_session {
        transport.set_receiving_nonce(u64::MAX);
    }
    assert_eq!(server.decrypt(&[0; 15]), Err(Fault::DecryptionFailed));
    assert_eq!(server.decrypt(&[0; 16]), Err(Fault::SessionSpent));
    assert_eq!(server.decrypt(&vec![0; 65551]), Err(Fault::SessionSpent));
    assert_eq!(server.decrypt(&vec![0; 65552]), Err(Fault::DecryptionFailed));
    if let Some(snow::Session::Transport(ref mut transport)) = client.noise_session {
        transport.cipherstates.0.set_nonce(u64::MAX);
    }
    assert_eq!(client.encrypt(&vec![0; 65520]), Err(Fault::EncryptionFailed));
    assert_eq!(client.encrypt(&vec![0; 65519]), Err(Fault::SessionSpent));
}

#[test]
fn one_way_session_is_closed_in_one_direction() {
    let builder = snow::Builder::new("Noise_N_25519_ChaChaPoly_BLAKE2s".parse().unwrap());
    let keys = builder.generate_keypair().unwrap();
    let mut client = end("client");
    let mut server = end("server");
    client.noise_session = Some(builder.remote_public_key(&keys.public).build_initiator().unwrap());
    server.noise_session = Some(
        snow::Builder::new("Noise_N_25519_ChaChaPoly_BLAKE2s".parse().unwrap())
            .local_private_key(&keys.private)
            .build_responder()
            .unwrap(),
    );
    let hello = client.encrypt(b"hello").unwrap();
    assert!(hello.len() >= 5);
    assert_eq!(server.decrypt(&hello).unwrap(), b"hello".to_vec());
    client.noise_session = client.noise_session.map(|s| s.into_transport_mode().unwrap());
    server.noise_session = server.noise_session.map(|s| s.into_transport_mode().unwrap());
    let sent = client.send(vec![1]);
    assert_eq!(deliver(&sent, &mut server), message(&[1], 0));
    assert_eq!(server.encrypt(&[1]), Err(Fault::EncryptionFailed));
    assert_eq!(client.decrypt(&[0; 272]), Err(Fault::DecryptionFailed));
    if let Some(snow::Session::Transport(ref mut transport)) = server.noise_session {
        transport.cipherstates.1.set_nonce(u64::MAX);
    }
    if let Some(snow::Session::Transport(ref mut transport)) = client.noise_session {
        transport.set_receiving_nonce(u64::MAX);
    }
    assert_eq!(server.encrypt(&[1]), Err(Fault::EncryptionFailed));
    assert_eq!(client.decrypt(&[0; 272]), Err(Fault::DecryptionFailed));
}

#[test]
fn compressed_empty_message_arrives() {
    let (mut client, mut server) = pair();
    client.outbound_compression = true;
    server.inbound_compression = true;
    let sent = client.send(Vec::new());
    assert_eq!(sent.frames.len(), 1);
    assert_eq!(deliver(&sent, &mut server), message(&[], 0));
}

#[test]
fn alike_receivers_get_the_same() {
    let mut one = end("client");
    let mut other = end("server");
    for frame in frame(vec![7; 600]) {
        assert_eq!(one.absorb_frame(&frame), other.absorb_frame(&frame));
        assert_eq!(one.inbound_cleartext_buffer.len() % 255, 0);
    }
    assert_eq!((one.incoming_ticker, other.incoming_ticker), (1, 1));
}

#[test]
fn faults_end_the_program_each_in_its_way() {
    assert_eq!(Fault::SentBeforeKeyExchange.ending(), Ending::Exit { status: 1 });
    assert_eq!(Fault::KeepaliveExpired.ending(), Ending::Exit { status: 2 });
    assert_eq!(Fault::ConnectionLost.ending(), Ending::Exit { status: 0 });
    for fault in [
        Fault::NotAClient,
        Fault::NotAServer,
        Fault::EncryptionFailed,
        Fault::DecryptionFailed,
        Fault::IncorrectFrameLength,
    ] {
        assert_eq!(fault.ending(), Ending::ExitAtOnce { status: 1 });
    }
    for fault in [
        Fault::SessionSpent,
        Fault::DecompressionFailed,
        Fault::UnsplittableCommand,
    ] {
        assert_eq!(fault.ending(), Ending::Panic);
    }
}
