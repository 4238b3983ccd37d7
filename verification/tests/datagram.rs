use echos::datagram::{answer, receive_buffer};

fn receive(buffer: &mut [u8], datagram: &[u8]) -> usize {
    let received = datagram.len().min(buffer.len());
    buffer[..received].copy_from_slice(&datagram[..received]);
    received
}

#[test]
fn buffer_has_the_size_asked_for() {
    assert_eq!(receive_buffer(1024), vec![0u8; 1024]);
    assert_eq!(receive_buffer(1), vec![0u8]);
    assert_eq!(receive_buffer(0), Vec::<u8>::new());
}

#[test]
fn datagram_comes_back_to_its_sender() {
    let mut buffer = receive_buffer(1024);
    let received = receive(&mut buffer, b"ping");
    let reply = answer(&buffer, received, ("10.0.0.7", 4242u16));
    assert_eq!(reply.payload, b"ping");
    assert_eq!(reply.payload.len(), 4);
    assert_eq!(reply.to, ("10.0.0.7", 4242u16));
}

#[test]
fn empty_datagram_comes_back_empty() {
    let mut buffer = receive_buffer(16);
    let received = receive(&mut buffer, b"");
    let reply = answer(&buffer, received, 1u8);
    assert_eq!(reply.payload, b"");
    assert_eq!(reply.to, 1u8);
}

#[test]
fn datagram_that_fills_the_buffer_comes_back_whole() {
    let mut buffer = receive_buffer(8);
    let received = receive(&mut buffer, b"12345678");
    let reply = answer(&buffer, received, ());
    assert_eq!(reply.payload, b"12345678");
}

#[test]
fn oversized_datagram_comes_back_cut() {
    let mut buffer = receive_buffer(4);
    let received = receive(&mut buffer, b"hello world");
    assert_eq!(received, 4);
    let reply = answer(&buffer, received, "peer");
    assert_eq!(reply.payload, b"hell");
    assert_eq!(reply.to, "peer");
}

#[test]
fn reply_holds_nothing_of_an_earlier_datagram() {
    let mut buffer = receive_buffer(32);
    let received = receive(&mut buffer, b"a long first datagram");
    assert_eq!(answer(&buffer, received, 1u32).payload, b"a long first datagram");
    let received = receive(&mut buffer, b"yo");
    let reply = answer(&buffer, received, 2u32);
    assert_eq!(reply.payload, b"yo");
    assert_eq!(reply.to, 2u32);
}

#[test]
fn datagrams_are_answered_in_the_order_received() {
    let arrivals: [(&[u8], u16); 4] =
        [(b"one", 5001), (b"two", 5002), (b"three", 5001), (b"", 5003)];
    let mut buffer = receive_buffer(1024);
    let mut sent: Vec<(Vec<u8>, u16)> = Vec::new();
    for (datagram, sender) in arrivals {
        let received = receive(&mut buffer, datagram);
        let reply = answer(&buffer, received, sender);
        sent.push((reply.payload.to_vec(), reply.to));
    }
    assert_eq!(
        sent,
        vec![
            (b"one".to_vec(), 5001),
            (b"two".to_vec(), 5002),
            (b"three".to_vec(), 5001),
            (Vec::new(), 5003),
        ]
    );
}

#[test]
fn reply_of_no_bytes_from_a_full_buffer() {
    let buffer = vec![7u8; 8];
    assert_eq!(answer(&buffer, 0, 0u8).payload, b"");
    assert_eq!(answer(&buffer, 3, 0u8).payload, &[7u8, 7, 7]);
    assert_eq!(answer(&buffer, 8, 0u8).payload, &[7u8; 8]);
}

#[test]
fn reply_text_is_decoded_for_the_log() {
    let mut buffer = receive_buffer(64);
    let received = receive(&mut buffer, "zażółć".as_bytes());
    assert_eq!(answer(&buffer, received, ()).text(), "zażółć");
    let received = receive(&mut buffer, &[b'o', b'k', 0xff]);
    let reply = answer(&buffer, received, ());
    assert_eq!(reply.text(), "ok\u{fffd}");
    assert_eq!(reply.payload, &[b'o', b'k', 0xff]);
}
