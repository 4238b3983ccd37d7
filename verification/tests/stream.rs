use echos::stream::{Connection, Progress, CHUNK_SIZE};

fn echo(reads: &[Vec<u8>]) -> (usize, Option<(String, Vec<u8>)>) {
    let mut connection = Connection::new();
    let mut taken = 0;
    for read in reads {
        taken += 1;
        match connection.on_read(read) {
            Progress::Reading(next) => connection = next,
            Progress::Finished(echo) => {
                return (taken, Some((echo.text().to_string(), echo.payload())));
            }
        }
    }
    (taken, None)
}

fn reads_of(payload: &[u8]) -> Vec<Vec<u8>> {
    let mut reads: Vec<Vec<u8>> = payload.chunks(CHUNK_SIZE).map(|c| c.to_vec()).collect();
    if payload.len() % CHUNK_SIZE == 0 {
        reads.push(Vec::new());
    }
    reads
}

#[test]
fn chunk_size_is_1024() {
    assert_eq!(CHUNK_SIZE, 1024);
}

#[test]
fn new_connection_has_read_nothing() {
    assert_eq!(Connection::new().text(), "");
}

#[test]
fn short_payload_comes_back() {
    let (taken, reply) = echo(&[b"hello".to_vec()]);
    assert_eq!(taken, 1);
    assert_eq!(reply, Some(("hello".to_string(), b"hello".to_vec())));
}

#[test]
fn empty_payload_comes_back_empty() {
    let (taken, reply) = echo(&[Vec::new()]);
    assert_eq!(taken, 1);
    assert_eq!(reply, Some((String::new(), Vec::new())));
}

#[test]
fn long_payload_comes_back_in_one_reply() {
    let payload: Vec<u8> = (0..3000u32).map(|i| b'a' + (i % 26) as u8).collect();
    let reads = reads_of(&payload);
    assert_eq!(reads.len(), 3);
    let (taken, reply) = echo(&reads);
    assert_eq!(taken, 3);
    let (text, bytes) = reply.unwrap();
    assert_eq!(bytes, payload);
    assert_eq!(text.as_bytes(), &payload[..]);
}

#[test]
fn full_chunk_then_close_is_echoed_whole() {
    let payload = vec![b'x'; 1024];
    let (taken, reply) = echo(&[payload.clone(), Vec::new()]);
    assert_eq!(taken, 2);
    let (text, bytes) = reply.unwrap();
    assert_eq!(bytes.len(), 1024);
    assert_eq!(bytes, payload);
    assert_eq!(text, "x".repeat(1024));
}

#[test]
fn full_chunk_alone_keeps_reading() {
    let (taken, reply) = echo(&[vec![b'x'; 1024]]);
    assert_eq!(taken, 1);
    assert_eq!(reply, None);
    match Connection::new().on_read(&vec![b'x'; 1024]) {
        Progress::Reading(connection) => assert_eq!(connection.text(), "x".repeat(1024)),
        Progress::Finished(_) => panic!("a full chunk does not end the reading"),
    }
}

#[test]
fn one_byte_less_than_a_chunk_ends_the_reading() {
    let payload = vec![b'y'; 1023];
    let (taken, reply) = echo(&[payload.clone(), b"never read".to_vec()]);
    assert_eq!(taken, 1);
    assert_eq!(reply.unwrap().1, payload);
}

#[test]
fn two_full_chunks_then_close() {
    let payload = vec![b'z'; 2048];
    let reads = reads_of(&payload);
    assert_eq!(reads.len(), 3);
    let (taken, reply) = echo(&reads);
    assert_eq!(taken, 3);
    assert_eq!(reply.unwrap().1, payload);
}

#[test]
fn short_read_ends_the_reading_early() {
    let (taken, reply) = echo(&[b"first".to_vec(), b"second".to_vec()]);
    assert_eq!(taken, 1);
    assert_eq!(reply.unwrap().1, b"first".to_vec());
}

#[test]
fn valid_text_of_many_bytes_per_character_comes_back() {
    let payload = "grüße, 世界! 🦀".as_bytes().to_vec();
    let (_, reply) = echo(&[payload.clone()]);
    let (text, bytes) = reply.unwrap();
    assert_eq!(text, "grüße, 世界! 🦀");
    assert_eq!(bytes, payload);
}

#[test]
fn invalid_bytes_are_replaced_not_refused() {
    let (taken, reply) = echo(&[vec![0xff]]);
    assert_eq!(taken, 1);
    let (text, bytes) = reply.unwrap();
    assert_eq!(text, "\u{fffd}");
    assert_eq!(bytes, vec![0xef, 0xbf, 0xbd]);
}

#[test]
fn invalid_bytes_between_valid_ones() {
    let (_, reply) = echo(&[b"ab\xc3(cd\x80".to_vec()]);
    let (text, bytes) = reply.unwrap();
    assert_eq!(text, "ab\u{fffd}(cd\u{fffd}");
    assert_eq!(bytes, "ab\u{fffd}(cd\u{fffd}".as_bytes());
}

#[test]
fn character_cut_by_a_chunk_boundary_is_replaced() {
    let mut first = vec![b'a'; 1023];
    first.push(0xc3);
    let second = vec![0xa9, b'!'];
    let (taken, reply) = echo(&[first, second]);
    assert_eq!(taken, 2);
    let (text, bytes) = reply.unwrap();
    let expected = format!("{}\u{fffd}\u{fffd}!", "a".repeat(1023));
    assert_eq!(text, expected);
    assert_eq!(bytes, expected.as_bytes());
}

#[test]
fn absorb_takes_decoded_text_and_the_count() {
    match Connection::new().absorb("abc", 1024) {
        Progress::Reading(connection) => match connection.absorb("def", 3) {
            Progress::Finished(echo) => {
                assert_eq!(echo.text(), "abcdef");
                assert_eq!(echo.payload(), b"abcdef".to_vec());
            }
            Progress::Reading(_) => panic!("three bytes are a short read"),
        },
        Progress::Finished(_) => panic!("1024 bytes are a full read"),
    }
    assert!(matches!(Connection::new().absorb("", 0), Progress::Finished(_)));
    assert!(matches!(Connection::new().absorb("", 1023), Progress::Finished(_)));
    assert!(matches!(Connection::new().absorb("", 1024), Progress::Reading(_)));
    assert!(matches!(Connection::new().absorb("", 1025), Progress::Reading(_)));
    assert!(matches!(Connection::new().absorb("", usize::MAX), Progress::Reading(_)));
}

#[test]
fn two_connections_get_their_own_payload_back() {
    let first_payload: Vec<u8> = vec![b'1'; 2500];
    let second_payload: Vec<u8> = vec![b'2'; 1500];
    let first_reads = reads_of(&first_payload);
    let second_reads = reads_of(&second_payload);
    let mut first = Some(Connection::new());
    let mut second = Some(Connection::new());
    let mut first_reply = None;
    let mut second_reply = None;
    for turn in 0..3 {
        if let Some(connection) = first.take() {
            match connection.on_read(&first_reads[turn]) {
                Progress::Reading(next) => first = Some(next),
                Progress::Finished(echo) => first_reply = Some(echo.payload()),
            }
        }
        if let Some(connection) = second.take() {
            match connection.on_read(&second_reads[turn]) {
                Progress::Reading(next) => second = Some(next),
                Progress::Finished(echo) => second_reply = Some(echo.payload()),
            }
        }
    }
    assert_eq!(first_reply, Some(first_payload));
    assert_eq!(second_reply, Some(second_payload));
}
