use dns_wire::error::Error;
use dns_wire::rfc::header::Header;
use dns_wire::rfc::message::Message;
use dns_wire::rfc::qtype::QType;
use dns_wire::transport::fallback::{on_message, on_response, start, QueryAction, QueryState};
use dns_wire::transport::mode::{TransportMode, DEFAULT_PORT};
use dns_wire::transport::stream::{check_sent, delivered_len, encode_for, StreamAction, StreamAssembler};

#[test]
fn only_a_stream_uses_a_leading_length() {
    assert!(TransportMode::Tcp.uses_leading_length());
    assert!(!TransportMode::Udp.uses_leading_length());
    assert_eq!(DEFAULT_PORT, 53);
}

#[test]
fn a_message_on_a_stream_follows_its_length() {
    let message: Vec<u8> = vec![0xab; 0x0123];
    let framed = encode_for(TransportMode::Tcp, &message).unwrap();
    assert_eq!(framed.len(), 0x0125);
    assert_eq!(&framed[..2], &[0x01, 0x23]);
    assert_eq!(&framed[2..], message.as_slice());
    assert_eq!(encode_for(TransportMode::Tcp, &[]), Ok(vec![0, 0]));
    assert_eq!(encode_for(TransportMode::Udp, &message), Ok(message));
}

#[test]
fn a_message_too_long_for_a_stream_is_refused() {
    let message: Vec<u8> = vec![0; 65536];
    assert_eq!(encode_for(TransportMode::Tcp, &message), Err(Error::MessageTooLong));
    assert_eq!(encode_for(TransportMode::Tcp, &message[..65535]).map(|f| f.len()), Ok(65537));
    assert_eq!(encode_for(TransportMode::Udp, &message).map(|f| f.len()), Ok(65536));
}

#[test]
fn partial_reads_are_assembled_into_one_message() {
    let message: Vec<u8> = (0..=255u8).cycle().take(700).collect();
    let framed = encode_for(TransportMode::Tcp, &message).unwrap();
    let mut assembler = StreamAssembler::new();
    assert_eq!(assembler.missing(), 2);
    assert_eq!(assembler.message(), None);
    assert_eq!(assembler.on_read(&framed[..1]), StreamAction::Read(1));
    assert_eq!(assembler.on_read(&framed[1..2]), StreamAction::Read(700));
    assert_eq!(assembler.on_read(&framed[2..300]), StreamAction::Read(402));
    assert_eq!(assembler.missing(), 402);
    assert_eq!(assembler.message(), None);
    assert_eq!(assembler.on_read(&framed[300..701]), StreamAction::Read(1));
    assert_eq!(assembler.on_read(&framed[701..]), StreamAction::Deliver(message.clone()));
    assert_eq!(assembler.missing(), 0);
    assert_eq!(assembler.message(), Some(message));
    assert_eq!(assembler.received, framed);
}

#[test]
fn any_split_of_a_frame_gives_the_message() {
    let message: Vec<u8> = vec![1, 2, 3, 4, 5];
    let framed = encode_for(TransportMode::Tcp, &message).unwrap();
    for first in 1..framed.len() {
        for second in first..framed.len() {
            let mut assembler = StreamAssembler::new();
            assert_eq!(
                assembler.on_read(&framed[..first]),
                StreamAction::Read(if first < 2 { 2 - first } else { framed.len() - first })
            );
            if second > first {
                assert_eq!(
                    assembler.on_read(&framed[first..second]),
                    StreamAction::Read(framed.len() - second)
                );
            }
            assert_eq!(assembler.on_read(&framed[second..]), StreamAction::Deliver(message.clone()));
        }
    }
    let mut assembler = StreamAssembler::new();
    assert_eq!(assembler.on_read(&framed), StreamAction::Deliver(message));
}

#[test]
fn a_stream_that_ends_early_fails() {
    let mut assembler = StreamAssembler::new();
    assert_eq!(assembler.on_read(&[]), StreamAction::Fail(Error::ConnectionClosed));
    let mut assembler = StreamAssembler::new();
    assert_eq!(assembler.on_read(&[0]), StreamAction::Read(1));
    assert_eq!(assembler.on_read(&[]), StreamAction::Fail(Error::ConnectionClosed));
    let mut assembler = StreamAssembler::new();
    assert_eq!(assembler.on_read(&[0, 3, 9]), StreamAction::Read(2));
    assert_eq!(assembler.on_read(&[]), StreamAction::Fail(Error::ConnectionClosed));
    assert_eq!(assembler.received, vec![0, 3, 9]);
}

#[test]
fn an_empty_message_is_complete_with_its_length() {
    let mut assembler = StreamAssembler::new();
    assert_eq!(assembler.on_read(&[0, 0]), StreamAction::Deliver(Vec::new()));
    assert_eq!(assembler.on_read(&[]), StreamAction::Deliver(Vec::new()));
}

#[test]
fn bytes_behind_the_message_are_not_part_of_it() {
    let mut assembler = StreamAssembler::new();
    assert_eq!(assembler.on_read(&[0, 2, 7, 8, 9, 9]), StreamAction::Deliver(vec![7, 8]));
}

#[test]
fn a_query_starts_in_a_datagram() {
    assert_eq!(
        start(QType::A),
        (QueryState::AwaitingDatagram { requires_stream: false }, QueryAction::Send(TransportMode::Udp))
    );
    assert_eq!(
        start(QType::ANY),
        (QueryState::AwaitingDatagram { requires_stream: false }, QueryAction::Send(TransportMode::Udp))
    );
    assert_eq!(
        start(QType::AXFR),
        (QueryState::AwaitingDatagram { requires_stream: true }, QueryAction::Send(TransportMode::Udp))
    );
}

#[test]
fn a_query_that_needs_a_stream_goes_there_after_its_datagram() {
    for truncated in [false, true] {
        let (state, _) = start(QType::AXFR);
        let (state, action) = on_response(state, truncated);
        assert_eq!(action, QueryAction::Send(TransportMode::Tcp));
        assert_eq!(state, QueryState::AwaitingStream);
        for truncated_again in [false, true] {
            assert_eq!(on_response(state, truncated_again), (QueryState::Done, QueryAction::Deliver));
        }
    }
}

#[test]
fn a_send_must_take_the_whole_message() {
    assert_eq!(check_sent(0, 0), Ok(()));
    assert_eq!(check_sent(30, 30), Ok(()));
    assert_eq!(check_sent(29, 30), Err(Error::PartialSend));
    assert_eq!(check_sent(0, 30), Err(Error::PartialSend));
    assert_eq!(check_sent(31, 30), Err(Error::PartialSend));
}

#[test]
fn a_message_must_fit_the_buffer_it_is_delivered_into() {
    let message: Vec<u8> = vec![1, 2, 3];
    assert_eq!(delivered_len(&message, 3), Ok(3));
    assert_eq!(delivered_len(&message, 512), Ok(3));
    assert_eq!(delivered_len(&message, 2), Err(Error::BufferTooSmall));
    assert_eq!(delivered_len(&message, 0), Err(Error::BufferTooSmall));
    assert_eq!(delivered_len(&[], 0), Ok(0));
}

#[test]
fn a_truncated_datagram_sends_the_query_over_a_stream_once() {
    let (state, _) = start(QType::A);
    let (state, action) = on_response(state, true);
    assert_eq!(action, QueryAction::Send(TransportMode::Tcp));
    assert_eq!(state, QueryState::AwaitingStream);
    // the second truncated response is handed over as it is
    let (state, action) = on_response(state, true);
    assert_eq!(action, QueryAction::Deliver);
    assert_eq!(state, QueryState::Done);
    let (state, action) = on_response(state, true);
    assert_eq!(action, QueryAction::Deliver);
    assert_eq!(state, QueryState::Done);
}

#[test]
fn a_whole_response_is_delivered() {
    let (state, _) = start(QType::A);
    assert_eq!(on_response(state, false), (QueryState::Done, QueryAction::Deliver));
    let (state, _) = start(QType::A);
    let (state, _) = on_response(state, true);
    assert_eq!(on_response(state, false), (QueryState::Done, QueryAction::Deliver));
}

#[test]
fn no_run_of_responses_sends_over_a_stream_twice() {
    for bits in 0u32..128 {
        let mut state = start(if bits & 64 == 0 { QType::A } else { QType::AXFR }).0;
        let mut sends = 0;
        for i in 0..6 {
            let (next, action) = on_response(state, (bits >> i) & 1 == 1);
            if action == QueryAction::Send(TransportMode::Tcp) {
                sends += 1;
            }
            state = next;
        }
        assert!(sends <= 1);
        assert_eq!(state, QueryState::Done);
    }
}

#[test]
fn the_truncation_bit_of_a_message_decides() {
    let mut header = Header::default();
    header.flags.bitflags.truncation = true;
    let truncated = Message {
        header,
        questions: Vec::new(),
        answers: Vec::new(),
        authorities: Vec::new(),
        additionals: Vec::new(),
    };
    let mut whole = truncated.clone();
    whole.header.flags.bitflags.truncation = false;
    let datagram = QueryState::AwaitingDatagram { requires_stream: false };
    assert_eq!(on_message(datagram, &truncated), (QueryState::AwaitingStream, QueryAction::Send(TransportMode::Tcp)));
    assert_eq!(on_message(datagram, &whole), (QueryState::Done, QueryAction::Deliver));
    let zone = QueryState::AwaitingDatagram { requires_stream: true };
    assert_eq!(on_message(zone, &whole), (QueryState::AwaitingStream, QueryAction::Send(TransportMode::Tcp)));
    assert_eq!(on_message(QueryState::AwaitingStream, &truncated), (QueryState::Done, QueryAction::Deliver));
}
