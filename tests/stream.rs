use siren::config::Config;
use siren::sniff::Protocol;
use siren::stream::{
    Admission, DispatchError, FillStep, InboundEvent, ParsedHeader, ProcessError, ProxyStream,
    ReadStep, StreamError, TransportKind, MAX_BUFFER_SIZE, MAX_WEBSOCKET_SIZE, PEEK_BUFFER_LEN,
};

fn config() -> Config {
    Config {
        uuid: 0x1234,
        proxy_addr: "example.com".to_string(),
        proxy_port: 443,
        main_page_url: "https://example.com/".to_string(),
        proxy_kv_url: "https://example.com/kv.json".to_string(),
    }
}

fn filled(messages: Vec<Vec<u8>>) -> ProxyStream {
    let mut s = ProxyStream::new(config());
    for m in messages {
        match s.fill_buffer_until(PEEK_BUFFER_LEN, InboundEvent::Binary(m)) {
            FillStep::Failed(_) => panic!("fill failed"),
            _ => {}
        }
    }
    s
}

fn read_all(s: &mut ProxyStream, capacity: usize) -> Vec<Vec<u8>> {
    let mut out = Vec::new();
    loop {
        match s.read_buffered(capacity) {
            ReadStep::Ready(chunk) => out.push(chunk),
            _ => return out,
        }
    }
}

#[test]
fn session_starting_with_zero_is_vless() {
    let mut first = vec![9u8; 62];
    first[0] = 0;
    let s = filled(vec![first[..20].to_vec(), first[20..].to_vec()]);
    assert_eq!(s.buffered_len(), 62);
    assert_eq!(s.process(), Ok(Protocol::Vless));
}

#[test]
fn session_with_domain_header_is_shadowsocks() {
    let mut m = vec![3u8, 5, b'a', b'b', b'c', b'd', b'e', 0x01, 0xbb];
    m.extend_from_slice(&[7u8; 40]);
    let s = filled(vec![m.clone()]);
    assert_eq!(s.process(), Ok(Protocol::Shadowsocks));
    m[7] = 0;
    m[8] = 0;
    let s = filled(vec![m]);
    assert_eq!(s.process(), Ok(Protocol::Vmess));
}

#[test]
fn short_session_is_insufficient_data() {
    let mut s = ProxyStream::new(config());
    assert!(matches!(
        s.fill_buffer_until(PEEK_BUFFER_LEN, InboundEvent::Binary(vec![0u8; 30])),
        FillStep::Continue
    ));
    assert!(matches!(s.fill_buffer_until(PEEK_BUFFER_LEN, InboundEvent::Close), FillStep::Done));
    assert_eq!(s.process(), Err(ProcessError::NotEnoughData));
    let s = filled(vec![vec![200u8; 31]]);
    assert_eq!(s.process(), Ok(Protocol::Vmess));
}

#[test]
fn empty_session_is_insufficient_data() {
    let s = ProxyStream::new(config());
    assert_eq!(s.process(), Err(ProcessError::NotEnoughData));
}

#[test]
fn fill_stops_at_wanted_length_and_ignores_text() {
    let mut s = ProxyStream::new(config());
    assert!(!s.is_filled(4));
    assert!(matches!(s.fill_buffer_until(4, InboundEvent::Text), FillStep::Continue));
    assert!(matches!(s.fill_buffer_until(4, InboundEvent::Binary(vec![1, 2])), FillStep::Continue));
    assert!(matches!(s.fill_buffer_until(4, InboundEvent::Binary(vec![3, 4, 5])), FillStep::Done));
    assert!(s.is_filled(4));
    assert_eq!(s.peek_buffer(4), &[1u8, 2, 3, 4][..]);
    assert_eq!(s.peek_buffer(100), &[1u8, 2, 3, 4, 5][..]);
    assert_eq!(s.buffered_len(), 5);
}

#[test]
fn fill_transport_error_aborts() {
    let mut s = ProxyStream::new(config());
    match s.fill_buffer_until(62, InboundEvent::Error("reset".to_string())) {
        FillStep::Failed(StreamError::Transport(e)) => assert_eq!(e, "reset"),
        _ => panic!("expected a transport error"),
    }
}

#[test]
fn oversized_message_aborts_even_when_empty() {
    let mut s = ProxyStream::new(config());
    assert!(matches!(
        s.read_event(InboundEvent::Binary(vec![0u8; MAX_WEBSOCKET_SIZE + 1])),
        ReadStep::Failed(StreamError::Oversized)
    ));
    assert_eq!(s.buffered_len(), 0);
    assert!(matches!(
        s.fill_buffer_until(62, InboundEvent::Binary(vec![0u8; MAX_WEBSOCKET_SIZE + 1])),
        FillStep::Failed(StreamError::Oversized)
    ));
    assert_eq!(s.offer_message(vec![0u8; MAX_WEBSOCKET_SIZE + 1]), Admission::Oversized);
    assert_eq!(s.offer_message(vec![0u8; MAX_WEBSOCKET_SIZE]), Admission::Accepted);
}

#[test]
fn reads_span_and_split_messages() {
    let mut s = ProxyStream::new(config());
    assert!(matches!(s.read_buffered(8), ReadStep::Poll));
    assert!(matches!(s.read_event(InboundEvent::Binary(vec![1, 2, 3])), ReadStep::Poll));
    assert!(matches!(s.read_event(InboundEvent::Binary(vec![4, 5])), ReadStep::Poll));
    let chunks = read_all(&mut s, 2);
    assert_eq!(chunks, vec![vec![1u8, 2], vec![3, 4], vec![5]]);
    assert!(matches!(s.read_event(InboundEvent::Binary(vec![6, 7, 8])), ReadStep::Poll));
    assert!(matches!(s.read_event(InboundEvent::Text), ReadStep::Poll));
    assert_eq!(read_all(&mut s, 100), vec![vec![6u8, 7, 8]]);
    assert!(matches!(s.read_event(InboundEvent::Close), ReadStep::End));
}

#[test]
fn read_transport_error_fails() {
    let mut s = ProxyStream::new(config());
    match s.read_event(InboundEvent::Error("gone".to_string())) {
        ReadStep::Failed(StreamError::Transport(e)) => assert_eq!(e, "gone"),
        _ => panic!("expected a transport error"),
    }
}

#[test]
fn buffer_ceiling_holds_back_then_delivers() {
    let mut s = ProxyStream::new(config());
    let n = MAX_BUFFER_SIZE / MAX_WEBSOCKET_SIZE;
    for i in 0..n {
        assert!(matches!(
            s.read_event(InboundEvent::Binary(vec![i as u8; MAX_WEBSOCKET_SIZE])),
            ReadStep::Poll
        ));
    }
    assert_eq!(s.buffered_len(), MAX_BUFFER_SIZE);
    assert!(matches!(s.read_event(InboundEvent::Binary(vec![0xee; 10])), ReadStep::Blocked));
    assert_eq!(s.buffered_len(), MAX_BUFFER_SIZE);
    assert!(matches!(s.read_buffered(0), ReadStep::Blocked));
    assert_eq!(s.buffered_len(), MAX_BUFFER_SIZE);
    // draining makes room: the held-back bytes come after all the others
    let chunks = read_all(&mut s, MAX_WEBSOCKET_SIZE);
    let all: Vec<u8> = chunks.concat();
    assert_eq!(all.len(), MAX_BUFFER_SIZE + 10);
    assert_eq!(&all[MAX_BUFFER_SIZE..], &[0xeeu8; 10][..]);
    assert_eq!(all[0], 0);
    assert_eq!(all[MAX_BUFFER_SIZE - 1], (n - 1) as u8);
    assert!(matches!(s.read_buffered(16), ReadStep::Poll));
}

#[test]
fn fill_holds_back_at_ceiling() {
    let mut s = ProxyStream::new(config());
    for _ in 0..MAX_BUFFER_SIZE / MAX_WEBSOCKET_SIZE {
        assert_eq!(s.offer_message(vec![1u8; MAX_WEBSOCKET_SIZE]), Admission::Accepted);
    }
    assert!(matches!(s.fill_buffer_until(usize::MAX, InboundEvent::Binary(vec![2u8])), FillStep::Done));
    assert!(s.is_filled(usize::MAX));
    assert_eq!(s.buffered_len(), MAX_BUFFER_SIZE);
}

fn header(port: u16, header_len: usize) -> ParsedHeader {
    ParsedHeader { host: "example-host".to_string(), port, kind: TransportKind::Tcp, header_len }
}

#[test]
fn dispatch_strips_header() {
    let mut s = filled(vec![vec![1u8, 2, 3, 4, 5, 6]]);
    match s.dispatch(Ok(header(443, 4))) {
        Ok((d, kind)) => {
            assert_eq!(d.host, "example-host");
            assert_eq!(d.port, 443);
            assert_eq!(kind, TransportKind::Tcp);
        }
        Err(_) => panic!("dispatch failed"),
    }
    assert_eq!(s.peek_buffer(10), &[5u8, 6][..]);
}

#[test]
fn dispatch_errors() {
    let mut s = filled(vec![vec![1u8, 2, 3]]);
    assert!(matches!(s.dispatch(Ok(header(0, 1))), Err(DispatchError::ZeroPort)));
    assert!(matches!(s.dispatch(Ok(header(80, 4))), Err(DispatchError::HeaderTooLong)));
    match s.dispatch(Err("bad header".to_string())) {
        Err(DispatchError::Parser(e)) => assert_eq!(e, "bad header"),
        _ => panic!("expected a parser error"),
    }
    assert_eq!(s.buffered_len(), 3);
}

#[test]
fn udp_reply_only_when_resolved() {
    let s = ProxyStream::new(config());
    assert_eq!(s.handle_udp_outbound(Ok(vec![9, 8, 7, 6])), Some(vec![9u8, 8, 7, 6]));
    assert_eq!(s.handle_udp_outbound(Err("no answer".to_string())), None);
}

#[test]
fn drained_reads_give_every_byte_in_order() {
    let mut s = filled(vec![vec![1u8, 2, 3]]);
    let mut out = Vec::new();
    let messages = vec![vec![4u8, 5], vec![], vec![6u8, 7, 8, 9]];
    for m in messages {
        out.extend(read_all(&mut s, 3).concat());
        assert!(matches!(s.read_buffered(3), ReadStep::Poll));
        assert!(matches!(s.read_event(InboundEvent::Binary(m)), ReadStep::Poll));
    }
    out.extend(read_all(&mut s, 3).concat());
    assert!(matches!(s.read_event(InboundEvent::Close), ReadStep::End));
    assert_eq!(out, vec![1u8, 2, 3, 4, 5, 6, 7, 8, 9]);
}

#[test]
fn is_vl_method() {
    let s = ProxyStream::new(config());
    assert!(s.is_vl(&[0u8, 1]));
    assert!(!s.is_vl(&[1u8, 0]));
    assert!(!s.is_vl(&[]));
}
