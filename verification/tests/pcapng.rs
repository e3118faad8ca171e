use snare::addr::{IpAddr, Ipv4Addr, SocketAddr};
use snare::net::{TcpListener, TcpStream, UdpSocket};
use snare::pcapng::{
    capture_file_name, env_force_match, ipv4_checksum, sanitize_name, PcapWriter,
};
use snare::shim_std_tcp::{ReadStep, WriteStep};
use snare::state::{pcap_file_to_open, take_capture, TestState};
use snare::thread::{Harness, ThreadId};
use snare::time::{Duration, Instant, SystemTime};
use snare::{enable_pcapng, Now};

fn at(millis: u64) -> Now {
    Now {
        mono: Instant::from_epoch(Duration::from_millis(millis)),
        wall: SystemTime::from_unix_epoch(Duration::from_millis(1_700_000_000_000 + millis)),
    }
}

fn sa(port: u16) -> SocketAddr {
    SocketAddr::new(IpAddr::V4(Ipv4Addr::new(127, 0, 0, 1)), port)
}

#[test]
fn writer_emits_shb_idb_then_epbs() {
    let at = SystemTime::from_unix_epoch(Duration::from_secs(1_700_000_000));
    let mut w = PcapWriter::create();
    w.tcp_open(sa(40000), sa(40001), at);
    w.tcp_data(sa(40000), sa(40001), b"hello", at);
    w.tcp_fin(sa(40000), sa(40001), at);
    w.udp_datagram(sa(50000), sa(50001), b"udp", at);
    let bytes = w.take_output();
    assert_eq!(&bytes[..4], &0x0A0D_0D0Au32.to_le_bytes());
    assert_eq!(&bytes[8..12], &0x1A2B_3C4Du32.to_le_bytes());
    assert_eq!(&bytes[28..32], &1u32.to_le_bytes());
    assert_eq!(&bytes[48..52], &6u32.to_le_bytes());
}

#[test]
fn ipv4_checksum_matches_known_value() {
    let mut h = vec![
        0x45, 0x00, 0x00, 0x73, 0x00, 0x00, 0x40, 0x00, 0x40, 0x11, 0x00, 0x00, 0xc0, 0xa8, 0x00,
        0x01, 0xc0, 0xa8, 0x00, 0xc7,
    ];
    let ck = ipv4_checksum(&h);
    assert_eq!(ck, 0xb861);
    h[10] = (ck >> 8) as u8;
    h[11] = (ck & 0xff) as u8;
    assert_eq!(ipv4_checksum(&h), 0);
}

/// The blocks of a capture: their types and bodies.
fn blocks(bytes: &[u8]) -> Vec<(u32, Vec<u8>)> {
    let mut out = Vec::new();
    let mut i = 0;
    while i < bytes.len() {
        let kind = u32::from_le_bytes(bytes[i..i + 4].try_into().unwrap());
        let len = u32::from_le_bytes(bytes[i + 4..i + 8].try_into().unwrap()) as usize;
        assert_eq!(len % 4, 0);
        assert_eq!(&bytes[i + len - 4..i + len], &(len as u32).to_le_bytes());
        out.push((kind, bytes[i + 8..i + len - 4].to_vec()));
        i += len;
    }
    out
}

/// The frame in a packet block.
fn frame(body: &[u8]) -> Vec<u8> {
    let len = u32::from_le_bytes(body[12..16].try_into().unwrap()) as usize;
    body[20..20 + len].to_vec()
}

#[test]
fn pcapng_capture_writes_valid_file_with_packets() {
    let mut st = TestState::new(at(0));
    enable_pcapng(&mut st, true);

    let listener = TcpListener::bind(&mut st, &[sa(0)]).unwrap();
    let server_addr = listener.local_addr().unwrap();
    let client = match TcpStream::connect(&mut st, at(0), vec![server_addr]) {
        Ok(stream) => stream,
        Err(e) => panic!("connect failed: {:?}", e),
    };
    assert!(matches!(client.write(&mut st, at(1), b"hello"), Ok(WriteStep::Done(5))));
    let (server, _) = listener.accept(&mut st).unwrap().unwrap();
    let mut buf = [0u8; 16];
    assert_eq!(server.read(&mut st, at(2), &mut buf).unwrap(), ReadStep::Done(5));
    assert!(matches!(server.write(&mut st, at(2), &buf[..5]), Ok(WriteStep::Done(5))));
    let mut echo = [0u8; 8];
    assert_eq!(client.read(&mut st, at(3), &mut echo).unwrap(), ReadStep::Done(5));
    assert_eq!(&echo[..5], b"hello");

    let udp_server = UdpSocket::bind(&mut st, &[sa(45100)]).unwrap();
    let udp_client = UdpSocket::bind(&mut st, &[sa(45101)]).unwrap();
    udp_client.send_to(&mut st, at(4), b"ping", &[udp_server.local_addr().unwrap()]).unwrap();

    let bytes = take_capture(&mut st);
    assert!(bytes.len() >= 48, "file too small: {} bytes", bytes.len());
    assert_eq!(&bytes[..4], &0x0A0D_0D0Au32.to_le_bytes(), "missing SHB magic at byte 0");
    assert_eq!(&bytes[8..12], &0x1A2B_3C4Du32.to_le_bytes(), "wrong byte-order magic");
    assert_eq!(&bytes[28..32], &1u32.to_le_bytes(), "missing IDB after SHB");
    assert_eq!(&bytes[48..52], &6u32.to_le_bytes(), "missing EPB after IDB");
    assert!(bytes.windows(5).any(|w| w == b"hello"), "TCP payload `hello` not found in pcapng");
    assert!(bytes.windows(4).any(|w| w == b"ping"), "UDP payload `ping` not found in pcapng");

    assert!(take_capture(&mut st).is_empty());
    udp_client.send_to(&mut st, at(5), b"more", &[sa(45100)]).unwrap();
    let more = blocks(&take_capture(&mut st));
    assert_eq!(more.len(), 1);
    assert!(frame(&more[0].1).ends_with(b"more"));
}

#[test]
fn a_flow_is_opened_once_and_finished_once() {
    let at = SystemTime::from_unix_epoch(Duration::from_secs(1));
    let mut w = PcapWriter::create();
    w.tcp_open(sa(1), sa(2), at);
    let handshake = blocks(&w.take_output()).len();
    assert_eq!(handshake, 2 + 3);
    w.tcp_open(sa(1), sa(2), at);
    assert!(w.take_output().is_empty());
    w.tcp_data(sa(1), sa(2), b"", at);
    assert!(w.take_output().is_empty());
    w.tcp_fin(sa(1), sa(2), at);
    assert!(!w.take_output().is_empty());
    w.tcp_fin(sa(1), sa(2), at);
    assert!(w.take_output().is_empty());
}

#[test]
fn a_datagram_is_framed_as_it_should_be() {
    let at = SystemTime::from_unix_epoch(Duration::from_secs(1));
    let mut w = PcapWriter::create();
    w.udp_datagram(sa(0x1234), sa(0x5678), b"udp", at);
    let all = blocks(&w.take_output());
    assert_eq!(all.iter().map(|b| b.0).collect::<Vec<u32>>(), vec![0x0A0D_0D0A, 1, 6]);
    let frame = frame(&all[2].1);
    assert_eq!(frame.len(), 14 + 20 + 8 + 3);
    assert_eq!(&frame[12..14], &[0x08, 0x00]);
    assert_eq!(frame[14], 0x45);
    assert_eq!(&frame[16..18], &31u16.to_be_bytes());
    assert_eq!(frame[23], 17);
    assert_eq!(&frame[24..26], &[0, 0]);
    assert_eq!(&frame[26..30], &[127, 0, 0, 1]);
    assert_eq!(&frame[34..36], &[0x12, 0x34]);
    assert_eq!(&frame[36..38], &[0x56, 0x78]);
    assert_eq!(&frame[38..40], &11u16.to_be_bytes());
    assert_eq!(&frame[42..], b"udp");
}

#[test]
fn names_are_made_fit_for_files() {
    assert_eq!(sanitize_name("a::b c/d-e_f.g"), "a--b_c_d-e_f.g");
    assert_eq!(capture_file_name("mod::test"), "mod--test.pcapng");
}

#[test]
fn a_list_names_tests() {
    assert!(env_force_match("my_test,other::test", "my_test"));
    assert!(env_force_match("my_test, other::test ", "other::test"));
    assert!(!env_force_match("my_test,other::test", "other"));
    assert!(!env_force_match("", "x"));
}

#[test]
fn a_named_test_is_captured() {
    let mut harness = Harness::isolated();
    let name = Some(String::from("my_test"));
    let file = harness.register_test(ThreadId(1), at(0), name, Some("a,my_test"));
    assert_eq!(file, Some(String::from("my_test.pcapng")));
    let other = harness.register_test(ThreadId(2), at(0), Some(String::from("b")), Some("a"));
    assert_eq!(other, None);
    let st = harness.network(ThreadId(2));
    assert_eq!(pcap_file_to_open(st, Some("thread")), Some(String::from("b.pcapng")));
    enable_pcapng(st, false);
    assert!(take_capture(st).is_empty());
    enable_pcapng(st, true);
    assert_eq!(pcap_file_to_open(st, None), None);
    assert_eq!(blocks(&take_capture(st)).len(), 2);
}
