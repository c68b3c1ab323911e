use portscan::analyze::analyze;
use portscan::ip::Ip;

const TCP_RST: u8 = 0x04;

fn eth_header(ether_type: [u8; 2]) -> Vec<u8> {
    let mut f = vec![0xaa, 0xbb, 0xcc, 0xdd, 0xee, 0xff, 0x11, 0x22, 0x33, 0x44, 0x55, 0x66];
    f.extend_from_slice(&ether_type);
    f
}

fn ipv4_header(src: [u8; 4], dst: [u8; 4], protocol: u8, payload_len: u8) -> Vec<u8> {
    let total_len = 20 + payload_len as u16;
    let mut h = vec![
        0x45,
        0x00,
        (total_len >> 8) as u8,
        (total_len & 0xff) as u8,
        0x00,
        0x00,
        0x00,
        0x00,
        64,
        protocol,
        0x00,
        0x00,
    ];
    h.extend_from_slice(&src);
    h.extend_from_slice(&dst);
    h
}

fn tcp_header(flags: u8) -> Vec<u8> {
    let mut h = vec![0x00, 0x50, 0x1f, 0x90];
    h.extend_from_slice(&[0; 8]);
    h.push(0x50);
    h.push(flags);
    h.extend_from_slice(&[0x10, 0x00, 0x00, 0x00, 0x00, 0x00]);
    h
}

fn udp_header() -> Vec<u8> {
    vec![0x00, 0x35, 0x00, 0x35, 0x00, 0x08, 0x00, 0x00]
}

fn tcp_v4_frame(src: [u8; 4], dst: [u8; 4], flags: u8) -> Vec<u8> {
    let mut f = eth_header([0x08, 0x00]);
    f.extend_from_slice(&ipv4_header(src, dst, 6, 20));
    f.extend_from_slice(&tcp_header(flags));
    f
}

fn udp_v4_frame(src: [u8; 4], dst: [u8; 4]) -> Vec<u8> {
    let mut f = eth_header([0x08, 0x00]);
    f.extend_from_slice(&ipv4_header(src, dst, 17, 8));
    f.extend_from_slice(&udp_header());
    f
}

fn udp_v6_frame(src: [u8; 16], dst: [u8; 16]) -> Vec<u8> {
    let mut f = eth_header([0x86, 0xdd]);
    f.extend_from_slice(&[0x60, 0x00, 0x00, 0x00, 0x00, 0x08, 17, 64]);
    f.extend_from_slice(&src);
    f.extend_from_slice(&dst);
    f.extend_from_slice(&udp_header());
    f
}

#[test]
fn malformed_frame_is_skipped_and_rest_counted() {
    let a = [1, 2, 3, 4];
    let b = [5, 6, 7, 8];
    let mut frames = vec![vec![0u8; 10]];
    for _ in 0..9 {
        frames.push(tcp_v4_frame(a, b, 0));
    }
    let alerts = analyze(&frames, 5);
    assert_eq!(alerts.len(), 1);
    assert_eq!(alerts[0].src, Ip::V4(a));
    assert_eq!(alerts[0].dst, Ip::V4(b));
    assert_eq!(alerts[0].count, 9);
    assert_eq!(
        alerts[0].line(),
        "1.2.3.4 may have attempted a port scan attack on 5.6.7.8 (9 packets sent)."
    );
}

#[test]
fn resets_and_non_ip_frames_are_excluded() {
    let a = [10, 0, 0, 1];
    let b = [10, 0, 0, 2];
    let mut frames = Vec::new();
    for _ in 0..4 {
        frames.push(tcp_v4_frame(a, b, 0));
    }
    // answers from the scanned host: TCP with the reset flag set
    frames.push(tcp_v4_frame(b, a, TCP_RST));
    frames.push(tcp_v4_frame(b, a, TCP_RST));
    // a well-formed frame of an unrecognized ether type: no IP layer
    let mut other = eth_header([0x88, 0xb5]);
    other.extend_from_slice(&[0xde, 0xad, 0xbe, 0xef]);
    frames.push(other);
    let alerts = analyze(&frames, 3);
    assert_eq!(alerts.len(), 1);
    assert_eq!(alerts[0].src, Ip::V4(a));
    assert_eq!(alerts[0].dst, Ip::V4(b));
    assert_eq!(alerts[0].count, 4);
}

#[test]
fn udp_and_ipv6_frames_are_counted() {
    let a = [192, 168, 0, 1];
    let b = [192, 168, 0, 9];
    let s6 = [0x20, 1, 0, 0, 0, 0, 0, 0, 0, 0, 0, 0, 0, 0, 0, 1];
    let d6 = [0x20, 1, 0, 0, 0, 0, 0, 0, 0, 0, 0, 0, 0, 0, 0, 2];
    let mut frames = Vec::new();
    for _ in 0..2 {
        frames.push(udp_v4_frame(a, b));
    }
    for _ in 0..3 {
        frames.push(udp_v6_frame(s6, d6));
    }
    let alerts = analyze(&frames, 1);
    assert_eq!(alerts.len(), 2);
    let v4_alert = alerts.iter().find(|al| al.src == Ip::V4(a)).unwrap();
    assert_eq!(v4_alert.dst, Ip::V4(b));
    assert_eq!(v4_alert.count, 2);
    let v6_alert = alerts.iter().find(|al| al.src == Ip::V6(s6)).unwrap();
    assert_eq!(v6_alert.dst, Ip::V6(d6));
    assert_eq!(v6_alert.count, 3);
}

#[test]
fn empty_capture_yields_no_alerts() {
    let frames: Vec<Vec<u8>> = Vec::new();
    let alerts = analyze(&frames, 0);
    assert_eq!(alerts.len(), 0);
}

#[test]
fn truncated_ip_payload_is_skipped() {
    let a = [1, 1, 1, 1];
    let b = [2, 2, 2, 2];
    // declares a 20-byte TCP payload but carries none
    let mut truncated = eth_header([0x08, 0x00]);
    truncated.extend_from_slice(&ipv4_header(a, b, 6, 20));
    let frames = vec![truncated, udp_v4_frame(a, b)];
    let alerts = analyze(&frames, 0);
    assert_eq!(alerts.len(), 1);
    assert_eq!(alerts[0].count, 1);
}
