use portscan::aggregate::aggregate;
use portscan::frame::{DecodedFrame, IpHeaderInfo, PacketSrcDst, TransportInfo};
use portscan::ip::Ip;
use portscan::report::{report, Alert};

fn v4(a: u8, b: u8, c: u8, d: u8) -> Ip {
    Ip::V4([a, b, c, d])
}

fn plain_frame(src: Ip, dst: Ip) -> DecodedFrame {
    DecodedFrame { ip: Some(IpHeaderInfo { src, dst }), transport: None }
}

fn tcp_frame(src: Ip, dst: Ip, rst: bool) -> DecodedFrame {
    DecodedFrame {
        ip: Some(IpHeaderInfo { src, dst }),
        transport: Some(TransportInfo { tcp_rst: rst }),
    }
}

fn non_ip_frame() -> DecodedFrame {
    DecodedFrame { ip: None, transport: None }
}

fn key(src: Ip, dst: Ip) -> PacketSrcDst {
    PacketSrcDst { src, dst }
}

#[test]
fn five_identical_frames_reported_once() {
    let a = v4(1, 2, 3, 4);
    let b = v4(5, 6, 7, 8);
    let frames = vec![plain_frame(a, b); 5];
    let table = aggregate(&frames);
    assert_eq!(table.len(), 1);
    assert_eq!(table.count(&key(a, b)), 5);
    let alerts = report(&table, 3);
    assert_eq!(alerts.len(), 1);
    assert_eq!(alerts[0].src, a);
    assert_eq!(alerts[0].dst, b);
    assert_eq!(alerts[0].count, 5);
    assert_eq!(
        alerts[0].line(),
        "1.2.3.4 may have attempted a port scan attack on 5.6.7.8 (5 packets sent)."
    );
}

#[test]
fn reset_direction_never_enters_table() {
    let a = v4(10, 0, 0, 1);
    let b = v4(10, 0, 0, 2);
    let mut frames = vec![tcp_frame(a, b, false); 4];
    frames.push(tcp_frame(b, a, true));
    frames.push(tcp_frame(b, a, true));
    let table = aggregate(&frames);
    assert_eq!(table.len(), 1);
    assert_eq!(table.count(&key(a, b)), 4);
    assert_eq!(table.count(&key(b, a)), 0);
    let alerts = report(&table, 3);
    assert_eq!(alerts.len(), 1);
    assert_eq!(alerts[0].src, a);
    assert_eq!(alerts[0].dst, b);
    assert_eq!(alerts[0].count, 4);
}

#[test]
fn empty_capture_yields_empty_table_and_no_alerts() {
    let frames: Vec<DecodedFrame> = Vec::new();
    let table = aggregate(&frames);
    assert_eq!(table.len(), 0);
    let alerts = report(&table, 0);
    assert_eq!(alerts.len(), 0);
}

#[test]
fn non_ip_frames_leave_table_unchanged() {
    let a = v4(1, 1, 1, 1);
    let b = v4(2, 2, 2, 2);
    let base = vec![plain_frame(a, b), plain_frame(a, b), plain_frame(a, b)];
    let mut noisy = Vec::new();
    noisy.push(non_ip_frame());
    noisy.push(base[0]);
    noisy.push(non_ip_frame());
    noisy.push(base[1]);
    noisy.push(base[2]);
    noisy.push(non_ip_frame());
    let t1 = aggregate(&base);
    let t2 = aggregate(&noisy);
    assert_eq!(t1.len(), t2.len());
    assert_eq!(t1.count(&key(a, b)), t2.count(&key(a, b)));
    assert_eq!(t2.count(&key(a, b)), 3);
}

#[test]
fn reset_frames_leave_table_unchanged_for_any_addresses() {
    let a = v4(1, 1, 1, 1);
    let b = v4(2, 2, 2, 2);
    let c = Ip::V6([9; 16]);
    let base = vec![plain_frame(a, b), plain_frame(a, b)];
    let mut noisy = vec![tcp_frame(a, b, true)];
    noisy.push(base[0]);
    noisy.push(tcp_frame(c, a, true));
    noisy.push(base[1]);
    noisy.push(tcp_frame(b, a, true));
    let t1 = aggregate(&base);
    let t2 = aggregate(&noisy);
    assert_eq!(t1.len(), 1);
    assert_eq!(t2.len(), 1);
    assert_eq!(t1.count(&key(a, b)), 2);
    assert_eq!(t2.count(&key(a, b)), 2);
}

#[test]
fn permutations_count_alike() {
    let a = v4(1, 0, 0, 1);
    let b = v4(1, 0, 0, 2);
    let c = v4(1, 0, 0, 3);
    let f1 = plain_frame(a, b);
    let f2 = plain_frame(b, a);
    let f3 = plain_frame(a, c);
    let order1 = vec![f1, f1, f2, f3, f1, f3];
    let order2 = vec![f3, f1, f3, f2, f1, f1];
    let t1 = aggregate(&order1);
    let t2 = aggregate(&order2);
    for k in [key(a, b), key(b, a), key(a, c), key(c, a)] {
        assert_eq!(t1.count(&k), t2.count(&k));
    }
    assert_eq!(t1.count(&key(a, b)), 3);
    assert_eq!(t1.count(&key(b, a)), 1);
    assert_eq!(t1.count(&key(a, c)), 2);
    assert_eq!(t1.count(&key(c, a)), 0);
}

#[test]
fn opposite_directions_are_distinct_keys() {
    let a = v4(8, 8, 8, 8);
    let b = v4(9, 9, 9, 9);
    let frames = vec![plain_frame(a, b), plain_frame(b, a)];
    let table = aggregate(&frames);
    assert_eq!(table.len(), 2);
    assert_eq!(table.count(&key(a, b)), 1);
    assert_eq!(table.count(&key(b, a)), 1);
}

#[test]
fn count_equal_to_threshold_is_not_reported() {
    let a = v4(3, 3, 3, 3);
    let b = v4(4, 4, 4, 4);
    let frames = vec![plain_frame(a, b); 7];
    let table = aggregate(&frames);
    let at_threshold = report(&table, 7);
    assert_eq!(at_threshold.len(), 0);
    let below_threshold = report(&table, 6);
    assert_eq!(below_threshold.len(), 1);
    assert_eq!(below_threshold[0].count, 7);
}

#[test]
fn ipv6_addresses_render_as_dotted_decimal_bytes() {
    let src = Ip::V6([0, 1, 2, 3, 4, 5, 6, 7, 8, 9, 10, 11, 12, 13, 14, 255]);
    let dst = v4(0, 255, 10, 1);
    assert_eq!(src.render(), "0.1.2.3.4.5.6.7.8.9.10.11.12.13.14.255");
    assert_eq!(dst.render(), "0.255.10.1");
    let alert = Alert { src, dst, count: 120 };
    assert_eq!(
        alert.line(),
        "0.1.2.3.4.5.6.7.8.9.10.11.12.13.14.255 may have attempted a port scan attack on \
         0.255.10.1 (120 packets sent)."
    );
}

#[test]
fn addresses_compare_by_tag_and_bytes() {
    assert_eq!(v4(1, 2, 3, 4), v4(1, 2, 3, 4));
    assert_ne!(v4(1, 2, 3, 4), v4(1, 2, 3, 5));
    let mapped = Ip::V6([0, 0, 0, 0, 0, 0, 0, 0, 0, 0, 0xff, 0xff, 1, 2, 3, 4]);
    assert_ne!(v4(1, 2, 3, 4), mapped);
    assert_eq!(key(v4(1, 2, 3, 4), v4(5, 6, 7, 8)), key(v4(1, 2, 3, 4), v4(5, 6, 7, 8)));
    assert_ne!(key(v4(1, 2, 3, 4), v4(5, 6, 7, 8)), key(v4(5, 6, 7, 8), v4(1, 2, 3, 4)));
}
