use byteorder::{BigEndian, ByteOrder};
use netflow_agent::flow::{FlowEntry, FlowKey};
use netflow_agent::netflow_v9::{
    build_data_flowset, build_template_flowset, build_v9_packet, template_fields, uptime_ms,
    NetflowV9Session, RECORD_LEN, TEMPLATE_ID,
};

fn flow(now: u64) -> FlowEntry {
    FlowEntry {
        key: FlowKey {
            src_ip: 0x0a00_0001,
            dst_ip: 0x0808_0808,
            src_port: 12345,
            dst_port: 443,
            protocol: 6,
        },
        packets: 10,
        bytes: 9000,
        tcp_flags: 0,
        first_seen: now,
        last_seen: now,
    }
}

#[test]
fn template_flowset_has_expected_length() {
    let fs = build_template_flowset(TEMPLATE_ID);
    assert_eq!(fs.len(), 4 + 4 + template_fields().len() * 4);
    assert_eq!(RECORD_LEN, 37);
}

#[test]
fn builds_data_flowset_for_one_flow() {
    let now = 3_000_000_000;
    let fs = build_data_flowset(TEMPLATE_ID, &[flow(now)], now).unwrap();
    assert_eq!(fs.len(), 4 + 37);
}

#[test]
fn data_record_fields_in_template_order() {
    let boot = 1_000_000_000;
    let mut f = flow(boot + 2_500_000_000);
    f.last_seen = boot + 7_000_000_000;
    let fs = build_data_flowset(TEMPLATE_ID, &[f], boot).unwrap();
    assert_eq!(BigEndian::read_u16(&fs[0..2]), TEMPLATE_ID);
    assert_eq!(BigEndian::read_u16(&fs[2..4]), 41);
    let r = &fs[4..];
    assert_eq!(BigEndian::read_u64(&r[0..8]), 9000);
    assert_eq!(BigEndian::read_u64(&r[8..16]), 10);
    assert_eq!(r[16], 6);
    assert_eq!(BigEndian::read_u16(&r[17..19]), 12345);
    assert_eq!(BigEndian::read_u16(&r[19..21]), 443);
    assert_eq!(&r[21..25], &[10, 0, 0, 1]);
    assert_eq!(&r[25..29], &[8, 8, 8, 8]);
    assert_eq!(BigEndian::read_u32(&r[29..33]), 2500);
    assert_eq!(BigEndian::read_u32(&r[33..37]), 7000);
}

#[test]
fn template_flowset_layout() {
    let fs = build_template_flowset(TEMPLATE_ID);
    assert_eq!(BigEndian::read_u16(&fs[0..2]), 0);
    assert_eq!(BigEndian::read_u16(&fs[2..4]) as usize, fs.len());
    assert_eq!(BigEndian::read_u16(&fs[4..6]), 256);
    assert_eq!(BigEndian::read_u16(&fs[6..8]), 9);
    let total: u16 = template_fields().iter().map(|(_, l)| *l).sum();
    assert_eq!(total, RECORD_LEN);
}

#[test]
fn uptime_saturates_and_clamps() {
    assert_eq!(uptime_ms(5, 1), 0);
    assert_eq!(uptime_ms(0, 1_999_999), 1);
    assert_eq!(uptime_ms(0, u64::MAX), u32::MAX);
}

#[test]
fn packet_header_layout() {
    let p = build_v9_packet(&[vec![1, 2, 3], vec![4]], 77, 5, 0, 4_000_000, 1_700_000_000);
    assert_eq!(p.len(), 24);
    assert_eq!(BigEndian::read_u16(&p[0..2]), 9);
    assert_eq!(BigEndian::read_u16(&p[2..4]), 2);
    assert_eq!(BigEndian::read_u32(&p[4..8]), 4);
    assert_eq!(BigEndian::read_u32(&p[8..12]), 1_700_000_000);
    assert_eq!(BigEndian::read_u32(&p[12..16]), 77);
    assert_eq!(BigEndian::read_u32(&p[16..20]), 5);
    assert_eq!(&p[20..], &[1, 2, 3, 4]);
}

#[test]
fn session_sends_template_first_and_counts_packets() {
    let boot = 1_000;
    let mut s = NetflowV9Session::new(9, boot);
    assert!(s.prepare_export(&[], boot, 0).unwrap().is_none());
    assert_eq!(s.sequence, 0);

    let p1 = s.prepare_export(&[flow(boot)], boot + 10, 1).unwrap().unwrap();
    assert_eq!(BigEndian::read_u16(&p1[2..4]), 2);
    assert_eq!(BigEndian::read_u32(&p1[12..16]), 0);
    assert_eq!(BigEndian::read_u32(&p1[16..20]), 9);
    assert_eq!(p1.len(), 20 + 44 + 41);
    assert_eq!(s.sequence, 1);
    assert_eq!(s.last_template, Some(boot + 10));

    let p2 = s.prepare_export(&[flow(boot), flow(boot)], boot + 20, 1).unwrap().unwrap();
    assert_eq!(BigEndian::read_u16(&p2[2..4]), 1);
    assert_eq!(BigEndian::read_u32(&p2[12..16]), 1);
    assert_eq!(p2.len(), 20 + 4 + 74);
    assert_eq!(s.sequence, 2);

    let p3 = s.prepare_export(&[flow(boot)], boot + 10 + 60_000_000_000, 1).unwrap().unwrap();
    assert_eq!(BigEndian::read_u16(&p3[2..4]), 2);
}
