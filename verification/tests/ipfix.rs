use byteorder::{BigEndian, ByteOrder};
use netflow_agent::config::ExportConfig;
use netflow_agent::flow::{FlowEntry, FlowKey};
use netflow_agent::ipfix::{
    advance_sequence, build_data_set, build_ipfix_message, build_template_set, data_set_len,
    max_records_per_datagram, padded_len, template_fields, to_u32_counter, ExportClock,
    IpfixSession, IPFIX_HEADER_LEN, MAX_DATAGRAM_LEN, RECORD_LEN, TEMPLATE_ID, TEMPLATE_SET_ID,
};

const NOW: u64 = 5_000_000_000;

fn test_flow(now: u64) -> FlowEntry {
    FlowEntry {
        key: FlowKey {
            src_ip: 0x0a00_0001,
            dst_ip: 0x0808_0808,
            src_port: 50_000,
            dst_port: 443,
            protocol: 6,
        },
        packets: 3,
        bytes: 1_500,
        tcp_flags: 0x1b,
        first_seen: now,
        last_seen: now + 250_000_000,
    }
}

fn test_clock(now: u64) -> ExportClock {
    ExportClock {
        anchor_ns: now,
        anchor_unix_ms: 1_700_000_000_000,
    }
}

#[test]
fn template_fields_match_iana_registry() {
    assert_eq!(
        template_fields(),
        vec![
            (1, 4),
            (2, 4),
            (4, 1),
            (6, 2),
            (7, 2),
            (11, 2),
            (8, 4),
            (12, 4),
            (10, 4),
            (14, 4),
            (152, 8),
            (153, 8),
        ]
    );
    assert_eq!(
        template_fields()
            .iter()
            .map(|(_, len)| usize::from(*len))
            .sum::<usize>(),
        RECORD_LEN
    );
}

#[test]
fn template_set_has_expected_layout() {
    let template = build_template_set(TEMPLATE_ID);
    assert_eq!(template.len(), 56);
    assert_eq!(BigEndian::read_u16(&template[0..2]), TEMPLATE_SET_ID);
    assert_eq!(BigEndian::read_u16(&template[2..4]), 56);
    assert_eq!(BigEndian::read_u16(&template[4..6]), TEMPLATE_ID);
    assert_eq!(BigEndian::read_u16(&template[6..8]), 12);
}

#[test]
fn template_set_lists_every_field_specifier() {
    let template = build_template_set(TEMPLATE_ID);
    for (i, (typ, len)) in template_fields().iter().enumerate() {
        let at = 8 + 4 * i;
        assert_eq!(BigEndian::read_u16(&template[at..at + 2]), *typ);
        assert_eq!(BigEndian::read_u16(&template[at + 2..at + 4]), *len);
    }
}

#[test]
fn data_record_offsets_and_timestamps_match_template() {
    let now = NOW;
    let data = build_data_set(TEMPLATE_ID, &[test_flow(now)], test_clock(now)).unwrap();
    let record = &data[4..4 + RECORD_LEN];

    assert_eq!(BigEndian::read_u32(&record[0..4]), 1_500);
    assert_eq!(BigEndian::read_u32(&record[4..8]), 3);
    assert_eq!(record[8], 6);
    assert_eq!(BigEndian::read_u16(&record[9..11]), 0x1b);
    assert_eq!(BigEndian::read_u16(&record[11..13]), 50_000);
    assert_eq!(BigEndian::read_u16(&record[13..15]), 443);
    assert_eq!(&record[15..19], &[10, 0, 0, 1]);
    assert_eq!(&record[19..23], &[8, 8, 8, 8]);
    assert_eq!(BigEndian::read_u32(&record[23..27]), 1);
    assert_eq!(BigEndian::read_u32(&record[27..31]), 0);
    assert_eq!(BigEndian::read_u64(&record[31..39]), 1_700_000_000_000);
    assert_eq!(BigEndian::read_u64(&record[39..47]), 1_700_000_000_250);
}

#[test]
fn data_sets_are_padded_to_four_octets() {
    let now = NOW;
    let flow = test_flow(now);
    let one =
        build_data_set(TEMPLATE_ID, std::slice::from_ref(&flow), test_clock(now)).unwrap();
    let two = build_data_set(TEMPLATE_ID, &[flow.clone(), flow], test_clock(now)).unwrap();

    assert_eq!(one.len(), 52);
    assert_eq!(one.len() % 4, 0);
    assert_eq!(one[51], 0);
    assert_eq!(BigEndian::read_u16(&one[2..4]) as usize, one.len());
    assert_eq!(two.len(), 100);
    assert_eq!(two.len() % 4, 0);
    assert_eq!(&two[98..100], &[0, 0]);
}

#[test]
fn message_header_and_lengths_are_valid() {
    let now = NOW;
    let flow = test_flow(now);
    let template = build_template_set(TEMPLATE_ID);
    let data = build_data_set(TEMPLATE_ID, &[flow], test_clock(now)).unwrap();
    let msg = build_ipfix_message(&[template, data], 1, 1, 1_700_000_000).unwrap();

    assert_eq!(BigEndian::read_u16(&msg[0..2]), 10);
    assert_eq!(BigEndian::read_u16(&msg[2..4]) as usize, msg.len());
    assert_eq!(msg.len(), 124);
    assert_eq!(BigEndian::read_u32(&msg[8..12]), 1);
    assert_eq!(BigEndian::read_u32(&msg[12..16]), 1);
}

#[test]
fn message_header_carries_export_time() {
    let msg = build_ipfix_message(&[], 7, 9, 1_700_000_123).unwrap();
    assert_eq!(msg.len(), IPFIX_HEADER_LEN);
    assert_eq!(BigEndian::read_u32(&msg[4..8]), 1_700_000_123);
    assert_eq!(BigEndian::read_u32(&msg[8..12]), 7);
    assert_eq!(BigEndian::read_u32(&msg[12..16]), 9);
}

#[test]
fn oversized_message_is_refused() {
    let big = vec![0u8; 70_000];
    assert!(build_ipfix_message(&[big], 0, 0, 0).is_err());
}

#[test]
fn datagram_capacity_stays_below_limit() {
    for include_template in [false, true] {
        let count = max_records_per_datagram(include_template);
        let template_len = if include_template { 56 } else { 0 };
        let message_len = IPFIX_HEADER_LEN + template_len + data_set_len(count).unwrap();
        assert!(count > 0);
        assert!(message_len <= MAX_DATAGRAM_LEN);
        assert!(
            IPFIX_HEADER_LEN + template_len + data_set_len(count + 1).unwrap()
                > MAX_DATAGRAM_LEN
        );
    }
}

#[test]
fn sequence_advances_by_data_record_count() {
    let sequence = u32::MAX - 1;
    assert_eq!(advance_sequence(sequence, 3), 1);
}

#[test]
fn sequence_advance_composes() {
    let s = 4_000_000_000u32;
    assert_eq!(
        advance_sequence(advance_sequence(s, 200_000_000), 200_000_000),
        advance_sequence(s, 400_000_000)
    );
}

#[test]
fn padding_and_set_length_limits() {
    assert_eq!(padded_len(51), 52);
    assert_eq!(padded_len(52), 52);
    assert_eq!(padded_len(0), 0);
    assert_eq!(data_set_len(0).unwrap(), 4);
    assert_eq!(data_set_len(1).unwrap(), 52);
    assert!(data_set_len(1394).unwrap() <= 65535);
    assert!(data_set_len(1395).is_err());
    assert!(data_set_len(usize::MAX).is_err());
}

#[test]
fn counters_saturate_at_u32_max() {
    assert_eq!(to_u32_counter(7), 7);
    assert_eq!(to_u32_counter(u32::MAX as u64), u32::MAX);
    assert_eq!(to_u32_counter(u64::MAX), u32::MAX);
}

#[test]
fn clock_maps_monotonic_time_to_unix_millis() {
    let clock = test_clock(NOW);
    assert_eq!(clock.unix_millis(NOW), 1_700_000_000_000);
    assert_eq!(clock.unix_millis(NOW + 1_999_999), 1_700_000_000_001);
    assert_eq!(clock.unix_millis(NOW - 3_000_000), 1_699_999_999_997);
    let early = ExportClock { anchor_ns: NOW, anchor_unix_ms: 2 };
    assert_eq!(early.unix_millis(0), 0);
    let late = ExportClock { anchor_ns: 0, anchor_unix_ms: u64::MAX - 1 };
    assert_eq!(late.unix_millis(NOW), u64::MAX);
    let c = ExportClock::now(NOW, Some(1_700_000_000_123_456_789));
    assert_eq!(c.anchor_ns, NOW);
    assert_eq!(c.anchor_unix_ms, 1_700_000_000_123);
    assert_eq!(ExportClock::now(NOW, None).anchor_unix_ms, 0);
}

#[test]
fn batches_are_split_into_datagrams_below_the_limit() {
    let cfg = ExportConfig { format: "ipfix".to_string(), observation_domain_id: 0, source_id: 42 };
    let mut session = IpfixSession::new(&cfg);
    assert_eq!(session.domain_id, 42);
    let flows: Vec<FlowEntry> = (0..60).map(|i| {
        let mut f = test_flow(NOW);
        f.key.src_port = i as u16;
        f
    }).collect();

    let mut batch = session.begin_batch(NOW, Some(1_700_000_000_000_000_000));
    assert!(batch.send_template);
    let mut sizes = Vec::new();
    let mut sequences = Vec::new();
    let mut ports = Vec::new();
    while let Some(d) = session.next_datagram(&batch, &flows, 1_700_000_000).unwrap() {
        assert!(d.bytes.len() <= MAX_DATAGRAM_LEN);
        assert_eq!(BigEndian::read_u16(&d.bytes[2..4]) as usize, d.bytes.len());
        sequences.push(BigEndian::read_u32(&d.bytes[8..12]));
        assert_eq!(BigEndian::read_u32(&d.bytes[12..16]), 42);
        let first_set = BigEndian::read_u16(&d.bytes[16..18]);
        let data_at = if first_set == TEMPLATE_SET_ID { 16 + 56 } else { 16 };
        for r in 0..d.records {
            let at = data_at + 4 + r * RECORD_LEN + 11;
            ports.push(BigEndian::read_u16(&d.bytes[at..at + 2]));
        }
        sizes.push((d.records, first_set == TEMPLATE_SET_ID));
        session.datagram_sent(&mut batch, d.records, NOW + 1);
    }
    assert_eq!(sizes, vec![(28, true), (29, false), (3, false)]);
    assert_eq!(sequences, vec![0, 28, 57]);
    assert_eq!(ports, (0..60).collect::<Vec<u16>>());
    assert_eq!(session.sequence, 60);
    assert_eq!(session.last_template, Some(NOW + 1));

    // Within a minute the template is not repeated; after it, it is.
    assert!(!session.begin_batch(NOW + 30_000_000_000, None).send_template);
    assert!(session.begin_batch(NOW + 60_000_000_001, None).send_template);
}

#[test]
fn empty_batches_send_nothing() {
    let cfg = ExportConfig { format: "ipfix".to_string(), observation_domain_id: 7, source_id: 42 };
    let session = IpfixSession::new(&cfg);
    assert_eq!(session.domain_id, 7);
    let batch = session.begin_batch(NOW, None);
    assert!(session.next_datagram(&batch, &[], 0).unwrap().is_none());
}
