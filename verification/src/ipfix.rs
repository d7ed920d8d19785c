//! IPFIX (RFC 7011) message encoding and the export state of one exporter.
use crate::bytes::{be_value, lemma_be_fixed, be_bytes, lemma_be_bytes_len, put_u16, put_u32, put_u64, put_u8, put_all};
use crate::config::ExportConfig;
use crate::export::{
    concat, contents, field_specifiers, fields_len, lemma_field_specifiers_len, lemma_fields_len_take_step, spec_template_due,
    template_due, ExportError,
};
use crate::flow::FlowEntry;
use vstd::prelude::*;

verus! {

pub const IPFIX_VERSION: u16 = 10;
pub const TEMPLATE_SET_ID: u16 = 2;
/// Bumped from 258 because v0.3.0 advertised an invalid IPFIX field layout.
pub const TEMPLATE_ID: u16 = 259;
pub const IPFIX_HEADER_LEN: usize = 16;
/// Keep UDP payloads below a typical Ethernet MTU to avoid IP fragmentation.
pub const MAX_DATAGRAM_LEN: usize = 1400;
/// Sum of the template's field lengths.
pub const RECORD_LEN: usize = 47;
/// Length of the template set.
pub const TEMPLATE_SET_LEN: usize = 56;
pub const INPUT_SNMP_INDEX: u32 = 1;
pub const OUTPUT_SNMP_INDEX: u32 = 0;

/// IANA IPFIX information elements of the template, as (type, length):
/// octetDeltaCount, packetDeltaCount, protocolIdentifier, tcpControlBits,
/// sourceTransportPort, destinationTransportPort, sourceIPv4Address,
/// destinationIPv4Address, ingressInterface, egressInterface,
/// flowStartMilliseconds, flowEndMilliseconds.
pub open spec fn spec_template_fields() -> Seq<(u16, u16)> {
    seq![
        (1u16, 4u16),
        (2, 4),
        (4, 1),
        (6, 2),
        (7, 2),
        (11, 2),
        (8, 4),
        (12, 4),
        (10, 4),
        (14, 4),
        (152, 8),
        (153, 8),
    ]
}

/// The template fields, in the order the data records carry them.
pub fn template_fields() -> (r: Vec<(u16, u16)>)
    ensures
        r@ == spec_template_fields(),
{
    let r = vec![
        (1u16, 4u16),
        (2, 4),
        (4, 1),
        (6, 2),
        (7, 2),
        (11, 2),
        (8, 4),
        (12, 4),
        (10, 4),
        (14, 4),
        (152, 8),
        (153, 8),
    ];
    assert(r@ =~= spec_template_fields());
    r
}

/// The record length is the sum of the template's field lengths.
pub proof fn lemma_record_len_matches_template()
    ensures
        fields_len(spec_template_fields()) == RECORD_LEN,
{
    reveal_with_fuel(fields_len, 13);
}

/// A template set: set ID 2, set length, template ID, field count, fields.
pub open spec fn spec_template_set(template_id: u16) -> Seq<u8> {
    be_bytes(TEMPLATE_SET_ID as nat, 2) + be_bytes(TEMPLATE_SET_LEN as nat, 2) + be_bytes(
        template_id as nat,
        2,
    ) + be_bytes(spec_template_fields().len(), 2) + field_specifiers(spec_template_fields())
}

/// Builds the template set that announces the data record layout.
pub fn build_template_set(template_id: u16) -> (buf: Vec<u8>)
    ensures
        buf@ == spec_template_set(template_id),
        buf@.len() == TEMPLATE_SET_LEN,
{
    let fields = template_fields();
    let field_count = fields.len() as u16;
    let body_len = 4 + (field_count as usize * 4);
    let set_len = 4 + body_len;

    let mut buf: Vec<u8> = Vec::with_capacity(set_len);
    put_u16(&mut buf, TEMPLATE_SET_ID);
    put_u16(&mut buf, set_len as u16);
    put_u16(&mut buf, template_id);
    put_u16(&mut buf, field_count);
    let ghost head = buf@;
    let mut i: usize = 0;
    while i < fields.len()
        invariant
            fields@ == spec_template_fields(),
            i <= fields@.len(),
            buf@ == head + field_specifiers(fields@.take(i as int)),
        decreases fields@.len() - i,
    {
        let (typ, len) = fields[i];
        put_u16(&mut buf, typ);
        put_u16(&mut buf, len);
        assert(fields@.take(i + 1).drop_last() =~= fields@.take(i as int));
        i += 1;
    }
    proof {
        assert(fields@.take(fields@.len() as int) =~= fields@);
        lemma_field_specifiers_len(spec_template_fields());
        lemma_be_bytes_len(TEMPLATE_SET_ID as nat, 2);
        lemma_be_bytes_len(TEMPLATE_SET_LEN as nat, 2);
        lemma_be_bytes_len(template_id as nat, 2);
        lemma_be_bytes_len(12, 2);
    }
    buf
}

/// `len` rounded up to a multiple of four.
pub open spec fn spec_padded_len(len: int) -> int {
    len + (4 - (len % 4)) % 4
}

pub fn padded_len(len: usize) -> (r: usize)
    requires
        len <= usize::MAX - 3,
    ensures
        r == spec_padded_len(len as int),
        r % 4 == 0,
        len <= r < len + 4,
{
    len + ((4 - (len % 4)) % 4)
}

/// Length of a data set of `record_count` records, padding included, or why
/// there is none.
pub open spec fn spec_data_set_len(record_count: int) -> Result<usize, ExportError> {
    if record_count * RECORD_LEN > usize::MAX {
        Err(ExportError::RecordLengthOverflow)
    } else if 4 + record_count * RECORD_LEN > usize::MAX {
        Err(ExportError::SetLengthOverflow)
    } else if spec_padded_len(4 + record_count * RECORD_LEN) > u16::MAX {
        Err(ExportError::SetTooLarge)
    } else {
        Ok(spec_padded_len(4 + record_count * RECORD_LEN) as usize)
    }
}

pub fn data_set_len(record_count: usize) -> (r: Result<usize, ExportError>)
    ensures
        r == spec_data_set_len(record_count as int),
{
    let records_len = match record_count.checked_mul(RECORD_LEN) {
        Some(v) => v,
        None => return Err(ExportError::RecordLengthOverflow),
    };
    let raw_len = match 4usize.checked_add(records_len) {
        Some(v) => v,
        None => return Err(ExportError::SetLengthOverflow),
    };
    assert(raw_len <= usize::MAX - 3) by {
        assert(usize::MAX == 0xffff_ffff || usize::MAX == 0xffff_ffff_ffff_ffff);
    }
    let set_len = padded_len(raw_len);
    if set_len > u16::MAX as usize {
        return Err(ExportError::SetTooLarge);
    }
    Ok(set_len)
}

/// How many records fit in one datagram, with or without the template set.
pub open spec fn spec_max_records(include_template: bool) -> nat {
    ((MAX_DATAGRAM_LEN - IPFIX_HEADER_LEN - (if include_template { TEMPLATE_SET_LEN } else { 0 })
        - 4) / RECORD_LEN as int) as nat
}

pub fn max_records_per_datagram(include_template: bool) -> (r: usize)
    ensures
        r == spec_max_records(include_template),
        r > 0,
        // The datagram holding `r` records stays within the limit; one more record would not.
        IPFIX_HEADER_LEN + (if include_template { TEMPLATE_SET_LEN } else { 0 })
            + spec_padded_len(4 + r * RECORD_LEN) <= MAX_DATAGRAM_LEN,
        IPFIX_HEADER_LEN + (if include_template { TEMPLATE_SET_LEN } else { 0 })
            + spec_padded_len(4 + (r + 1) * RECORD_LEN) > MAX_DATAGRAM_LEN,
{
    let template_len = if include_template {
        build_template_set(TEMPLATE_ID).len()
    } else {
        0
    };
    let available = MAX_DATAGRAM_LEN.saturating_sub(IPFIX_HEADER_LEN).saturating_sub(
        template_len,
    ).saturating_sub(4);
    available / RECORD_LEN
}

/// The sequence number after `record_count` more data records (RFC 7011
/// counts data records, modulo 2^32).
pub open spec fn spec_advance_sequence(sequence: u32, record_count: nat) -> u32 {
    ((sequence + record_count) % 0x1_0000_0000) as u32
}

pub fn advance_sequence(sequence: u32, record_count: usize) -> (r: u32)
    ensures
        r == spec_advance_sequence(sequence, record_count as nat),
{
    let c = (record_count as u64 % 0x1_0000_0000u64) as u32;
    assert(((sequence + record_count) % 0x1_0000_0000) == ((sequence + c) % 0x1_0000_0000)) by {
        vstd::arithmetic::div_mod::lemma_add_mod_noop(sequence as int, record_count as int, 0x1_0000_0000);
        vstd::arithmetic::div_mod::lemma_add_mod_noop(sequence as int, c as int, 0x1_0000_0000);
    }
    sequence.wrapping_add(c)
}

/// A 64-bit counter in a 32-bit field, saturated at `u32::MAX`.
pub open spec fn spec_to_u32_counter(value: u64) -> u32 {
    if value > u32::MAX {
        u32::MAX
    } else {
        value as u32
    }
}

pub fn to_u32_counter(value: u64) -> (r: u32)
    ensures
        r == spec_to_u32_counter(value),
{
    if value > u32::MAX as u64 {
        u32::MAX
    } else {
        value as u32
    }
}

/// Anchors monotonic timestamps to wall-clock time for one export batch.
#[derive(Clone, Copy, Debug)]
pub struct ExportClock {
    /// Monotonic reading at the anchor, in nanoseconds.
    pub anchor_ns: u64,
    /// Wall-clock time at the anchor, in milliseconds since the Unix epoch.
    pub anchor_unix_ms: u64,
}

/// Milliseconds since the Unix epoch of a monotonic timestamp, saturated at
/// both ends of `u64`.
pub open spec fn spec_unix_millis(clock: ExportClock, event: u64) -> u64 {
    if event >= clock.anchor_ns {
        let sum = clock.anchor_unix_ms + (event - clock.anchor_ns) / 1_000_000;
        if sum > u64::MAX {
            u64::MAX
        } else {
            sum as u64
        }
    } else {
        let diff = clock.anchor_unix_ms - (clock.anchor_ns - event) / 1_000_000;
        if diff < 0 {
            0
        } else {
            diff as u64
        }
    }
}

impl ExportClock {
    pub open spec fn now_spec(now_ns: u64, since_epoch_ns: Option<u128>) -> ExportClock {
        ExportClock {
            anchor_ns: now_ns,
            anchor_unix_ms: match since_epoch_ns {
                None => 0,
                Some(ns) => if ns / 1_000_000 > u64::MAX { u64::MAX } else { (ns / 1_000_000) as u64 },
            },
        }
    }

    /// A clock anchored at monotonic time `now_ns`, when the wall clock reads
    /// `since_epoch_ns` nanoseconds since the Unix epoch (`None` when it
    /// stands before the epoch, read as 0).
    pub fn now(now_ns: u64, since_epoch_ns: Option<u128>) -> (c: ExportClock)
        ensures
            c == Self::now_spec(now_ns, since_epoch_ns),
    {
        let ms = match since_epoch_ns {
            None => 0,
            Some(ns) => {
                let m = ns / 1_000_000;
                if m > u64::MAX as u128 {
                    u64::MAX
                } else {
                    m as u64
                }
            },
        };
        ExportClock { anchor_ns: now_ns, anchor_unix_ms: ms }
    }

    /// The wall-clock time of `event`, in milliseconds since the Unix epoch.
    pub fn unix_millis(self, event: u64) -> (ms: u64)
        ensures
            ms == spec_unix_millis(self, event),
    {
        if event >= self.anchor_ns {
            self.anchor_unix_ms.saturating_add((event - self.anchor_ns) / 1_000_000)
        } else {
            self.anchor_unix_ms.saturating_sub((self.anchor_ns - event) / 1_000_000)
        }
    }
}

/// Later events never map to earlier wall-clock times.
pub proof fn lemma_unix_millis_monotonic(clock: ExportClock, a: u64, b: u64)
    requires
        a <= b,
    ensures
        spec_unix_millis(clock, a) <= spec_unix_millis(clock, b),
{
    let k = clock.anchor_ns;
    if a >= k {
        vstd::arithmetic::div_mod::lemma_div_is_ordered((a - k) as int, (b - k) as int, 1_000_000);
    } else if b < k {
        vstd::arithmetic::div_mod::lemma_div_is_ordered((k - b) as int, (k - a) as int, 1_000_000);
    }
}

/// One data record, its fields in template order.
pub open spec fn spec_data_record(flow: FlowEntry, clock: ExportClock) -> Seq<u8> {
    be_bytes(spec_to_u32_counter(flow.bytes) as nat, 4)
        + be_bytes(spec_to_u32_counter(flow.packets) as nat, 4)
        + seq![flow.key.protocol]
        + be_bytes(flow.tcp_flags as nat, 2)
        + be_bytes(flow.key.src_port as nat, 2)
        + be_bytes(flow.key.dst_port as nat, 2)
        + be_bytes(flow.key.src_ip as nat, 4)
        + be_bytes(flow.key.dst_ip as nat, 4)
        + be_bytes(INPUT_SNMP_INDEX as nat, 4)
        + be_bytes(OUTPUT_SNMP_INDEX as nat, 4)
        + be_bytes(spec_unix_millis(clock, flow.first_seen) as nat, 8)
        + be_bytes(spec_unix_millis(clock, flow.last_seen) as nat, 8)
}

/// The records of `flows`, one after the other.
pub open spec fn spec_data_records(flows: Seq<FlowEntry>, clock: ExportClock) -> Seq<u8>
    decreases flows.len(),
{
    if flows.len() == 0 {
        Seq::empty()
    } else {
        spec_data_records(flows.drop_last(), clock) + spec_data_record(flows.last(), clock)
    }
}

/// `n` zero bytes.
pub open spec fn zeros(n: int) -> Seq<u8> {
    Seq::new(n as nat, |i: int| 0u8)
}

/// A data set: template ID, set length, the records, zero padding to a
/// multiple of four bytes; or why it cannot be built.
pub open spec fn spec_data_set(template_id: u16, flows: Seq<FlowEntry>, clock: ExportClock) -> Result<Seq<u8>, ExportError> {
    match spec_data_set_len(flows.len() as int) {
        Err(e) => Err(e),
        Ok(set_len) => Ok(
            be_bytes(template_id as nat, 2) + be_bytes(set_len as nat, 2) + spec_data_records(flows, clock)
                + zeros(set_len - 4 - flows.len() * RECORD_LEN),
        ),
    }
}

/// A built byte string seen as its contents.
pub open spec fn bytes_of(r: Result<Vec<u8>, ExportError>) -> Result<Seq<u8>, ExportError> {
    match r {
        Ok(v) => Ok(v@),
        Err(e) => Err(e),
    }
}

pub proof fn lemma_data_record_len(flow: FlowEntry, clock: ExportClock)
    ensures
        spec_data_record(flow, clock).len() == RECORD_LEN,
{
    lemma_be_bytes_len(spec_to_u32_counter(flow.bytes) as nat, 4);
    lemma_be_bytes_len(spec_to_u32_counter(flow.packets) as nat, 4);
    lemma_be_bytes_len(flow.tcp_flags as nat, 2);
    lemma_be_bytes_len(flow.key.src_port as nat, 2);
    lemma_be_bytes_len(flow.key.dst_port as nat, 2);
    lemma_be_bytes_len(flow.key.src_ip as nat, 4);
    lemma_be_bytes_len(flow.key.dst_ip as nat, 4);
    lemma_be_bytes_len(INPUT_SNMP_INDEX as nat, 4);
    lemma_be_bytes_len(OUTPUT_SNMP_INDEX as nat, 4);
    lemma_be_bytes_len(spec_unix_millis(clock, flow.first_seen) as nat, 8);
    lemma_be_bytes_len(spec_unix_millis(clock, flow.last_seen) as nat, 8);
}

pub proof fn lemma_data_records_len(flows: Seq<FlowEntry>, clock: ExportClock)
    ensures
        spec_data_records(flows, clock).len() == flows.len() * RECORD_LEN,
    decreases flows.len(),
{
    if flows.len() > 0 {
        lemma_data_records_len(flows.drop_last(), clock);
        lemma_data_record_len(flows.last(), clock);
        assert(flows.len() * RECORD_LEN == (flows.len() - 1) * RECORD_LEN + RECORD_LEN) by (nonlinear_arith);
    }
}

fn put_ipv4(buf: &mut Vec<u8>, ip: u32)
    ensures
        final(buf)@ == old(buf)@ + be_bytes(ip as nat, 4),
{
    put_u32(buf, ip);
}

fn put_data_record(buf: &mut Vec<u8>, flow: &FlowEntry, clock: ExportClock)
    ensures
        final(buf)@ == old(buf)@ + spec_data_record(*flow, clock),
{
    put_u32(buf, to_u32_counter(flow.bytes));
    put_u32(buf, to_u32_counter(flow.packets));
    put_u8(buf, flow.key.protocol);
    put_u16(buf, flow.tcp_flags as u16);
    put_u16(buf, flow.key.src_port);
    put_u16(buf, flow.key.dst_port);
    put_ipv4(buf, flow.key.src_ip);
    put_ipv4(buf, flow.key.dst_ip);
    put_u32(buf, INPUT_SNMP_INDEX);
    put_u32(buf, OUTPUT_SNMP_INDEX);
    put_u64(buf, clock.unix_millis(flow.first_seen));
    put_u64(buf, clock.unix_millis(flow.last_seen));
    assert(buf@ =~= old(buf)@ + spec_data_record(*flow, clock));
}

/// Builds the data set that carries one record per flow.
pub fn build_data_set(template_id: u16, flows: &[FlowEntry], clock: ExportClock) -> (r: Result<Vec<u8>, ExportError>)
    ensures
        bytes_of(r) == spec_data_set(template_id, flows@, clock),
{
    let set_len = match data_set_len(flows.len()) {
        Ok(n) => n,
        Err(e) => return Err(e),
    };
    let mut buf: Vec<u8> = Vec::with_capacity(set_len);
    put_u16(&mut buf, template_id);
    put_u16(&mut buf, set_len as u16);
    let ghost head = buf@;
    let mut i: usize = 0;
    while i < flows.len()
        invariant
            i <= flows@.len(),
            buf@ == head + spec_data_records(flows@.take(i as int), clock),
        decreases flows@.len() - i,
    {
        put_data_record(&mut buf, &flows[i], clock);
        assert(flows@.take(i + 1).drop_last() =~= flows@.take(i as int));
        i += 1;
    }
    assert(flows@.take(flows@.len() as int) =~= flows@);
    proof {
        lemma_data_records_len(flows@, clock);
        lemma_be_bytes_len(template_id as nat, 2);
        lemma_be_bytes_len(set_len as nat, 2);
    }
    let ghost before = buf@;
    buf.resize(set_len, 0u8);
    assert(buf@ =~= before + zeros(set_len - 4 - flows@.len() * RECORD_LEN));
    Ok(buf)
}

/// An IPFIX message: version 10, total length, export time, sequence
/// number, observation domain, then the sets; or why it cannot be built.
pub open spec fn spec_ipfix_message(
    sets: Seq<Seq<u8>>,
    sequence: u32,
    observation_domain_id: u32,
    export_secs: u32,
) -> Result<Seq<u8>, ExportError> {
    let body = concat(sets);
    let total_len = IPFIX_HEADER_LEN + body.len();
    if total_len > usize::MAX {
        Err(ExportError::MessageLengthOverflow)
    } else if total_len > u16::MAX {
        Err(ExportError::MessageTooLarge)
    } else {
        Ok(
            be_bytes(IPFIX_VERSION as nat, 2) + be_bytes(total_len as nat, 2) + be_bytes(
                export_secs as nat,
                4,
            ) + be_bytes(sequence as nat, 4) + be_bytes(observation_domain_id as nat, 4) + body,
        )
    }
}

/// Builds an IPFIX message around `sets`; `export_secs` is the export time
/// in seconds since the Unix epoch.
pub fn build_ipfix_message(
    sets: &[Vec<u8>],
    sequence: u32,
    observation_domain_id: u32,
    export_secs: u32,
) -> (r: Result<Vec<u8>, ExportError>)
    ensures
        bytes_of(r) == spec_ipfix_message(contents(sets@), sequence, observation_domain_id, export_secs),
        r matches Ok(m) ==> m@.len() == IPFIX_HEADER_LEN + concat(contents(sets@)).len(),
{
    let mut body: Vec<u8> = Vec::new();
    let mut i: usize = 0;
    while i < sets.len()
        invariant
            i <= sets@.len(),
            body@ == concat(contents(sets@.take(i as int))),
        decreases sets@.len() - i,
    {
        put_all(&mut body, sets[i].as_slice());
        assert(contents(sets@.take(i + 1)).drop_last() =~= contents(sets@.take(i as int)));
        i += 1;
    }
    assert(sets@.take(sets@.len() as int) =~= sets@);
    let total_len = match IPFIX_HEADER_LEN.checked_add(body.len()) {
        Some(n) => n,
        None => return Err(ExportError::MessageLengthOverflow),
    };
    if total_len > u16::MAX as usize {
        return Err(ExportError::MessageTooLarge);
    }
    let mut packet: Vec<u8> = Vec::with_capacity(total_len);
    put_u16(&mut packet, IPFIX_VERSION);
    put_u16(&mut packet, total_len as u16);
    put_u32(&mut packet, export_secs);
    put_u32(&mut packet, sequence);
    put_u32(&mut packet, observation_domain_id);
    put_all(&mut packet, body.as_slice());
    proof {
        lemma_be_bytes_len(IPFIX_VERSION as nat, 2);
        lemma_be_bytes_len(total_len as nat, 2);
        lemma_be_bytes_len(export_secs as nat, 4);
        lemma_be_bytes_len(sequence as nat, 4);
        lemma_be_bytes_len(observation_domain_id as nat, 4);
    }
    Ok(packet)
}

/// The observation domain of exported messages: `observation_domain_id`
/// when set, otherwise `source_id`.
pub open spec fn spec_domain_id(cfg: ExportConfig) -> u32 {
    if cfg.observation_domain_id != 0 {
        cfg.observation_domain_id
    } else {
        cfg.source_id
    }
}

/// What an IPFIX exporter keeps from one batch to the next.
#[derive(Clone, Copy, Debug)]
pub struct IpfixSession {
    pub domain_id: u32,
    /// Number of data records exported so far, modulo 2^32.
    pub sequence: u32,
    /// When the template was last sent (monotonic nanoseconds).
    pub last_template: Option<u64>,
}

/// Progress through one batch of expired flows.
#[derive(Clone, Copy, Debug)]
pub struct IpfixBatch {
    /// Flows before this index have been sent.
    pub offset: usize,
    /// Whether the next datagram carries the template set.
    pub send_template: bool,
    pub clock: ExportClock,
}

/// One datagram to send, and how many flow records it carries.
pub struct IpfixDatagram {
    pub bytes: Vec<u8>,
    pub records: usize,
}

/// Number of flows the next datagram of `batch` carries.
pub open spec fn spec_chunk_len(batch: IpfixBatch, flow_count: int) -> int {
    let room = spec_max_records(batch.send_template) as int;
    let left = flow_count - batch.offset;
    if room < left {
        room
    } else {
        left
    }
}

/// The sets of a datagram: the template set when due, then the data set.
pub open spec fn spec_datagram_sets(send_template: bool, data_set: Seq<u8>) -> Seq<Seq<u8>> {
    if send_template {
        seq![spec_template_set(TEMPLATE_ID), data_set]
    } else {
        seq![data_set]
    }
}

/// The next datagram of a batch, with its record count; `None` once every
/// flow has been sent.
pub open spec fn spec_next_datagram(
    session: IpfixSession,
    batch: IpfixBatch,
    flows: Seq<FlowEntry>,
    export_secs: u32,
) -> Result<Option<(Seq<u8>, nat)>, ExportError> {
    if batch.offset >= flows.len() {
        Ok(None)
    } else {
        let k = spec_chunk_len(batch, flows.len() as int);
        if k == 0 {
            Err(ExportError::RecordDoesNotFit)
        } else {
            let chunk = flows.subrange(batch.offset as int, batch.offset + k);
            match spec_data_set(TEMPLATE_ID, chunk, batch.clock) {
                Err(e) => Err(e),
                Ok(data) => match spec_ipfix_message(
                    spec_datagram_sets(batch.send_template, data),
                    session.sequence,
                    session.domain_id,
                    export_secs,
                ) {
                    Err(e) => Err(e),
                    Ok(m) => if m.len() > MAX_DATAGRAM_LEN {
                        Err(ExportError::DatagramTooLarge(m.len() as usize))
                    } else {
                        Ok(Some((m, k as nat)))
                    },
                },
            }
        }
    }
}

/// A datagram built, seen as its contents and record count.
pub open spec fn datagram_of(r: Result<Option<IpfixDatagram>, ExportError>) -> Result<Option<(Seq<u8>, nat)>, ExportError> {
    match r {
        Err(e) => Err(e),
        Ok(None) => Ok(None),
        Ok(Some(d)) => Ok(Some((d.bytes@, d.records as nat))),
    }
}

proof fn lemma_concat_pair(a: Seq<u8>, b: Seq<u8>)
    ensures
        concat(seq![a, b]) == a + b,
        concat(seq![b]) == b,
{
    reveal_with_fuel(concat, 3);
    assert(seq![a, b].drop_last() =~= seq![a]);
    assert(seq![a].drop_last() =~= Seq::<Seq<u8>>::empty());
    assert(seq![b].drop_last() =~= Seq::<Seq<u8>>::empty());
    assert(Seq::<u8>::empty() + a =~= a);
    assert(Seq::<u8>::empty() + b =~= b);
}

/// A batch datagram is always built, and it always fits the datagram limit.
pub proof fn lemma_next_datagram_fits(
    session: IpfixSession,
    batch: IpfixBatch,
    flows: Seq<FlowEntry>,
    export_secs: u32,
)
    ensures
        spec_next_datagram(session, batch, flows, export_secs) is Ok,
        spec_next_datagram(session, batch, flows, export_secs) matches Ok(Some((m, k))) ==> {
            &&& m.len() <= MAX_DATAGRAM_LEN
            &&& 1 <= k <= spec_max_records(batch.send_template)
            &&& batch.offset + k <= flows.len()
        },
{
    if batch.offset < flows.len() {
        let k = spec_chunk_len(batch, flows.len() as int);
        let room = spec_max_records(batch.send_template);
        assert(room >= 28) by {
            assert(spec_max_records(false) == 29);
            assert(spec_max_records(true) == 28);
        }
        let chunk = flows.subrange(batch.offset as int, batch.offset + k);
        assert(4 + k * RECORD_LEN <= 4 + room * RECORD_LEN) by (nonlinear_arith)
            requires k <= room;
        assert(spec_padded_len(4 + room * RECORD_LEN) <= 1400 - 16) by {
            assert(spec_max_records(false) == 29);
            assert(spec_max_records(true) == 28);
        }
        let set_len = spec_padded_len(4 + k * RECORD_LEN);
        assert(spec_data_set_len(k) == Ok::<usize, ExportError>(set_len as usize));
        lemma_data_records_len(chunk, batch.clock);
        lemma_be_bytes_len(TEMPLATE_ID as nat, 2);
        lemma_be_bytes_len(set_len as nat, 2);
        let data = be_bytes(TEMPLATE_ID as nat, 2) + be_bytes(set_len as nat, 2) + spec_data_records(chunk, batch.clock)
            + zeros(set_len - 4 - chunk.len() * RECORD_LEN);
        assert(data.len() == set_len);
        lemma_template_set_len();
        lemma_concat_pair(spec_template_set(TEMPLATE_ID), data);
        assert(spec_data_set(TEMPLATE_ID, chunk, batch.clock) == Ok::<Seq<u8>, ExportError>(data));
        let sets = spec_datagram_sets(batch.send_template, data);
        assert(concat(sets).len() == (if batch.send_template { TEMPLATE_SET_LEN } else { 0 }) + set_len);
        assert(IPFIX_HEADER_LEN + concat(sets).len() <= MAX_DATAGRAM_LEN);
        let total_len = IPFIX_HEADER_LEN + concat(sets).len();
        lemma_be_bytes_len(IPFIX_VERSION as nat, 2);
        lemma_be_bytes_len(total_len as nat, 2);
        lemma_be_bytes_len(export_secs as nat, 4);
        lemma_be_bytes_len(session.sequence as nat, 4);
        lemma_be_bytes_len(session.domain_id as nat, 4);
        assert(k != 0);
    }
}

proof fn lemma_template_set_len()
    ensures
        spec_template_set(TEMPLATE_ID).len() == TEMPLATE_SET_LEN,
{
    lemma_field_specifiers_len(spec_template_fields());
    lemma_be_bytes_len(TEMPLATE_SET_ID as nat, 2);
    lemma_be_bytes_len(TEMPLATE_SET_LEN as nat, 2);
    lemma_be_bytes_len(TEMPLATE_ID as nat, 2);
    lemma_be_bytes_len(12, 2);
}

impl IpfixSession {
    /// A fresh exporter state: sequence 0, no template sent yet.
    pub fn new(export_cfg: &ExportConfig) -> (s: IpfixSession)
        ensures
            s.domain_id == spec_domain_id(*export_cfg),
            s.sequence == 0,
            s.last_template is None,
    {
        let domain_id = if export_cfg.observation_domain_id != 0 {
            export_cfg.observation_domain_id
        } else {
            export_cfg.source_id
        };
        IpfixSession { domain_id, sequence: 0, last_template: None }
    }

    /// Starts a batch at monotonic time `now_ns`, with the wall clock
    /// reading `since_epoch_ns` (see `ExportClock::now`).
    pub fn begin_batch(&self, now_ns: u64, since_epoch_ns: Option<u128>) -> (b: IpfixBatch)
        ensures
            b.offset == 0,
            b.send_template == spec_template_due(self.last_template, now_ns),
            b.clock == ExportClock::now_spec(now_ns, since_epoch_ns),
    {
        IpfixBatch {
            offset: 0,
            send_template: template_due(self.last_template, now_ns),
            clock: ExportClock::now(now_ns, since_epoch_ns),
        }
    }

    /// Builds the next datagram of `batch`, or `None` once all of `flows`
    /// has been sent; `export_secs` is the export time for its header.
    pub fn next_datagram(&self, batch: &IpfixBatch, flows: &[FlowEntry], export_secs: u32) -> (r: Result<Option<IpfixDatagram>, ExportError>)
        ensures
            datagram_of(r) == spec_next_datagram(*self, *batch, flows@, export_secs),
            r is Ok,
    {
        proof {
            lemma_next_datagram_fits(*self, *batch, flows@, export_secs);
        }
        if batch.offset >= flows.len() {
            return Ok(None);
        }
        let room = max_records_per_datagram(batch.send_template);
        let left = flows.len() - batch.offset;
        let chunk_len = if room < left { room } else { left };
        if chunk_len == 0 {
            return Err(ExportError::RecordDoesNotFit);
        }
        let chunk = &flows[batch.offset..batch.offset + chunk_len];
        let data = match build_data_set(TEMPLATE_ID, chunk, batch.clock) {
            Ok(d) => d,
            Err(e) => return Err(e),
        };
        let mut sets: Vec<Vec<u8>> = Vec::new();
        if batch.send_template {
            sets.push(build_template_set(TEMPLATE_ID));
        }
        let ghost data_view = data@;
        sets.push(data);
        assert(contents(sets@) =~= spec_datagram_sets(batch.send_template, data_view));
        let packet = match build_ipfix_message(sets.as_slice(), self.sequence, self.domain_id, export_secs) {
            Ok(p) => p,
            Err(e) => return Err(e),
        };
        if packet.len() > MAX_DATAGRAM_LEN {
            return Err(ExportError::DatagramTooLarge(packet.len()));
        }
        Ok(Some(IpfixDatagram { bytes: packet, records: chunk_len }))
    }

    /// Records that a datagram of `records` flow records, taken from
    /// `batch`, was sent at monotonic time `now_ns`.
    pub fn datagram_sent(&mut self, batch: &mut IpfixBatch, records: usize, now_ns: u64)
        requires
            old(batch).offset + records <= usize::MAX,
        ensures
            final(self).domain_id == old(self).domain_id,
            final(self).sequence == spec_advance_sequence(old(self).sequence, records as nat),
            final(self).last_template == if old(batch).send_template { Some(now_ns) } else { old(self).last_template },
            final(batch).offset == old(batch).offset + records,
            !final(batch).send_template,
            final(batch).clock == old(batch).clock,
    {
        self.sequence = advance_sequence(self.sequence, records);
        if batch.send_template {
            self.last_template = Some(now_ns);
            batch.send_template = false;
        }
        batch.offset = batch.offset + records;
    }
}

/// Reading a data record back field by field, at the offsets that the
/// template's field lengths give, yields the flow's exported values.
pub proof fn lemma_data_record_fields(flow: FlowEntry, clock: ExportClock)
    ensures
        spec_data_record(flow, clock).len() == RECORD_LEN,
        be_value(spec_data_record(flow, clock).subrange(0, 4)) == spec_to_u32_counter(flow.bytes),
        be_value(spec_data_record(flow, clock).subrange(4, 8)) == spec_to_u32_counter(flow.packets),
        spec_data_record(flow, clock)[8] == flow.key.protocol,
        be_value(spec_data_record(flow, clock).subrange(9, 11)) == flow.tcp_flags,
        be_value(spec_data_record(flow, clock).subrange(11, 13)) == flow.key.src_port,
        be_value(spec_data_record(flow, clock).subrange(13, 15)) == flow.key.dst_port,
        be_value(spec_data_record(flow, clock).subrange(15, 19)) == flow.key.src_ip,
        be_value(spec_data_record(flow, clock).subrange(19, 23)) == flow.key.dst_ip,
        be_value(spec_data_record(flow, clock).subrange(23, 27)) == INPUT_SNMP_INDEX,
        be_value(spec_data_record(flow, clock).subrange(27, 31)) == OUTPUT_SNMP_INDEX,
        be_value(spec_data_record(flow, clock).subrange(31, 39)) == spec_unix_millis(clock, flow.first_seen),
        be_value(spec_data_record(flow, clock).subrange(39, 47)) == spec_unix_millis(clock, flow.last_seen),
{
    let p0 = be_bytes(spec_to_u32_counter(flow.bytes) as nat, 4);
    let p1 = be_bytes(spec_to_u32_counter(flow.packets) as nat, 4);
    let p2 = seq![flow.key.protocol];
    let p3 = be_bytes(flow.tcp_flags as nat, 2);
    let p4 = be_bytes(flow.key.src_port as nat, 2);
    let p5 = be_bytes(flow.key.dst_port as nat, 2);
    let p6 = be_bytes(flow.key.src_ip as nat, 4);
    let p7 = be_bytes(flow.key.dst_ip as nat, 4);
    let p8 = be_bytes(INPUT_SNMP_INDEX as nat, 4);
    let p9 = be_bytes(OUTPUT_SNMP_INDEX as nat, 4);
    let p10 = be_bytes(spec_unix_millis(clock, flow.first_seen) as nat, 8);
    let p11 = be_bytes(spec_unix_millis(clock, flow.last_seen) as nat, 8);
    lemma_be_fixed(spec_to_u32_counter(flow.bytes) as nat, 4);
    lemma_be_fixed(spec_to_u32_counter(flow.packets) as nat, 4);
    lemma_be_fixed(flow.tcp_flags as nat, 2);
    lemma_be_fixed(flow.key.src_port as nat, 2);
    lemma_be_fixed(flow.key.dst_port as nat, 2);
    lemma_be_fixed(flow.key.src_ip as nat, 4);
    lemma_be_fixed(flow.key.dst_ip as nat, 4);
    lemma_be_fixed(INPUT_SNMP_INDEX as nat, 4);
    lemma_be_fixed(OUTPUT_SNMP_INDEX as nat, 4);
    lemma_be_fixed(spec_unix_millis(clock, flow.first_seen) as nat, 8);
    lemma_be_fixed(spec_unix_millis(clock, flow.last_seen) as nat, 8);
    let r = spec_data_record(flow, clock);
    assert(r == p0 + p1 + p2 + p3 + p4 + p5 + p6 + p7 + p8 + p9 + p10 + p11);
    assert(r.subrange(0, 4) =~= p0);
    assert(r.subrange(4, 8) =~= p1);
    assert(r.subrange(9, 11) =~= p3);
    assert(r.subrange(11, 13) =~= p4);
    assert(r.subrange(13, 15) =~= p5);
    assert(r.subrange(15, 19) =~= p6);
    assert(r.subrange(19, 23) =~= p7);
    assert(r.subrange(23, 27) =~= p8);
    assert(r.subrange(27, 31) =~= p9);
    assert(r.subrange(31, 39) =~= p10);
    assert(r.subrange(39, 47) =~= p11);
}

/// The `i`-th record of a run of records is the record of the `i`-th flow.
pub proof fn lemma_data_records_index(flows: Seq<FlowEntry>, clock: ExportClock, i: int)
    requires
        0 <= i < flows.len(),
    ensures
        spec_data_records(flows, clock).subrange(i * RECORD_LEN, i * RECORD_LEN + RECORD_LEN)
            == spec_data_record(flows[i], clock),
    decreases flows.len(),
{
    let init = flows.drop_last();
    lemma_data_records_len(init, clock);
    lemma_data_record_len(flows.last(), clock);
    let all = spec_data_records(flows, clock);
    assert(all == spec_data_records(init, clock) + spec_data_record(flows.last(), clock));
    if i == flows.len() - 1 {
        assert(all.subrange(i * RECORD_LEN, i * RECORD_LEN + RECORD_LEN) =~= spec_data_record(flows.last(), clock));
    } else {
        lemma_data_records_index(init, clock, i);
        assert(i * RECORD_LEN + RECORD_LEN <= init.len() * RECORD_LEN) by (nonlinear_arith)
            requires
                i + 1 <= init.len(),
        ;
        assert(all.subrange(i * RECORD_LEN, i * RECORD_LEN + RECORD_LEN) =~= spec_data_records(init, clock).subrange(
            i * RECORD_LEN,
            i * RECORD_LEN + RECORD_LEN,
        ));
        assert(init[i] == flows[i]);
    }
}

/// A data set's length field equals its length, which is a multiple of
/// four; the records follow the four header bytes and only zero padding,
/// less than four bytes, comes after them.
pub proof fn lemma_data_set_layout(template_id: u16, flows: Seq<FlowEntry>, clock: ExportClock)
    ensures
        spec_data_set(template_id, flows, clock) matches Ok(s) ==> {
            &&& s.len() % 4 == 0
            &&& be_value(s.subrange(0, 2)) == template_id
            &&& be_value(s.subrange(2, 4)) == s.len()
            &&& s.subrange(4, 4 + flows.len() * RECORD_LEN) == spec_data_records(flows, clock)
            &&& 4 + flows.len() * RECORD_LEN <= s.len() < 4 + flows.len() * RECORD_LEN + 4
            &&& forall|i: int| 4 + flows.len() * RECORD_LEN <= i < s.len() ==> s[i] == 0
        },
{
    if let Ok(set_len) = spec_data_set_len(flows.len() as int) {
        let n = flows.len() * RECORD_LEN;
        lemma_padded_len(4 + n);
        assert(set_len == spec_padded_len(4 + n));
        lemma_data_records_len(flows, clock);
        lemma_be_fixed(template_id as nat, 2);
        lemma_be_fixed(set_len as nat, 2);
        let h0 = be_bytes(template_id as nat, 2);
        let h1 = be_bytes(set_len as nat, 2);
        let recs = spec_data_records(flows, clock);
        let pad = zeros(set_len - 4 - n);
        let s = h0 + h1 + recs + pad;
        assert(s.len() == set_len);
        assert(s.subrange(0, 2) =~= h0);
        assert(s.subrange(2, 4) =~= h1);
        assert(s.subrange(4, 4 + n) =~= recs);
        assert forall|i: int| 4 + n <= i < s.len() implies s[i] == 0 by {
            assert(s[i] == pad[i - 4 - n]);
        }
    }
}

proof fn lemma_padded_len(len: int)
    requires
        len >= 0,
    ensures
        spec_padded_len(len) % 4 == 0,
        len <= spec_padded_len(len) < len + 4,
{
}

/// An IPFIX message starts with version 10 and its own length, then the
/// export time, the sequence number and the observation domain; the sets
/// follow the sixteen header bytes.
pub proof fn lemma_ipfix_message_layout(
    sets: Seq<Seq<u8>>,
    sequence: u32,
    observation_domain_id: u32,
    export_secs: u32,
)
    ensures
        spec_ipfix_message(sets, sequence, observation_domain_id, export_secs) matches Ok(m) ==> {
            &&& be_value(m.subrange(0, 2)) == IPFIX_VERSION
            &&& be_value(m.subrange(2, 4)) == m.len()
            &&& be_value(m.subrange(4, 8)) == export_secs
            &&& be_value(m.subrange(8, 12)) == sequence
            &&& be_value(m.subrange(12, 16)) == observation_domain_id
            &&& m.subrange(16, m.len() as int) == concat(sets)
        },
{
    let body = concat(sets);
    let total_len = IPFIX_HEADER_LEN + body.len();
    if total_len <= u16::MAX {
        lemma_be_fixed(IPFIX_VERSION as nat, 2);
        lemma_be_fixed(total_len as nat, 2);
        lemma_be_fixed(export_secs as nat, 4);
        lemma_be_fixed(sequence as nat, 4);
        lemma_be_fixed(observation_domain_id as nat, 4);
        let m = be_bytes(IPFIX_VERSION as nat, 2) + be_bytes(total_len as nat, 2) + be_bytes(export_secs as nat, 4)
            + be_bytes(sequence as nat, 4) + be_bytes(observation_domain_id as nat, 4) + body;
        assert(m.subrange(0, 2) =~= be_bytes(IPFIX_VERSION as nat, 2));
        assert(m.subrange(2, 4) =~= be_bytes(total_len as nat, 2));
        assert(m.subrange(4, 8) =~= be_bytes(export_secs as nat, 4));
        assert(m.subrange(8, 12) =~= be_bytes(sequence as nat, 4));
        assert(m.subrange(12, 16) =~= be_bytes(observation_domain_id as nat, 4));
        assert(m.subrange(16, m.len() as int) =~= body);
    }
}

/// The template set carries set ID 2, its own length (56), the template ID
/// and the number of fields (12).
pub proof fn lemma_template_set_layout(template_id: u16)
    ensures
        spec_template_set(template_id).len() == TEMPLATE_SET_LEN,
        be_value(spec_template_set(template_id).subrange(0, 2)) == TEMPLATE_SET_ID,
        be_value(spec_template_set(template_id).subrange(2, 4)) == TEMPLATE_SET_LEN,
        be_value(spec_template_set(template_id).subrange(4, 6)) == template_id,
        be_value(spec_template_set(template_id).subrange(6, 8)) == spec_template_fields().len(),
{
    lemma_field_specifiers_len(spec_template_fields());
    lemma_be_fixed(TEMPLATE_SET_ID as nat, 2);
    lemma_be_fixed(TEMPLATE_SET_LEN as nat, 2);
    lemma_be_fixed(template_id as nat, 2);
    lemma_be_fixed(12, 2);
    let t = spec_template_set(template_id);
    assert(t.subrange(0, 2) =~= be_bytes(TEMPLATE_SET_ID as nat, 2));
    assert(t.subrange(2, 4) =~= be_bytes(TEMPLATE_SET_LEN as nat, 2));
    assert(t.subrange(4, 6) =~= be_bytes(template_id as nat, 2));
    assert(t.subrange(6, 8) =~= be_bytes(12, 2));
}

/// Advancing the sequence number by `a` records and then by `b` records is
/// advancing it by `a + b` records.
pub proof fn lemma_advance_sequence_adds(sequence: u32, a: nat, b: nat)
    ensures
        spec_advance_sequence(spec_advance_sequence(sequence, a), b) == spec_advance_sequence(sequence, a + b),
{
    vstd::arithmetic::div_mod::lemma_add_mod_noop((sequence + a) as int, b as int, 0x1_0000_0000);
    vstd::arithmetic::div_mod::lemma_mod_twice((sequence + a) as int, 0x1_0000_0000);
    vstd::arithmetic::div_mod::lemma_add_mod_noop((sequence + a) as int, b as int, 0x1_0000_0000);
    vstd::arithmetic::div_mod::lemma_small_mod(b % 0x1_0000_0000, 0x1_0000_0000);
}

/// The anchor itself maps to the anchor's wall-clock time.
pub proof fn lemma_unix_millis_at_anchor(clock: ExportClock)
    ensures
        spec_unix_millis(clock, clock.anchor_ns) == clock.anchor_unix_ms,
{
}

/// The datagrams of a batch that starts at flow `offset`, as
/// (first flow, record count, carries the template): each takes as many
/// records as fit, and only the first may carry the template.
pub open spec fn spec_batch_plan(offset: int, send_template: bool, flow_count: int) -> Seq<(int, int, bool)>
    decreases flow_count - offset,
{
    if offset >= flow_count {
        Seq::empty()
    } else {
        let room = spec_max_records(send_template) as int;
        let k = if room < flow_count - offset { room } else { flow_count - offset };
        if k <= 0 {
            Seq::empty()
        } else {
            seq![(offset, k, send_template)] + spec_batch_plan(offset + k, false, flow_count)
        }
    }
}

/// A batch plan covers the flows from `offset` on, each exactly once and in
/// order, in datagrams of at least one record each that fit the limit; only
/// the first datagram can carry the template, and it does exactly when the
/// batch starts with the template due.
pub proof fn lemma_batch_plan(offset: int, send_template: bool, flow_count: int)
    requires
        0 <= offset <= flow_count,
    ensures
        ({
            let p = spec_batch_plan(offset, send_template, flow_count);
            &&& (p.len() == 0 <==> offset == flow_count)
            &&& p.len() > 0 ==> p[0].0 == offset && p[0].2 == send_template
            &&& p.len() > 0 ==> p.last().0 + p.last().1 == flow_count
            &&& forall|i: int| 0 <= i < p.len() ==> 1 <= #[trigger] p[i].1 <= spec_max_records(p[i].2)
            &&& forall|i: int| 0 < i < p.len() ==> !#[trigger] p[i].2
            &&& forall|i: int| 0 <= i < p.len() - 1 ==> #[trigger] p[i].0 + p[i].1 == p[i + 1].0
        }),
    decreases flow_count - offset,
{
    assert(spec_max_records(false) == 29);
    assert(spec_max_records(true) == 28);
    if offset < flow_count {
        let room = spec_max_records(send_template) as int;
        let k = if room < flow_count - offset { room } else { flow_count - offset };
        lemma_batch_plan(offset + k, false, flow_count);
        let rest = spec_batch_plan(offset + k, false, flow_count);
        let p = spec_batch_plan(offset, send_template, flow_count);
        assert(p == seq![(offset, k, send_template)] + rest);
        assert forall|i: int| 0 <= i < p.len() implies 1 <= #[trigger] p[i].1 <= spec_max_records(p[i].2) by {
            if i > 0 {
                assert(p[i] == rest[i - 1]);
            }
        }
        assert forall|i: int| 0 < i < p.len() implies !#[trigger] p[i].2 by {
            assert(p[i] == rest[i - 1]);
        }
        assert forall|i: int| 0 <= i < p.len() - 1 implies #[trigger] p[i].0 + p[i].1 == p[i + 1].0 by {
            assert(p[i + 1] == rest[i]);
            if i > 0 {
                assert(p[i] == rest[i - 1]);
            }
        }
        if rest.len() > 0 {
            assert(p.last() == rest.last());
        }
    }
}

/// Each step of a batch follows its plan: the next datagram carries the
/// records of the plan's first entry, after the template set exactly when
/// the plan says so, and what remains after it is sent is the rest of the
/// plan.
pub proof fn lemma_batch_step(session: IpfixSession, batch: IpfixBatch, flows: Seq<FlowEntry>, export_secs: u32)
    requires
        batch.offset <= flows.len(),
    ensures
        ({
            let p = spec_batch_plan(batch.offset as int, batch.send_template, flows.len() as int);
            match spec_next_datagram(session, batch, flows, export_secs) {
                Ok(None) => p.len() == 0,
                Ok(Some((m, k))) => {
                    &&& p.len() > 0
                    &&& p[0] == (batch.offset as int, k as int, batch.send_template)
                    &&& spec_data_set(TEMPLATE_ID, flows.subrange(batch.offset as int, batch.offset + k), batch.clock)
                        matches Ok(d) && spec_ipfix_message(
                        spec_datagram_sets(batch.send_template, d),
                        session.sequence,
                        session.domain_id,
                        export_secs,
                    ) == Ok::<Seq<u8>, ExportError>(m)
                    &&& spec_batch_plan(batch.offset + k, false, flows.len() as int) == p.drop_first()
                },
                Err(_) => false,
            }
        }),
{
    lemma_next_datagram_fits(session, batch, flows, export_secs);
    let p = spec_batch_plan(batch.offset as int, batch.send_template, flows.len() as int);
    if batch.offset < flows.len() {
        assert(spec_max_records(false) == 29);
        assert(spec_max_records(true) == 28);
        let k = spec_chunk_len(batch, flows.len() as int);
        assert(p == seq![(batch.offset as int, k, batch.send_template)] + spec_batch_plan(batch.offset + k, false, flows.len() as int));
        assert(p.drop_first() =~= spec_batch_plan(batch.offset + k, false, flows.len() as int));
    }
}

/// A 64-bit counter in a 32-bit field saturates: values that fit are kept,
/// larger ones give `u32::MAX`, and a larger counter never encodes smaller.
pub proof fn lemma_counter_saturates(a: u64, b: u64)
    ensures
        a <= u32::MAX ==> spec_to_u32_counter(a) == a,
        a >= u32::MAX ==> spec_to_u32_counter(a) == u32::MAX,
        spec_to_u32_counter(a) <= a,
        a <= b ==> spec_to_u32_counter(a) <= spec_to_u32_counter(b),
{
}

/// IANA IPFIX information element numbers of the fields a record carries.
pub const OCTET_DELTA_COUNT: u16 = 1;
pub const PACKET_DELTA_COUNT: u16 = 2;
pub const PROTOCOL_IDENTIFIER: u16 = 4;
pub const TCP_CONTROL_BITS: u16 = 6;
pub const SOURCE_TRANSPORT_PORT: u16 = 7;
pub const SOURCE_IPV4_ADDRESS: u16 = 8;
pub const INGRESS_INTERFACE: u16 = 10;
pub const DESTINATION_TRANSPORT_PORT: u16 = 11;
pub const DESTINATION_IPV4_ADDRESS: u16 = 12;
pub const EGRESS_INTERFACE: u16 = 14;
pub const FLOW_START_MILLISECONDS: u16 = 152;
pub const FLOW_END_MILLISECONDS: u16 = 153;

/// The value that an information element stands for in a flow's record:
/// the counters (saturated to 32 bits), the 5-tuple and TCP flags, the
/// fixed interface indexes, and the flow's start and end in Unix milliseconds.
pub open spec fn field_value(element: u16, flow: FlowEntry, clock: ExportClock) -> int {
    if element == OCTET_DELTA_COUNT {
        spec_to_u32_counter(flow.bytes) as int
    } else if element == PACKET_DELTA_COUNT {
        spec_to_u32_counter(flow.packets) as int
    } else if element == PROTOCOL_IDENTIFIER {
        flow.key.protocol as int
    } else if element == TCP_CONTROL_BITS {
        flow.tcp_flags as int
    } else if element == SOURCE_TRANSPORT_PORT {
        flow.key.src_port as int
    } else if element == DESTINATION_TRANSPORT_PORT {
        flow.key.dst_port as int
    } else if element == SOURCE_IPV4_ADDRESS {
        flow.key.src_ip as int
    } else if element == DESTINATION_IPV4_ADDRESS {
        flow.key.dst_ip as int
    } else if element == INGRESS_INTERFACE {
        INPUT_SNMP_INDEX as int
    } else if element == EGRESS_INTERFACE {
        OUTPUT_SNMP_INDEX as int
    } else if element == FLOW_START_MILLISECONDS {
        spec_unix_millis(clock, flow.first_seen) as int
    } else if element == FLOW_END_MILLISECONDS {
        spec_unix_millis(clock, flow.last_seen) as int
    } else {
        -1
    }
}

/// The template describes the records: for every template entry, the
/// record bytes at the entry's offset (the sum of the lengths before it) and
/// of its length hold the flow value that the entry's element stands for.
#[verifier::rlimit(50)]
pub proof fn lemma_template_describes_record(flow: FlowEntry, clock: ExportClock)
    ensures
        forall|i: int|
            0 <= i < spec_template_fields().len() ==> {
                let f = #[trigger] spec_template_fields()[i];
                let off = fields_len(spec_template_fields().take(i)) as int;
                be_value(spec_data_record(flow, clock).subrange(off, off + f.1)) == field_value(f.0, flow, clock)
            },
{
    let fs = spec_template_fields();
    let r = spec_data_record(flow, clock);
    lemma_data_record_fields(flow, clock);
    lemma_fields_len_take_step(fs, 0);
    lemma_fields_len_take_step(fs, 1);
    lemma_fields_len_take_step(fs, 2);
    lemma_fields_len_take_step(fs, 3);
    lemma_fields_len_take_step(fs, 4);
    lemma_fields_len_take_step(fs, 5);
    lemma_fields_len_take_step(fs, 6);
    lemma_fields_len_take_step(fs, 7);
    lemma_fields_len_take_step(fs, 8);
    lemma_fields_len_take_step(fs, 9);
    lemma_fields_len_take_step(fs, 10);
    lemma_fields_len_take_step(fs, 11);
    assert(r.subrange(8, 9) =~= seq![flow.key.protocol]);
    assert(be_value(seq![flow.key.protocol]) == flow.key.protocol) by {
        reveal_with_fuel(be_value, 2);
        assert(seq![flow.key.protocol].drop_last() =~= Seq::<u8>::empty());
    }
    assert forall|i: int| 0 <= i < fs.len() implies {
        let f = #[trigger] fs[i];
        let off = fields_len(fs.take(i)) as int;
        be_value(r.subrange(off, off + f.1)) == field_value(f.0, flow, clock)
    } by {
        if i == 0 {
        } else if i == 1 {
        } else if i == 2 {
        } else if i == 3 {
        } else if i == 4 {
        } else if i == 5 {
        } else if i == 6 {
        } else if i == 7 {
        } else if i == 8 {
        } else if i == 9 {
        } else if i == 10 {
        } else if i == 11 {
        }
    }
}

/// The clock counts milliseconds: `k` whole milliseconds (plus any
/// fraction of one) after the anchor map to the anchor's wall time plus `k`,
/// and `k` milliseconds before it to the anchor's wall time minus `k`,
/// while that stays within `u64`.
pub proof fn lemma_unix_millis_counts_milliseconds(clock: ExportClock, k: nat, frac: nat)
    requires
        frac < 1_000_000,
    ensures
        clock.anchor_ns + k * 1_000_000 + frac <= u64::MAX && clock.anchor_unix_ms + k <= u64::MAX
            ==> spec_unix_millis(clock, (clock.anchor_ns + k * 1_000_000 + frac) as u64) == clock.anchor_unix_ms + k,
        k * 1_000_000 <= clock.anchor_ns && k <= clock.anchor_unix_ms
            ==> spec_unix_millis(clock, (clock.anchor_ns - k * 1_000_000) as u64) == clock.anchor_unix_ms - k,
{
    vstd::arithmetic::div_mod::lemma_fundamental_div_mod_converse((k * 1_000_000 + frac) as int, 1_000_000, k as int, frac as int);
    vstd::arithmetic::div_mod::lemma_fundamental_div_mod_converse((k * 1_000_000) as int, 1_000_000, k as int, 0);
}

/// One more record advances the sequence number by one, wrapping from
/// `u32::MAX` to 0; no records leave it unchanged.
pub proof fn lemma_advance_sequence_step(sequence: u32)
    ensures
        spec_advance_sequence(sequence, 1) == if sequence == u32::MAX { 0 } else { sequence + 1 },
        spec_advance_sequence(sequence, 0) == sequence,
{
}

} // verus!
