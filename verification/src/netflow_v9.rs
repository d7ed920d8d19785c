//! NetFlow v9 (RFC 3954) packet encoding and the export state of one exporter.
use crate::bytes::{be_value, lemma_be_fixed, be_bytes, lemma_be_bytes_len, put_all, put_u16, put_u32, put_u64, put_u8};
use crate::export::{
    ExportError, concat, contents, field_specifiers, fields_len, lemma_field_specifiers_len, lemma_fields_len_take_step, spec_template_due,
    template_due,
};
use crate::flow::{elapsed, FlowEntry};
use vstd::prelude::*;

verus! {

pub const NETFLOW_V9_VERSION: u16 = 9;
pub const TEMPLATE_FLOWSET_ID: u16 = 0;
pub const TEMPLATE_ID: u16 = 256;
pub const V9_HEADER_LEN: usize = 20;
/// Sum of the template's field lengths.
pub const RECORD_LEN: u16 = 37;

/// Standard field types of the template (PEN 0), as (type, length):
/// IN_BYTES, IN_PKTS, PROTOCOL, L4_SRC_PORT, L4_DST_PORT, IPV4_SRC_ADDR,
/// IPV4_DST_ADDR, FIRST_SWITCHED, LAST_SWITCHED.
pub open spec fn spec_template_fields() -> Seq<(u16, u16)> {
    seq![(1u16, 8u16), (2, 8), (4, 1), (7, 2), (11, 2), (8, 4), (12, 4), (22, 4), (21, 4)]
}

/// The template fields, in the order the data records carry them.
pub fn template_fields() -> (r: Vec<(u16, u16)>)
    ensures
        r@ == spec_template_fields(),
{
    let r = vec![(1u16, 8u16), (2, 8), (4, 1), (7, 2), (11, 2), (8, 4), (12, 4), (22, 4), (21, 4)];
    assert(r@ =~= spec_template_fields());
    r
}

/// The record length is the sum of the template's field lengths.
pub proof fn lemma_record_len_matches_template()
    ensures
        fields_len(spec_template_fields()) == RECORD_LEN,
{
    reveal_with_fuel(fields_len, 10);
}

/// A template flowset: flowset ID 0, length, template ID, field count, fields.
pub open spec fn spec_template_flowset(template_id: u16) -> Seq<u8> {
    be_bytes(TEMPLATE_FLOWSET_ID as nat, 2) + be_bytes(44, 2) + be_bytes(template_id as nat, 2)
        + be_bytes(spec_template_fields().len(), 2) + field_specifiers(spec_template_fields())
}

/// Builds the template flowset that announces the data record layout.
pub fn build_template_flowset(template_id: u16) -> (buf: Vec<u8>)
    ensures
        buf@ == spec_template_flowset(template_id),
        buf@.len() == 4 + 4 + spec_template_fields().len() * 4,
{
    let fields = template_fields();
    let field_count = fields.len() as u16;
    let body_len = 4 + (field_count as usize * 4);
    let total_len = 4 + body_len;

    let mut buf: Vec<u8> = Vec::with_capacity(total_len);
    put_u16(&mut buf, TEMPLATE_FLOWSET_ID);
    put_u16(&mut buf, total_len as u16);
    put_u16(&mut buf, template_id);
    put_u16(&mut buf, field_count);
    let ghost head = buf@;
    let mut i: usize = 0;
    while i < fields.len()
        invariant
            fields@ == spec_template_fields(),
            i <= fields@.len(),
            buf@ == head + field_specifiers(fields@.take(i as int)),
        decreases fields@.len() - i,
    {
        let (typ, len) = fields[i];
        put_u16(&mut buf, typ);
        put_u16(&mut buf, len);
        assert(fields@.take(i + 1).drop_last() =~= fields@.take(i as int));
        i += 1;
    }
    proof {
        assert(fields@.take(fields@.len() as int) =~= fields@);
        lemma_field_specifiers_len(spec_template_fields());
        lemma_be_bytes_len(TEMPLATE_FLOWSET_ID as nat, 2);
        lemma_be_bytes_len(44, 2);
        lemma_be_bytes_len(template_id as nat, 2);
        lemma_be_bytes_len(9, 2);
    }
    buf
}

/// Milliseconds from `boot` to `event`, zero when `event` is earlier,
/// saturated at `u32::MAX`.
pub open spec fn spec_uptime_ms(boot: u64, event: u64) -> u32 {
    let ms = elapsed(event, boot) / 1_000_000;
    if ms > u32::MAX {
        u32::MAX
    } else {
        ms as u32
    }
}

pub fn uptime_ms(boot: u64, event: u64) -> (r: u32)
    ensures
        r == spec_uptime_ms(boot, event),
{
    let d = if event >= boot { event - boot } else { 0 };
    let ms = d / 1_000_000;
    if ms > u32::MAX as u64 {
        u32::MAX
    } else {
        ms as u32
    }
}

/// One data record, its fields in template order.
pub open spec fn spec_data_record(flow: FlowEntry, boot: u64) -> Seq<u8> {
    be_bytes(flow.bytes as nat, 8)
        + be_bytes(flow.packets as nat, 8)
        + seq![flow.key.protocol]
        + be_bytes(flow.key.src_port as nat, 2)
        + be_bytes(flow.key.dst_port as nat, 2)
        + be_bytes(flow.key.src_ip as nat, 4)
        + be_bytes(flow.key.dst_ip as nat, 4)
        + be_bytes(spec_uptime_ms(boot, flow.first_seen) as nat, 4)
        + be_bytes(spec_uptime_ms(boot, flow.last_seen) as nat, 4)
}

/// The records of `flows`, one after the other.
pub open spec fn spec_data_records(flows: Seq<FlowEntry>, boot: u64) -> Seq<u8>
    decreases flows.len(),
{
    if flows.len() == 0 {
        Seq::empty()
    } else {
        spec_data_records(flows.drop_last(), boot) + spec_data_record(flows.last(), boot)
    }
}

/// A data flowset: template ID, flowset length (kept to its low 16 bits),
/// then the records, unpadded.
pub open spec fn spec_data_flowset(template_id: u16, flows: Seq<FlowEntry>, boot: u64) -> Seq<u8> {
    be_bytes(template_id as nat, 2) + be_bytes(((4 + flows.len() * RECORD_LEN) % 0x1_0000) as nat, 2)
        + spec_data_records(flows, boot)
}

pub proof fn lemma_data_record_len(flow: FlowEntry, boot: u64)
    ensures
        spec_data_record(flow, boot).len() == RECORD_LEN,
{
    lemma_be_bytes_len(flow.bytes as nat, 8);
    lemma_be_bytes_len(flow.packets as nat, 8);
    lemma_be_bytes_len(flow.key.src_port as nat, 2);
    lemma_be_bytes_len(flow.key.dst_port as nat, 2);
    lemma_be_bytes_len(flow.key.src_ip as nat, 4);
    lemma_be_bytes_len(flow.key.dst_ip as nat, 4);
    lemma_be_bytes_len(spec_uptime_ms(boot, flow.first_seen) as nat, 4);
    lemma_be_bytes_len(spec_uptime_ms(boot, flow.last_seen) as nat, 4);
}

pub proof fn lemma_data_records_len(flows: Seq<FlowEntry>, boot: u64)
    ensures
        spec_data_records(flows, boot).len() == flows.len() * RECORD_LEN,
    decreases flows.len(),
{
    if flows.len() > 0 {
        lemma_data_records_len(flows.drop_last(), boot);
        lemma_data_record_len(flows.last(), boot);
        assert(flows.len() * RECORD_LEN == (flows.len() - 1) * RECORD_LEN + RECORD_LEN) by (nonlinear_arith);
    }
}

fn put_data_record(buf: &mut Vec<u8>, flow: &FlowEntry, boot: u64)
    ensures
        final(buf)@ == old(buf)@ + spec_data_record(*flow, boot),
{
    put_u64(buf, flow.bytes);
    put_u64(buf, flow.packets);
    put_u8(buf, flow.key.protocol);
    put_u16(buf, flow.key.src_port);
    put_u16(buf, flow.key.dst_port);
    put_u32(buf, flow.key.src_ip);
    put_u32(buf, flow.key.dst_ip);
    put_u32(buf, uptime_ms(boot, flow.first_seen));
    put_u32(buf, uptime_ms(boot, flow.last_seen));
    assert(buf@ =~= old(buf)@ + spec_data_record(*flow, boot));
}

/// Builds the data flowset that carries one record per flow; it is always built.
pub fn build_data_flowset(template_id: u16, flows: &[FlowEntry], boot: u64) -> (r: Result<Vec<u8>, ExportError>)
    requires
        4 + flows@.len() * RECORD_LEN <= usize::MAX,
    ensures
        r matches Ok(buf) && buf@ == spec_data_flowset(template_id, flows@, boot)
            && buf@.len() == 4 + flows@.len() * RECORD_LEN,
{
    assert(flows@.len() * RECORD_LEN <= usize::MAX);
    let records_len = flows.len() * RECORD_LEN as usize;
    let total_len = 4 + records_len;
    let mut buf: Vec<u8> = Vec::with_capacity(total_len);
    put_u16(&mut buf, template_id);
    put_u16(&mut buf, (total_len % 0x1_0000) as u16);
    let ghost head = buf@;
    let mut i: usize = 0;
    while i < flows.len()
        invariant
            i <= flows@.len(),
            buf@ == head + spec_data_records(flows@.take(i as int), boot),
        decreases flows@.len() - i,
    {
        put_data_record(&mut buf, &flows[i], boot);
        assert(flows@.take(i + 1).drop_last() =~= flows@.take(i as int));
        i += 1;
    }
    assert(flows@.take(flows@.len() as int) =~= flows@);
    proof {
        lemma_data_records_len(flows@, boot);
        lemma_be_bytes_len(template_id as nat, 2);
        lemma_be_bytes_len((total_len % 0x1_0000) as nat, 2);
    }
    Ok(buf)
}

/// A NetFlow v9 packet: version 9, flowset count, system uptime, export
/// time, sequence number, source ID, then the flowsets.
pub open spec fn spec_v9_packet(
    flowsets: Seq<Seq<u8>>,
    sequence: u32,
    source_id: u32,
    sys_uptime_ms: u32,
    export_secs: u32,
) -> Seq<u8> {
    be_bytes(NETFLOW_V9_VERSION as nat, 2) + be_bytes((flowsets.len() % 0x1_0000) as nat, 2)
        + be_bytes(sys_uptime_ms as nat, 4) + be_bytes(export_secs as nat, 4) + be_bytes(sequence as nat, 4)
        + be_bytes(source_id as nat, 4) + concat(flowsets)
}

/// Builds a NetFlow v9 packet around `flowsets`; the header's system uptime
/// is that of `now` since `boot`, and `export_secs` is the export time in
/// seconds since the Unix epoch.
pub fn build_v9_packet(
    flowsets: &[Vec<u8>],
    sequence: u32,
    source_id: u32,
    boot: u64,
    now: u64,
    export_secs: u32,
) -> (packet: Vec<u8>)
    ensures
        packet@ == spec_v9_packet(contents(flowsets@), sequence, source_id, spec_uptime_ms(boot, now), export_secs),
{
    let mut body: Vec<u8> = Vec::new();
    let mut i: usize = 0;
    while i < flowsets.len()
        invariant
            i <= flowsets@.len(),
            body@ == concat(contents(flowsets@.take(i as int))),
        decreases flowsets@.len() - i,
    {
        put_all(&mut body, flowsets[i].as_slice());
        assert(contents(flowsets@.take(i + 1)).drop_last() =~= contents(flowsets@.take(i as int)));
        i += 1;
    }
    assert(flowsets@.take(flowsets@.len() as int) =~= flowsets@);
    let mut packet: Vec<u8> = Vec::new();
    put_u16(&mut packet, NETFLOW_V9_VERSION);
    put_u16(&mut packet, (flowsets.len() % 0x1_0000) as u16);
    put_u32(&mut packet, uptime_ms(boot, now));
    put_u32(&mut packet, export_secs);
    put_u32(&mut packet, sequence);
    put_u32(&mut packet, source_id);
    put_all(&mut packet, body.as_slice());
    packet
}

/// What a NetFlow v9 exporter keeps from one export to the next.
#[derive(Clone, Copy, Debug)]
pub struct NetflowV9Session {
    pub source_id: u32,
    /// Number of packets exported so far, modulo 2^32.
    pub sequence: u32,
    /// Monotonic time at which the exporter started (nanoseconds).
    pub boot: u64,
    /// When the template was last sent (monotonic nanoseconds).
    pub last_template: Option<u64>,
}

/// The flowsets of a packet: the template flowset when due, then the data flowset.
pub open spec fn spec_flowsets(send_template: bool, flows: Seq<FlowEntry>, boot: u64) -> Seq<Seq<u8>> {
    if send_template {
        seq![spec_template_flowset(TEMPLATE_ID), spec_data_flowset(TEMPLATE_ID, flows, boot)]
    } else {
        seq![spec_data_flowset(TEMPLATE_ID, flows, boot)]
    }
}

impl NetflowV9Session {
    /// A fresh exporter state started at `boot`: sequence 0, no template sent yet.
    pub fn new(source_id: u32, boot: u64) -> (s: NetflowV9Session)
        ensures
            s.source_id == source_id,
            s.sequence == 0,
            s.boot == boot,
            s.last_template is None,
    {
        NetflowV9Session { source_id, sequence: 0, boot, last_template: None }
    }

    /// Builds the packet that exports `flows` at monotonic time `now`, with
    /// `export_secs` as the export time, and moves to the next sequence
    /// number; `None`, with nothing changed, when there are no flows. The
    /// packet is always built.
    pub fn prepare_export(&mut self, flows: &[FlowEntry], now: u64, export_secs: u32) -> (r: Result<Option<Vec<u8>>, ExportError>)
        requires
            4 + flows@.len() * RECORD_LEN <= usize::MAX,
        ensures
            flows@.len() == 0 ==> r == Ok::<Option<Vec<u8>>, ExportError>(None) && *final(self) == *old(self),
            flows@.len() > 0 ==> {
                let send_template = spec_template_due(old(self).last_template, now);
                &&& r matches Ok(Some(p)) && p@ == spec_v9_packet(
                    spec_flowsets(send_template, flows@, old(self).boot),
                    old(self).sequence,
                    old(self).source_id,
                    spec_uptime_ms(old(self).boot, now),
                    export_secs,
                )
                &&& final(self).sequence == (old(self).sequence + 1) % 0x1_0000_0000
                &&& final(self).last_template == if send_template { Some(now) } else { old(self).last_template }
                &&& final(self).source_id == old(self).source_id
                &&& final(self).boot == old(self).boot
            },
    {
        if flows.len() == 0 {
            return Ok(None);
        }
        let send_template = template_due(self.last_template, now);
        let mut flowsets: Vec<Vec<u8>> = Vec::new();
        if send_template {
            flowsets.push(build_template_flowset(TEMPLATE_ID));
            self.last_template = Some(now);
        }
        let data = match build_data_flowset(TEMPLATE_ID, flows, self.boot) {
            Ok(d) => d,
            Err(e) => return Err(e),
        };
        flowsets.push(data);
        assert(contents(flowsets@) =~= spec_flowsets(send_template, flows@, self.boot));
        let packet = build_v9_packet(flowsets.as_slice(), self.sequence, self.source_id, self.boot, now, export_secs);
        self.sequence = self.sequence.wrapping_add(1);
        Ok(Some(packet))
    }
}

/// A NetFlow v9 packet starts with version 9, the number of flowsets, the
/// system uptime, the export time, the sequence number and the source ID;
/// the flowsets follow the twenty header bytes.
pub proof fn lemma_v9_packet_layout(
    flowsets: Seq<Seq<u8>>,
    sequence: u32,
    source_id: u32,
    sys_uptime_ms: u32,
    export_secs: u32,
)
    requires
        flowsets.len() < 0x1_0000,
    ensures
        ({
            let p = spec_v9_packet(flowsets, sequence, source_id, sys_uptime_ms, export_secs);
            &&& be_value(p.subrange(0, 2)) == NETFLOW_V9_VERSION
            &&& be_value(p.subrange(2, 4)) == flowsets.len()
            &&& be_value(p.subrange(4, 8)) == sys_uptime_ms
            &&& be_value(p.subrange(8, 12)) == export_secs
            &&& be_value(p.subrange(12, 16)) == sequence
            &&& be_value(p.subrange(16, 20)) == source_id
            &&& p.subrange(20, p.len() as int) == concat(flowsets)
        }),
{
    lemma_be_fixed(NETFLOW_V9_VERSION as nat, 2);
    lemma_be_fixed(flowsets.len(), 2);
    lemma_be_fixed(sys_uptime_ms as nat, 4);
    lemma_be_fixed(export_secs as nat, 4);
    lemma_be_fixed(sequence as nat, 4);
    lemma_be_fixed(source_id as nat, 4);
    let p = spec_v9_packet(flowsets, sequence, source_id, sys_uptime_ms, export_secs);
    assert(p.subrange(0, 2) =~= be_bytes(NETFLOW_V9_VERSION as nat, 2));
    assert(p.subrange(2, 4) =~= be_bytes(flowsets.len(), 2));
    assert(p.subrange(4, 8) =~= be_bytes(sys_uptime_ms as nat, 4));
    assert(p.subrange(8, 12) =~= be_bytes(export_secs as nat, 4));
    assert(p.subrange(12, 16) =~= be_bytes(sequence as nat, 4));
    assert(p.subrange(16, 20) =~= be_bytes(source_id as nat, 4));
    assert(p.subrange(20, p.len() as int) =~= concat(flowsets));
}

/// A data flowset of fewer than 1771 flows carries its own length, and its
/// records follow the four header bytes.
pub proof fn lemma_data_flowset_layout(template_id: u16, flows: Seq<FlowEntry>, boot: u64)
    requires
        4 + flows.len() * RECORD_LEN < 0x1_0000,
    ensures
        ({
            let f = spec_data_flowset(template_id, flows, boot);
            &&& f.len() == 4 + flows.len() * RECORD_LEN
            &&& be_value(f.subrange(0, 2)) == template_id
            &&& be_value(f.subrange(2, 4)) == f.len()
            &&& f.subrange(4, f.len() as int) == spec_data_records(flows, boot)
        }),
{
    let n = 4 + flows.len() * RECORD_LEN;
    lemma_data_records_len(flows, boot);
    lemma_be_fixed(template_id as nat, 2);
    lemma_be_fixed((n % 0x1_0000) as nat, 2);
    let f = spec_data_flowset(template_id, flows, boot);
    assert(f.subrange(0, 2) =~= be_bytes(template_id as nat, 2));
    assert(f.subrange(2, 4) =~= be_bytes((n % 0x1_0000) as nat, 2));
    assert(f.subrange(4, f.len() as int) =~= spec_data_records(flows, boot));
}

/// Reading a data record back field by field, at the offsets that the
/// template's field lengths give, yields the flow's exported values.
pub proof fn lemma_data_record_fields(flow: FlowEntry, boot: u64)
    ensures
        spec_data_record(flow, boot).len() == RECORD_LEN,
        be_value(spec_data_record(flow, boot).subrange(0, 8)) == flow.bytes,
        be_value(spec_data_record(flow, boot).subrange(8, 16)) == flow.packets,
        spec_data_record(flow, boot)[16] == flow.key.protocol,
        be_value(spec_data_record(flow, boot).subrange(17, 19)) == flow.key.src_port,
        be_value(spec_data_record(flow, boot).subrange(19, 21)) == flow.key.dst_port,
        be_value(spec_data_record(flow, boot).subrange(21, 25)) == flow.key.src_ip,
        be_value(spec_data_record(flow, boot).subrange(25, 29)) == flow.key.dst_ip,
        be_value(spec_data_record(flow, boot).subrange(29, 33)) == spec_uptime_ms(boot, flow.first_seen),
        be_value(spec_data_record(flow, boot).subrange(33, 37)) == spec_uptime_ms(boot, flow.last_seen),
{
    let p0 = be_bytes(flow.bytes as nat, 8);
    let p1 = be_bytes(flow.packets as nat, 8);
    let p2 = seq![flow.key.protocol];
    let p3 = be_bytes(flow.key.src_port as nat, 2);
    let p4 = be_bytes(flow.key.dst_port as nat, 2);
    let p5 = be_bytes(flow.key.src_ip as nat, 4);
    let p6 = be_bytes(flow.key.dst_ip as nat, 4);
    let p7 = be_bytes(spec_uptime_ms(boot, flow.first_seen) as nat, 4);
    let p8 = be_bytes(spec_uptime_ms(boot, flow.last_seen) as nat, 4);
    lemma_be_fixed(flow.bytes as nat, 8);
    lemma_be_fixed(flow.packets as nat, 8);
    lemma_be_fixed(flow.key.src_port as nat, 2);
    lemma_be_fixed(flow.key.dst_port as nat, 2);
    lemma_be_fixed(flow.key.src_ip as nat, 4);
    lemma_be_fixed(flow.key.dst_ip as nat, 4);
    lemma_be_fixed(spec_uptime_ms(boot, flow.first_seen) as nat, 4);
    lemma_be_fixed(spec_uptime_ms(boot, flow.last_seen) as nat, 4);
    let r = spec_data_record(flow, boot);
    assert(r == p0 + p1 + p2 + p3 + p4 + p5 + p6 + p7 + p8);
    assert(r.subrange(0, 8) =~= p0);
    assert(r.subrange(8, 16) =~= p1);
    assert(r.subrange(17, 19) =~= p3);
    assert(r.subrange(19, 21) =~= p4);
    assert(r.subrange(21, 25) =~= p5);
    assert(r.subrange(25, 29) =~= p6);
    assert(r.subrange(29, 33) =~= p7);
    assert(r.subrange(33, 37) =~= p8);
}

/// NetFlow v9 field type numbers (RFC 3954) of the fields a record carries.
pub const IN_BYTES: u16 = 1;
pub const IN_PKTS: u16 = 2;
pub const PROTOCOL: u16 = 4;
pub const L4_SRC_PORT: u16 = 7;
pub const IPV4_SRC_ADDR: u16 = 8;
pub const L4_DST_PORT: u16 = 11;
pub const IPV4_DST_ADDR: u16 = 12;
pub const LAST_SWITCHED: u16 = 21;
pub const FIRST_SWITCHED: u16 = 22;

/// The value of a flow that a NetFlow v9 field type stands for (RFC 3954),
/// with switching times as uptime milliseconds since `boot`.
pub open spec fn field_value(field_type: u16, flow: FlowEntry, boot: u64) -> int {
    if field_type == IN_BYTES {
        flow.bytes as int
    } else if field_type == IN_PKTS {
        flow.packets as int
    } else if field_type == PROTOCOL {
        flow.key.protocol as int
    } else if field_type == L4_SRC_PORT {
        flow.key.src_port as int
    } else if field_type == L4_DST_PORT {
        flow.key.dst_port as int
    } else if field_type == IPV4_SRC_ADDR {
        flow.key.src_ip as int
    } else if field_type == IPV4_DST_ADDR {
        flow.key.dst_ip as int
    } else if field_type == FIRST_SWITCHED {
        spec_uptime_ms(boot, flow.first_seen) as int
    } else if field_type == LAST_SWITCHED {
        spec_uptime_ms(boot, flow.last_seen) as int
    } else {
        -1
    }
}

/// The template describes the records: for every template entry, the
/// record bytes at the entry's offset (the sum of the lengths before it) and
/// of its length hold the flow value that the entry's field type stands for.
#[verifier::rlimit(50)]
pub proof fn lemma_template_describes_record(flow: FlowEntry, boot: u64)
    ensures
        forall|i: int|
            0 <= i < spec_template_fields().len() ==> {
                let f = #[trigger] spec_template_fields()[i];
                let off = fields_len(spec_template_fields().take(i)) as int;
                be_value(spec_data_record(flow, boot).subrange(off, off + f.1)) == field_value(f.0, flow, boot)
            },
{
    let fs = spec_template_fields();
    let r = spec_data_record(flow, boot);
    lemma_data_record_fields(flow, boot);
    lemma_fields_len_take_step(fs, 0);
    lemma_fields_len_take_step(fs, 1);
    lemma_fields_len_take_step(fs, 2);
    lemma_fields_len_take_step(fs, 3);
    lemma_fields_len_take_step(fs, 4);
    lemma_fields_len_take_step(fs, 5);
    lemma_fields_len_take_step(fs, 6);
    lemma_fields_len_take_step(fs, 7);
    lemma_fields_len_take_step(fs, 8);
    assert(r.subrange(16, 17) =~= seq![flow.key.protocol]);
    assert(be_value(seq![flow.key.protocol]) == flow.key.protocol) by {
        reveal_with_fuel(be_value, 2);
        assert(seq![flow.key.protocol].drop_last() =~= Seq::<u8>::empty());
    }
    assert forall|i: int| 0 <= i < fs.len() implies {
        let f = #[trigger] fs[i];
        let off = fields_len(fs.take(i)) as int;
        be_value(r.subrange(off, off + f.1)) == field_value(f.0, flow, boot)
    } by {
        if i == 0 {
        } else if i == 1 {
        } else if i == 2 {
        } else if i == 3 {
        } else if i == 4 {
        } else if i == 5 {
        } else if i == 6 {
        } else if i == 7 {
        } else if i == 8 {
        }
    }
}

/// Uptime counts whole milliseconds since boot: `k` milliseconds (plus any
/// fraction of one) after boot give `k` while it fits in 32 bits, and
/// `u32::MAX` beyond; events before boot give 0.
pub proof fn lemma_uptime_counts_milliseconds(boot: u64, k: nat, frac: nat, early: u64)
    requires
        frac < 1_000_000,
        boot + k * 1_000_000 + frac <= u64::MAX,
        early < boot,
    ensures
        k <= u32::MAX ==> spec_uptime_ms(boot, (boot + k * 1_000_000 + frac) as u64) == k,
        k > u32::MAX ==> spec_uptime_ms(boot, (boot + k * 1_000_000 + frac) as u64) == u32::MAX,
        spec_uptime_ms(boot, early) == 0,
{
    vstd::arithmetic::div_mod::lemma_fundamental_div_mod_converse((k * 1_000_000 + frac) as int, 1_000_000, k as int, frac as int);
}

} // verus!
