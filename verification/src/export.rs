//! What the two exporters share: errors, template refresh and wall-clock seconds.
use crate::bytes::{be_bytes, lemma_be_bytes_len};
use crate::config::{spec_export_format, ExportConfig, ExportFormat};
use crate::flow::elapsed;
use crate::ipfix::{spec_domain_id, IpfixSession};
use crate::netflow_v9::NetflowV9Session;
use vstd::prelude::*;

verus! {

/// Why a datagram could not be built.
#[derive(Clone, Copy, Debug, PartialEq, Eq)]
pub enum ExportError {
    /// Not one record fits in a datagram.
    RecordDoesNotFit,
    /// The total length of the data records does not fit in `usize`.
    RecordLengthOverflow,
    /// The data set length does not fit in `usize`.
    SetLengthOverflow,
    /// The data set would exceed 65535 bytes.
    SetTooLarge,
    /// The message length does not fit in `usize`.
    MessageLengthOverflow,
    /// The message would exceed 65535 bytes.
    MessageTooLarge,
    /// The datagram exceeds the datagram size limit; it holds the datagram's length.
    DatagramTooLarge(usize),
}

/// Templates are sent again once this many nanoseconds have passed.
pub const TEMPLATE_REFRESH_NS: u64 = 60_000_000_000;

/// Whether a template is due at `now`: none was sent yet, or the last one
/// was sent at least a minute ago.
pub open spec fn spec_template_due(last_template: Option<u64>, now: u64) -> bool {
    match last_template {
        None => true,
        Some(t) => elapsed(now, t) >= TEMPLATE_REFRESH_NS,
    }
}

pub fn template_due(last_template: Option<u64>, now: u64) -> (r: bool)
    ensures
        r == spec_template_due(last_template, now),
{
    match last_template {
        None => true,
        Some(t) => {
            let e = if now >= t { now - t } else { 0 };
            e >= TEMPLATE_REFRESH_NS
        },
    }
}

/// The export time in a message header: whole seconds since the Unix epoch,
/// truncated to 32 bits; `since_epoch_ns` is the wall clock reading in
/// nanoseconds, `None` when the clock stands before the epoch (read as 0).
pub open spec fn spec_unix_secs(since_epoch_ns: Option<u128>) -> u32 {
    match since_epoch_ns {
        None => 0,
        Some(ns) => ((ns / 1_000_000_000) % 0x1_0000_0000) as u32,
    }
}

pub fn unix_secs(since_epoch_ns: Option<u128>) -> (r: u32)
    ensures
        r == spec_unix_secs(since_epoch_ns),
{
    match since_epoch_ns {
        None => 0,
        Some(ns) => ((ns / 1_000_000_000) % 0x1_0000_0000) as u32,
    }
}

/// Sum of the lengths of a list of template fields.
pub open spec fn fields_len(fields: Seq<(u16, u16)>) -> nat
    decreases fields.len(),
{
    if fields.len() == 0 {
        0
    } else {
        fields_len(fields.drop_last()) + fields.last().1 as nat
    }
}

/// The offset of a field grows by the length of the field before it.
pub proof fn lemma_fields_len_take_step(fields: Seq<(u16, u16)>, i: int)
    requires
        0 <= i < fields.len(),
    ensures
        fields_len(fields.take(i + 1)) == fields_len(fields.take(i)) + fields[i].1,
        fields_len(fields.take(0)) == 0,
{
    assert(fields.take(i + 1).drop_last() =~= fields.take(i));
    assert(fields.take(0) =~= Seq::<(u16, u16)>::empty());
}

/// The type and length of each field, two big-endian 16-bit numbers each.
pub open spec fn field_specifiers(fields: Seq<(u16, u16)>) -> Seq<u8>
    decreases fields.len(),
{
    if fields.len() == 0 {
        Seq::empty()
    } else {
        field_specifiers(fields.drop_last()) + be_bytes(fields.last().0 as nat, 2) + be_bytes(
            fields.last().1 as nat,
            2,
        )
    }
}

pub proof fn lemma_field_specifiers_len(fields: Seq<(u16, u16)>)
    ensures
        field_specifiers(fields).len() == 4 * fields.len(),
    decreases fields.len(),
{
    if fields.len() > 0 {
        lemma_field_specifiers_len(fields.drop_last());
        lemma_be_bytes_len(fields.last().0 as nat, 2);
        lemma_be_bytes_len(fields.last().1 as nat, 2);
    }
}

/// Byte strings laid one after the other.
pub open spec fn concat(parts: Seq<Seq<u8>>) -> Seq<u8>
    decreases parts.len(),
{
    if parts.len() == 0 {
        Seq::empty()
    } else {
        concat(parts.drop_last()) + parts.last()
    }
}

/// The contents of each of a list of byte vectors.
pub open spec fn contents(parts: Seq<Vec<u8>>) -> Seq<Seq<u8>> {
    parts.map_values(|v: Vec<u8>| v@)
}

/// A template is due when none was sent yet; after one is sent at `t`, it
/// is not due again during the following minute, and due from a full minute
/// on (a clock reading before `t` counts as no time passed).
pub proof fn lemma_template_refresh_after_a_minute(t: u64, now: u64)
    ensures
        spec_template_due(None, now),
        t <= now && now - t < 60_000_000_000 ==> !spec_template_due(Some(t), now),
        t <= now && now - t >= 60_000_000_000 ==> spec_template_due(Some(t), now),
        now < t ==> !spec_template_due(Some(t), now),
{
}

/// The export time is the whole number of seconds of the wall-clock
/// reading: any reading within second `s` (below 2^32) gives `s`; a clock
/// before the epoch gives 0; readings 2^32 seconds apart give the same value.
pub proof fn lemma_unix_secs_is_whole_seconds(s: nat, r: nat, ns: u128)
    requires
        s < 0x1_0000_0000,
        r < 1_000_000_000,
        s * 1_000_000_000 + r <= u128::MAX,
        ns as int + 0x1_0000_0000 * 1_000_000_000 <= u128::MAX,
    ensures
        spec_unix_secs(Some((s * 1_000_000_000 + r) as u128)) == s,
        spec_unix_secs(None) == 0,
        spec_unix_secs(Some((ns + 0x1_0000_0000 * 1_000_000_000) as u128)) == spec_unix_secs(Some(ns)),
{
    let n = s * 1_000_000_000 + r;
    vstd::arithmetic::div_mod::lemma_fundamental_div_mod_converse(n as int, 1_000_000_000, s as int, r as int);
    vstd::arithmetic::div_mod::lemma_small_mod(s, 0x1_0000_0000);
    let m = ns + 0x1_0000_0000 * 1_000_000_000;
    let q = ns / 1_000_000_000;
    let rr = ns % 1_000_000_000;
    vstd::arithmetic::div_mod::lemma_fundamental_div_mod(ns as int, 1_000_000_000);
    vstd::arithmetic::div_mod::lemma_fundamental_div_mod_converse(
        m as int,
        1_000_000_000,
        q + 0x1_0000_0000,
        rr as int,
    );
    vstd::arithmetic::div_mod::lemma_mod_add_multiples_vanish(q as int, 0x1_0000_0000);
}

/// The export state of the configured protocol.
#[derive(Clone, Copy, Debug)]
pub enum ExportSession {
    NetflowV9(NetflowV9Session),
    Ipfix(IpfixSession),
}

/// A fresh export state for the protocol that `export_cfg.format` names,
/// started at monotonic time `boot`. The format must have been validated.
pub fn create_session(export_cfg: &ExportConfig, boot: u64) -> (s: ExportSession)
    requires
        spec_export_format(export_cfg.format@) is Some,
    ensures
        spec_export_format(export_cfg.format@) == Some(ExportFormat::NetflowV9) ==> s == (ExportSession::NetflowV9(
            NetflowV9Session { source_id: export_cfg.source_id, sequence: 0, boot, last_template: None },
        )),
        spec_export_format(export_cfg.format@) == Some(ExportFormat::Ipfix) ==> s == (ExportSession::Ipfix(
            IpfixSession { domain_id: spec_domain_id(*export_cfg), sequence: 0, last_template: None },
        )),
{
    match crate::config::export_format(export_cfg.format.as_str()) {
        Some(ExportFormat::NetflowV9) => ExportSession::NetflowV9(NetflowV9Session::new(export_cfg.source_id, boot)),
        Some(ExportFormat::Ipfix) => ExportSession::Ipfix(IpfixSession::new(export_cfg)),
        None => {
            assert(false);
            ExportSession::Ipfix(IpfixSession::new(export_cfg))
        },
    }
}

} // verus!
