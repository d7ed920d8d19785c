//! Flow keys, flow records and the flow table that aggregates packets into flows.
use crate::config::Config;
use std::collections::HashMap;
use vstd::prelude::*;
use vstd::std_specs::iter::IteratorSpec;

verus! {

/// The 5-tuple that identifies a unidirectional IPv4 TCP/UDP flow.
///
/// Addresses are held as the big-endian numeric value of the address
/// (`u32::from(Ipv4Addr)`), so `10.0.0.1` is `0x0a00_0001`.
#[derive(Clone, Copy, Debug, PartialEq, Eq, Hash)]
pub struct FlowKey {
    pub src_ip: u32,
    pub dst_ip: u32,
    pub src_port: u16,
    pub dst_port: u16,
    pub protocol: u8,
}

/// Packs the five fields of a key into one 104-bit number.
pub open spec fn pack_key(src_ip: u32, dst_ip: u32, src_port: u16, dst_port: u16, protocol: u8) -> u128 {
    ((src_ip as u128) << 72u128) | ((dst_ip as u128) << 40u128) | ((src_port as u128) << 24u128)
        | ((dst_port as u128) << 8u128) | (protocol as u128)
}

proof fn lemma_pack_key_injective(
    s1: u32, d1: u32, sp1: u16, dp1: u16, p1: u8,
    s2: u32, d2: u32, sp2: u16, dp2: u16, p2: u8,
)
    requires
        pack_key(s1, d1, sp1, dp1, p1) == pack_key(s2, d2, sp2, dp2, p2),
    ensures
        s1 == s2, d1 == d2, sp1 == sp2, dp1 == dp2, p1 == p2,
{
    assert(s1 == s2 && d1 == d2 && sp1 == sp2 && dp1 == dp2 && p1 == p2) by (bit_vector)
        requires
            ((s1 as u128) << 72u128) | ((d1 as u128) << 40u128) | ((sp1 as u128) << 24u128)
                | ((dp1 as u128) << 8u128) | (p1 as u128)
            == ((s2 as u128) << 72u128) | ((d2 as u128) << 40u128) | ((sp2 as u128) << 24u128)
                | ((dp2 as u128) << 8u128) | (p2 as u128);
}

impl FlowKey {
    /// The number under which the flow table files this key.
    pub open spec fn code(self) -> u128 {
        pack_key(self.src_ip, self.dst_ip, self.src_port, self.dst_port, self.protocol)
    }

    /// Distinct keys have distinct codes.
    pub proof fn lemma_code_injective(a: FlowKey, b: FlowKey)
        ensures
            a.code() == b.code() <==> a == b,
    {
        if a.code() == b.code() {
            lemma_pack_key_injective(
                a.src_ip, a.dst_ip, a.src_port, a.dst_port, a.protocol,
                b.src_ip, b.dst_ip, b.src_port, b.dst_port, b.protocol,
            );
        }
    }

    /// Computes the key's code.
    pub fn to_code(&self) -> (c: u128)
        ensures
            c == self.code(),
    {
        ((self.src_ip as u128) << 72u128) | ((self.dst_ip as u128) << 40u128) | ((self.src_port as u128) << 24u128)
            | ((self.dst_port as u128) << 8u128) | (self.protocol as u128)
    }
}


/// A flow as the table holds it. Timestamps are monotonic clock readings in
/// nanoseconds from a fixed origin.
#[derive(Clone, Copy, Debug, PartialEq, Eq)]
pub struct FlowEntry {
    pub key: FlowKey,
    pub packets: u64,
    pub bytes: u64,
    pub tcp_flags: u8,
    pub first_seen: u64,
    pub last_seen: u64,
}

/// Nanoseconds in one second.
pub const NANOS_PER_SEC: u64 = 1_000_000_000;

/// Time from `since` to `now`, or zero when `now` is earlier.
pub open spec fn elapsed(now: u64, since: u64) -> nat {
    if now >= since {
        (now - since) as nat
    } else {
        0
    }
}

/// Whether a flow is due for export at `now`: it has been idle for the
/// inactive timeout, or it has lasted for the active timeout.
pub open spec fn is_expired(e: FlowEntry, now: u64, active_secs: u32, inactive_secs: u32) -> bool {
    ||| elapsed(now, e.last_seen) >= inactive_secs * NANOS_PER_SEC
    ||| elapsed(now, e.first_seen) >= active_secs * NANOS_PER_SEC
}

/// The entry after one more packet of `packet_bytes` bytes seen at `now`;
/// `prev` is the entry before, if the flow was known.
pub open spec fn observed(prev: Option<FlowEntry>, key: FlowKey, packet_bytes: u32, now: u64) -> FlowEntry {
    match prev {
        None => FlowEntry {
            key,
            packets: 1,
            bytes: packet_bytes as u64,
            tcp_flags: 0,
            first_seen: now,
            last_seen: now,
        },
        Some(e) => FlowEntry {
            packets: (e.packets + 1) as u64,
            bytes: (e.bytes + packet_bytes) as u64,
            last_seen: now,
            ..e
        },
    }
}

/// Whether one more packet of `packet_bytes` bytes keeps the counters of
/// `prev` within `u64`.
pub open spec fn counters_fit(prev: Option<FlowEntry>, packet_bytes: u32) -> bool {
    match prev {
        None => true,
        Some(e) => e.packets < u64::MAX && e.bytes + packet_bytes <= u64::MAX,
    }
}

/// Active flows, keyed by their 5-tuple, with the two export timeouts.
pub struct FlowTable {
    flows: HashMap<u128, FlowEntry>,
    active_timeout_secs: u32,
    inactive_timeout_secs: u32,
}

impl View for FlowTable {
    type V = Map<FlowKey, FlowEntry>;

    closed spec fn view(&self) -> Map<FlowKey, FlowEntry> {
        Map::new(
            |k: FlowKey| self.flows@.contains_key(k.code()),
            |k: FlowKey| self.flows@[k.code()],
        )
    }
}

impl FlowTable {
    /// Each entry is filed under the code of its own key.
    #[verifier::type_invariant]
    closed spec fn filed_by_key(self) -> bool {
        forall|c: u128| #[trigger] self.flows@.contains_key(c) ==> self.flows@[c].key.code() == c
    }

    pub closed spec fn active_timeout_secs(&self) -> u32 {
        self.active_timeout_secs
    }

    pub closed spec fn inactive_timeout_secs(&self) -> u32 {
        self.inactive_timeout_secs
    }

    /// Whether `e` is due for export at `now` under this table's timeouts.
    pub open spec fn due(&self, e: FlowEntry, now: u64) -> bool {
        is_expired(e, now, self.active_timeout_secs(), self.inactive_timeout_secs())
    }

    proof fn lemma_view_keys(&self)
        requires
            self.filed_by_key(),
        ensures
            forall|k: FlowKey| #[trigger] self@.contains_key(k) ==> self@[k].key == k,
            self@.dom().finite(),
            self@.len() == self.flows@.len(),
    {
        broadcast use vstd::std_specs::hash::group_hash_axioms;
        assert forall|k: FlowKey| #[trigger] self@.contains_key(k) implies self@[k].key == k by {
            FlowKey::lemma_code_injective(self@[k].key, k);
        }
        let f = |c: u128| self.flows@[c].key;
        let x = self.flows@.dom();
        assert(vstd::relations::injective_on(f, x)) by {
            assert forall|c1: u128, c2: u128|
                x.contains(c1) && x.contains(c2) && #[trigger] f(c1) == #[trigger] f(c2) implies c1 == c2 by {
            }
        }
        assert(x.map(f) =~= self@.dom()) by {
            assert forall|k: FlowKey| #[trigger] self@.dom().contains(k) implies x.map(f).contains(k) by {
                FlowKey::lemma_code_injective(self.flows@[k.code()].key, k);
                assert(f(k.code()) == k);
            }
        }
        vstd::set_lib::lemma_map_size(x, self@.dom(), f);
    }

    /// An empty table with the given export timeouts, in seconds.
    pub fn new(active_timeout_secs: u32, inactive_timeout_secs: u32) -> (t: Self)
        ensures
            t@ == Map::<FlowKey, FlowEntry>::empty(),
            t@.dom().finite(),
            t.active_timeout_secs() == active_timeout_secs,
            t.inactive_timeout_secs() == inactive_timeout_secs,
    {
        broadcast use vstd::std_specs::hash::group_hash_axioms;
        let t = FlowTable { flows: HashMap::new(), active_timeout_secs, inactive_timeout_secs };
        assert(t@ =~= Map::<FlowKey, FlowEntry>::empty());
        t
    }

    /// Number of flows in the table.
    pub fn len(&self) -> (n: usize)
        ensures
            n == self@.len(),
    {
        broadcast use vstd::std_specs::hash::group_hash_axioms;
        proof {
            use_type_invariant(self);
            self.lemma_view_keys();
        }
        self.flows.len()
    }

    /// Whether `observe(key, packet_bytes, _)` keeps the flow's counters within `u64`.
    pub fn can_observe(&self, key: FlowKey, packet_bytes: u32) -> (ok: bool)
        ensures
            ok == counters_fit(self@.get(key), packet_bytes),
    {
        broadcast use vstd::std_specs::hash::group_hash_axioms;
        let c = key.to_code();
        match self.flows.get(&c) {
            None => true,
            Some(e) => e.packets < u64::MAX && e.bytes <= u64::MAX - packet_bytes as u64,
        }
    }

    /// Counts one packet of `packet_bytes` bytes seen at `now` into the flow
    /// of `key`, creating the flow if it is new.
    pub fn observe(&mut self, key: FlowKey, packet_bytes: u32, now: u64)
        requires
            counters_fit(old(self)@.get(key), packet_bytes),
        ensures
            final(self)@ == old(self)@.insert(key, observed(old(self)@.get(key), key, packet_bytes, now)),
            final(self)@.dom().finite(),
            final(self)@.len() == old(self)@.len() + (if old(self)@.contains_key(key) { 0int } else { 1int }),
            final(self).active_timeout_secs() == old(self).active_timeout_secs(),
            final(self).inactive_timeout_secs() == old(self).inactive_timeout_secs(),
    {
        broadcast use vstd::std_specs::hash::group_hash_axioms;
        proof {
            use_type_invariant(&*self);
        }
        let c = key.to_code();
        let entry = match self.flows.get(&c) {
            None => FlowEntry {
                key,
                packets: 1,
                bytes: packet_bytes as u64,
                tcp_flags: 0,
                first_seen: now,
                last_seen: now,
            },
            Some(e) => {
                proof {
                    FlowKey::lemma_code_injective(e.key, key);
                }
                FlowEntry {
                    key: e.key,
                    packets: e.packets + 1,
                    bytes: e.bytes + packet_bytes as u64,
                    tcp_flags: e.tcp_flags,
                    first_seen: e.first_seen,
                    last_seen: now,
                }
            },
        };
        let mut flows = HashMap::new();
        std::mem::swap(&mut flows, &mut self.flows);
        flows.insert(c, entry);
        self.flows = flows;
        proof {
            assert forall|k: FlowKey| true implies (k.code() == c <==> k == key) by {
                FlowKey::lemma_code_injective(k, key);
            }
            assert(self@ =~= old(self)@.insert(key, observed(old(self)@.get(key), key, packet_bytes, now)));
            old(self).lemma_view_keys();
            use_type_invariant(&*self);
            self.lemma_view_keys();
        }
    }

    /// The flows that stay after expiring at `now`: those not due.
    pub open spec fn kept_at(&self, now: u64) -> Map<FlowKey, FlowEntry> {
        self@.filter_keys(|k: FlowKey| !self.due(self@[k], now))
    }

    fn is_due(&self, e: &FlowEntry, now: u64) -> (r: bool)
        ensures
            r == self.due(*e, now),
    {
        let idle = if now >= e.last_seen { now - e.last_seen } else { 0 };
        let age = if now >= e.first_seen { now - e.first_seen } else { 0 };
        idle >= self.inactive_timeout_secs as u64 * NANOS_PER_SEC
            || age >= self.active_timeout_secs as u64 * NANOS_PER_SEC
    }

    fn codes(&self) -> (codes: Vec<u128>)
        ensures
            codes@.to_set() == self.flows@.dom(),
            codes@.no_duplicates(),
    {
        broadcast use vstd::std_specs::hash::group_hash_axioms;
        let mut codes: Vec<u128> = Vec::new();
        for c in it: self.flows.keys()
            invariant
                codes@ == it.seq().take(it.index() as int).unref(),
                it.seq() == vstd::std_specs::hash::spec_keys_iter(&self.flows).remaining(),
        {
            codes.push(*c);
        }
        assert(codes@ =~= vstd::std_specs::hash::spec_keys_iter(&self.flows).remaining().unref());
        codes
    }

    /// Removes the flows that are due at `now` and returns them.
    ///
    /// The order of the returned flows is the table's own iteration order,
    /// which nothing fixes.
    pub fn expire(&mut self, now: u64) -> (expired: Vec<FlowEntry>)
        ensures
            final(self)@ == old(self).kept_at(now),
            forall|i: int|
                0 <= i < expired.len() ==> {
                    &&& old(self)@.contains_key(#[trigger] expired@[i].key)
                    &&& old(self)@[expired@[i].key] == expired@[i]
                    &&& old(self).due(expired@[i], now)
                },
            forall|k: FlowKey|
                #[trigger] old(self)@.contains_key(k) && old(self).due(old(self)@[k], now)
                    ==> exists|i: int| 0 <= i < expired.len() && expired@[i].key == k,
            forall|i: int, j: int|
                0 <= i < j < expired.len() ==> expired@[i].key != expired@[j].key,
            expired.len() + final(self)@.len() == old(self)@.len(),
            final(self)@.dom().finite(),
            final(self).active_timeout_secs() == old(self).active_timeout_secs(),
            final(self).inactive_timeout_secs() == old(self).inactive_timeout_secs(),
    {
        broadcast use vstd::std_specs::hash::group_hash_axioms;
        proof {
            use_type_invariant(&*self);
        }
        let codes = self.codes();
        let ghost old_flows = self.flows@;
        let mut flows = HashMap::new();
        std::mem::swap(&mut flows, &mut self.flows);
        let mut expired: Vec<FlowEntry> = Vec::new();
        let n = codes.len();
        let mut i: usize = 0;
        while i < n
            invariant
                n == codes.len(),
                i <= n,
                codes@.to_set() == old_flows.dom(),
                codes@.no_duplicates(),
                forall|c: u128| #[trigger] old_flows.contains_key(c) ==> old_flows[c].key.code() == c,
                forall|c: u128| #[trigger] flows@.contains_key(c) ==> old_flows.contains_key(c) && flows@[c] == old_flows[c],
                forall|c: u128| #[trigger] old_flows.contains_key(c) ==>
                    (flows@.contains_key(c) <==> !(codes@.take(i as int).contains(c) && self.due(old_flows[c], now))),
                forall|k: int| 0 <= k < expired.len() ==> {
                    &&& old_flows.contains_key(#[trigger] expired@[k].key.code())
                    &&& old_flows[expired@[k].key.code()] == expired@[k]
                    &&& self.due(expired@[k], now)
                    &&& codes@.take(i as int).contains(expired@[k].key.code())
                },
                forall|c: u128| #[trigger] codes@.take(i as int).contains(c) && self.due(old_flows[c], now)
                    ==> exists|k: int| 0 <= k < expired.len() && expired@[k].key.code() == c,
                forall|a: int, b: int| 0 <= a < b < expired.len() ==> expired@[a].key.code() != expired@[b].key.code(),
            decreases n - i,
        {
            let c = codes[i];
            proof {
                assert(codes@.to_set().contains(c));
                assert(codes@.take(i + 1) =~= codes@.take(i as int).push(c));
                assert(!codes@.take(i as int).contains(c)) by {
                    if codes@.take(i as int).contains(c) {
                        let j = choose|j: int| 0 <= j < i && codes@.take(i as int)[j] == c;
                        assert(codes@[j] == codes@[i as int]);
                    }
                }
            }
            let ghost prev_expired = expired@;
            match flows.get(&c) {
                Some(e) => {
                    let e = *e;
                    if self.is_due(&e, now) {
                        expired.push(e);
                        flows.remove(&c);
                    }
                },
                None => {},
            }
            proof {
                let t1 = codes@.take(i + 1);
                let t0 = codes@.take(i as int);
                assert forall|x: u128| #[trigger] t1.contains(x) <==> (t0.contains(x) || x == c) by {
                    if t1.contains(x) && x != c {
                        let j = choose|j: int| 0 <= j < t1.len() && t1[j] == x;
                        assert(t0[j] == x);
                    }
                    if t0.contains(x) {
                        let j = choose|j: int| 0 <= j < t0.len() && t0[j] == x;
                        assert(t1[j] == x);
                    }
                    if x == c {
                        assert(t1[i as int] == x);
                    }
                }
                assert forall|x: u128| #[trigger] t1.contains(x) && self.due(old_flows[x], now)
                    implies exists|k: int| 0 <= k < expired.len() && expired@[k].key.code() == x by {
                    if x == c {
                        assert(old_flows.contains_key(c));
                        assert(expired@[expired.len() - 1].key.code() == c);
                    } else {
                        let k = choose|k: int| 0 <= k < prev_expired.len() && prev_expired[k].key.code() == x;
                        assert(expired@[k] == prev_expired[k]);
                    }
                }
            }
            i += 1;
        }
        self.flows = flows;
        proof {
            assert(codes@.take(n as int) =~= codes@);
            assert forall|k: FlowKey| true implies (#[trigger] self@.contains_key(k) <==> old(self).kept_at(now).contains_key(k)) by {
                if old_flows.contains_key(k.code()) {
                    assert(codes@.to_set().contains(k.code()));
                }
            }
            assert(self@ =~= old(self).kept_at(now));
            assert forall|k: FlowKey|
                #[trigger] old(self)@.contains_key(k) && old(self).due(old(self)@[k], now)
                    implies exists|i: int| 0 <= i < expired.len() && expired@[i].key == k by {
                assert(codes@.to_set().contains(k.code()));
                let j = choose|j: int| 0 <= j < expired.len() && expired@[j].key.code() == k.code();
                FlowKey::lemma_code_injective(expired@[j].key, k);
            }
            assert forall|a: int, b: int| 0 <= a < b < expired.len() implies expired@[a].key != expired@[b].key by {
                FlowKey::lemma_code_injective(expired@[a].key, expired@[b].key);
            }
            old(self).lemma_view_keys();
            let due_fn = |e: FlowEntry| old(self).due(e, now);
            assert(self@ =~= old(self)@.filter_keys(|k: FlowKey| !due_fn(old(self)@[k])));
            lemma_expired_count(old(self)@, self@, expired@, due_fn);
            use_type_invariant(&*self);
            self.lemma_view_keys();
        }
        expired
    }
}

impl FlowTable {
    /// Expiring twice at the same instant: the second time finds nothing due
    /// and keeps every flow. `after` is the table that the first expiry left.
    pub proof fn lemma_expire_again_keeps_all(before: &FlowTable, after: &FlowTable, now: u64)
        requires
            after@ == before.kept_at(now),
            after.active_timeout_secs() == before.active_timeout_secs(),
            after.inactive_timeout_secs() == before.inactive_timeout_secs(),
        ensures
            after.kept_at(now) == after@,
            forall|k: FlowKey| #[trigger] after@.contains_key(k) ==> !after.due(after@[k], now),
    {
        assert(after.kept_at(now) =~= after@);
    }
}

/// A flow that has just seen a packet is not idle: it is due at that instant
/// only when a timeout is zero, or, for a known flow, when its first packet
/// is an active timeout old.
pub proof fn lemma_observed_not_idle(
    prev: Option<FlowEntry>,
    key: FlowKey,
    packet_bytes: u32,
    now: u64,
    active_secs: u32,
    inactive_secs: u32,
)
    requires
        active_secs > 0,
        inactive_secs > 0,
    ensures
        prev is None ==> !is_expired(observed(prev, key, packet_bytes, now), now, active_secs, inactive_secs),
        prev matches Some(e) ==> (is_expired(observed(prev, key, packet_bytes, now), now, active_secs, inactive_secs)
            <==> elapsed(now, e.first_seen) >= active_secs * NANOS_PER_SEC),
{
}

/// Timeouts are in whole seconds: a flow idle for its inactive timeout, or
/// as old as its active timeout, is due; a flow idle for less and younger
/// than the active timeout is not.
pub proof fn lemma_expiry_thresholds(e: FlowEntry, now: u64, active_secs: u32, inactive_secs: u32)
    requires
        e.first_seen <= e.last_seen <= now,
    ensures
        now - e.last_seen >= inactive_secs as int * 1_000_000_000 ==> is_expired(e, now, active_secs, inactive_secs),
        now - e.first_seen >= active_secs as int * 1_000_000_000 ==> is_expired(e, now, active_secs, inactive_secs),
        now - e.last_seen < inactive_secs as int * 1_000_000_000 && now - e.first_seen < active_secs as int
            * 1_000_000_000 ==> !is_expired(e, now, active_secs, inactive_secs),
{
}

/// Two packets of one flow: the flow counts both, with their byte sum; it
/// starts at the first packet's time (or the flow's earlier start) and ends
/// at the second packet's time.
pub proof fn lemma_observed_accumulates(
    prev: Option<FlowEntry>,
    key: FlowKey,
    b1: u32,
    t1: u64,
    b2: u32,
    t2: u64,
)
    requires
        counters_fit(prev, b1),
        counters_fit(Some(observed(prev, key, b1, t1)), b2),
    ensures
        ({
            let e = observed(Some(observed(prev, key, b1, t1)), key, b2, t2);
            let (p0, by0, start) = match prev {
                None => (0int, 0int, t1),
                Some(p) => (p.packets as int, p.bytes as int, p.first_seen),
            };
            &&& e.packets == p0 + 2
            &&& e.bytes == by0 + b1 + b2
            &&& e.first_seen == start
            &&& e.last_seen == t2
            &&& prev is None ==> e.key == key
        }),
{
}

/// Splitting a finite map into what stays and a duplicate-free list of what
/// leaves accounts for every entry once.
proof fn lemma_expired_count(
    old_m: Map<FlowKey, FlowEntry>,
    new_m: Map<FlowKey, FlowEntry>,
    gone: Seq<FlowEntry>,
    due: spec_fn(FlowEntry) -> bool,
)
    requires
        old_m.dom().finite(),
        new_m == old_m.filter_keys(|k: FlowKey| !due(old_m[k])),
        forall|i: int| 0 <= i < gone.len() ==> #[trigger] old_m.contains_key(gone[i].key) && due(gone[i]) && old_m[gone[i].key] == gone[i],
        forall|k: FlowKey| #[trigger] old_m.contains_key(k) && due(old_m[k]) ==> exists|i: int| 0 <= i < gone.len() && gone[i].key == k,
        forall|i: int, j: int| 0 <= i < j < gone.len() ==> gone[i].key != gone[j].key,
    ensures
        gone.len() + new_m.len() == old_m.len(),
{
    let keys = gone.map_values(|e: FlowEntry| e.key);
    assert(keys.no_duplicates()) by {
        assert forall|i: int, j: int| 0 <= i < keys.len() && 0 <= j < keys.len() && i != j implies keys[i] != keys[j] by {
            if i < j {
            } else {
            }
        }
    }
    keys.unique_seq_to_set();
    let ks = keys.to_set();
    assert(old_m.dom() =~= new_m.dom() + ks) by {
        assert forall|k: FlowKey| old_m.dom().contains(k) implies (new_m.dom() + ks).contains(k) by {
            if due(old_m[k]) {
                let i = choose|i: int| 0 <= i < gone.len() && gone[i].key == k;
                assert(keys[i] == k);
            }
        }
        assert forall|k: FlowKey| ks.contains(k) implies old_m.dom().contains(k) by {
            let i = choose|i: int| 0 <= i < keys.len() && keys[i] == k;
            assert(old_m.contains_key(gone[i].key));
        }
    }
    assert(new_m.dom().disjoint(ks)) by {
        assert forall|k: FlowKey| new_m.dom().contains(k) implies !ks.contains(k) by {
            if ks.contains(k) {
                let i = choose|i: int| 0 <= i < keys.len() && keys[i] == k;
                assert(old_m.contains_key(gone[i].key) && due(gone[i]));
            }
        }
    }
    assert(new_m.dom().subset_of(old_m.dom()));
    vstd::set_lib::lemma_len_subset(new_m.dom(), old_m.dom());
    vstd::set_lib::lemma_set_disjoint_lens(new_m.dom(), ks);
    assert(ks.finite()) by {
        assert(ks.subset_of(old_m.dom()));
        vstd::set_lib::lemma_len_subset(ks, old_m.dom());
    }
}

/// What the flow table is set up with: the active and the inactive timeout,
/// in seconds.
pub fn describe(cfg: &Config) -> (r: (u32, u32))
    ensures
        r == (cfg.flow.active_timeout_secs, cfg.flow.inactive_timeout_secs),
{
    (cfg.flow.active_timeout_secs, cfg.flow.inactive_timeout_secs)
}

/// The table is scanned for expired flows at most once per this many milliseconds.
pub const EXPIRE_SCAN_INTERVAL_MS: u64 = 1000;

/// Whether a scan for expired flows is due at `now`, the last one having
/// run at `last_scan` (monotonic nanoseconds): a whole scan interval has passed.
pub fn expire_scan_due(last_scan: u64, now: u64) -> (r: bool)
    ensures
        r == (elapsed(now, last_scan) / 1_000_000 >= EXPIRE_SCAN_INTERVAL_MS),
{
    let d = if now >= last_scan { now - last_scan } else { 0 };
    d / 1_000_000 >= EXPIRE_SCAN_INTERVAL_MS
}

} // verus!
