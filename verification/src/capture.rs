//! Choosing the capture device that a configured interface name refers to.
use vstd::prelude::*;

verus! {

/// What the device choice reads of a capture device.
#[derive(Clone, Debug)]
pub struct DeviceInfo {
    pub name: String,
    pub desc: Option<String>,
}

/// Why no device was chosen.
#[derive(Clone, Copy, Debug, PartialEq, Eq)]
pub enum DeviceError {
    /// The system lists no capture device at all.
    NoDevices,
    /// No device matches the requested interface.
    NotFound,
    /// `auto` was requested and every device is a loopback device.
    NoNonLoopback,
}

/// The full Unicode lowercase mapping of a string, as std's `str::to_lowercase` computes it.
pub uninterp spec fn spec_lowercase(s: Seq<char>) -> Seq<char>;

/// std's `str::to_lowercase`: the string with every character replaced by
/// its Unicode lowercase mapping. Its result is named, not described.
#[verifier::external_body]
fn lowercase(s: &str) -> (r: String)
    ensures
        r@ == spec_lowercase(s@),
{
    s.to_lowercase()
}

/// A character with ASCII `A`..`Z` mapped to `a`..`z`, as a code point.
pub open spec fn ascii_fold(c: char) -> u32 {
    if 'A' <= c <= 'Z' {
        (c as u32 + 32) as u32
    } else {
        c as u32
    }
}

/// Equality up to ASCII case.
pub open spec fn eq_ignore_ascii_case(a: Seq<char>, b: Seq<char>) -> bool {
    &&& a.len() == b.len()
    &&& forall|i: int| 0 <= i < a.len() ==> #[trigger] ascii_fold(a[i]) == ascii_fold(b[i])
}

/// Whether `needle` occurs in `hay` at position `at`.
pub open spec fn occurs_at(hay: Seq<char>, needle: Seq<char>, at: int) -> bool {
    0 <= at && at + needle.len() <= hay.len() && hay.subrange(at, at + needle.len()) == needle
}

/// Whether `needle` occurs anywhere in `hay`.
pub open spec fn contains_str(hay: Seq<char>, needle: Seq<char>) -> bool {
    exists|at: int| occurs_at(hay, needle, at)
}

fn fold_char(c: char) -> (r: u32)
    ensures
        r == ascii_fold(c),
{
    if 'A' <= c && c <= 'Z' {
        c as u32 + 32
    } else {
        c as u32
    }
}

/// Whether two strings are equal up to ASCII case.
pub fn str_eq_ignore_ascii_case(a: &str, b: &str) -> (r: bool)
    ensures
        r == eq_ignore_ascii_case(a@, b@),
{
    let n = a.unicode_len();
    if n != b.unicode_len() {
        return false;
    }
    let mut i: usize = 0;
    while i < n
        invariant
            n == a@.len(),
            n == b@.len(),
            i <= n,
            forall|j: int| 0 <= j < i ==> #[trigger] ascii_fold(a@[j]) == ascii_fold(b@[j]),
        decreases n - i,
    {
        if fold_char(a.get_char(i)) != fold_char(b.get_char(i)) {
            return false;
        }
        i += 1;
    }
    true
}

/// Whether `needle` occurs in `hay`.
pub fn str_contains(hay: &str, needle: &str) -> (r: bool)
    ensures
        r == contains_str(hay@, needle@),
{
    let h = hay.unicode_len();
    let m = needle.unicode_len();
    if m > h {
        assert forall|at: int| !occurs_at(hay@, needle@, at) by {}
        return false;
    }
    if m == 0 {
        assert(hay@.subrange(0, 0) =~= needle@);
        assert(occurs_at(hay@, needle@, 0));
        return true;
    }
    let mut at: usize = 0;
    while at <= h - m
        invariant
            h == hay@.len(),
            m == needle@.len(),
            0 < m <= h,
            at <= h - m + 1,
            forall|k: int| 0 <= k < at ==> !occurs_at(hay@, needle@, k),
        decreases h - m + 1 - at,
    {
        let mut j: usize = 0;
        let mut same = true;
        while j < m
            invariant
                h == hay@.len(),
                m == needle@.len(),
                at + m <= h,
                j <= m,
                same ==> forall|q: int| 0 <= q < j ==> hay@[at + q] == needle@[q],
                !same ==> !occurs_at(hay@, needle@, at as int),
            decreases m - j,
        {
            if hay.get_char(at + j) != needle.get_char(j) {
                same = false;
                assert(hay@.subrange(at as int, at + m)[j as int] != needle@[j as int]);
            }
            j += 1;
        }
        if same {
            assert(hay@.subrange(at as int, at + m) =~= needle@);
            assert(occurs_at(hay@, needle@, at as int));
            return true;
        }
        at += 1;
    }
    assert forall|k: int| !occurs_at(hay@, needle@, k) by {
        if 0 <= k && k + m <= h {
            assert(k < at);
        }
    }
    false
}

/// Whether a device answers to the requested interface: its name equals the
/// request up to ASCII case, or its lowercased name or description contains
/// the lowercased request.
pub open spec fn spec_device_matches(d: DeviceInfo, request: Seq<char>) -> bool {
    ||| eq_ignore_ascii_case(d.name@, request)
    ||| contains_str(spec_lowercase(d.name@), spec_lowercase(request))
    ||| (d.desc matches Some(desc) && contains_str(spec_lowercase(desc@), spec_lowercase(request)))
}

/// The matching rule on strings already lowercased: `name` equals `request`
/// up to ASCII case, or `name_lower` or `desc_lower` contains `request_lower`.
pub fn matches_lowered(
    name: &str,
    name_lower: &str,
    desc_lower: Option<&str>,
    request: &str,
    request_lower: &str,
) -> (r: bool)
    ensures
        r == (eq_ignore_ascii_case(name@, request@) || contains_str(name_lower@, request_lower@) || (
        desc_lower matches Some(d) && contains_str(d@, request_lower@))),
{
    if str_eq_ignore_ascii_case(name, request) {
        return true;
    }
    if str_contains(name_lower, request_lower) {
        return true;
    }
    match desc_lower {
        Some(d) => str_contains(d, request_lower),
        None => false,
    }
}

/// Whether `device` answers to the requested interface name.
pub fn device_matches(device: &DeviceInfo, request: &str) -> (r: bool)
    ensures
        r == spec_device_matches(*device, request@),
{
    let req = lowercase(request);
    let name = lowercase(device.name.as_str());
    match &device.desc {
        Some(desc) => {
            let d = lowercase(desc.as_str());
            matches_lowered(device.name.as_str(), name.as_str(), Some(d.as_str()), request, req.as_str())
        },
        None => matches_lowered(device.name.as_str(), name.as_str(), None, request, req.as_str()),
    }
}

/// The request is compared after lowercasing, as the device's name and
/// description are: a device whose lowercased name or description contains
/// the lowercased request matches it; and two requests that lowercase alike
/// match the same devices, unless the one names the device exactly up to
/// ASCII case.
pub proof fn lemma_matching_ignores_request_case(d: DeviceInfo, r1: Seq<char>, r2: Seq<char>)
    ensures
        contains_str(spec_lowercase(d.name@), spec_lowercase(r1)) ==> spec_device_matches(d, r1),
        (d.desc matches Some(desc) && contains_str(spec_lowercase(desc@), spec_lowercase(r1)))
            ==> spec_device_matches(d, r1),
        eq_ignore_ascii_case(d.name@, r1) ==> spec_device_matches(d, r1),
        spec_lowercase(r1) == spec_lowercase(r2) && spec_device_matches(d, r1) && !eq_ignore_ascii_case(d.name@, r1)
            ==> spec_device_matches(d, r2),
{
}

/// Whether a device is a loopback device: its lowercased name contains
/// `loopback`.
pub open spec fn spec_is_loopback(d: DeviceInfo) -> bool {
    contains_str(spec_lowercase(d.name@), "loopback"@)
}

/// The loopback test on a name already lowercased. It also looks for
/// `npcap loopback`, which can only occur where `loopback` does.
pub fn is_loopback_lowered(name_lower: &str) -> (r: bool)
    ensures
        r == contains_str(name_lower@, "loopback"@),
{
    let plain = str_contains(name_lower, "loopback");
    let npcap = str_contains(name_lower, "npcap loopback");
    proof {
        reveal_strlit("loopback");
        reveal_strlit("npcap loopback");
        if npcap {
            let at = choose|at: int| occurs_at(name_lower@, "npcap loopback"@, at);
            assert(name_lower@.subrange(at + 6, at + 14) =~= "loopback"@) by {
                assert forall|i: int| 0 <= i < 8 implies name_lower@.subrange(at + 6, at + 14)[i] == "loopback"@[i] by {
                    assert(name_lower@.subrange(at, at + 14)[i + 6] == "npcap loopback"@[i + 6]);
                }
            }
            assert(occurs_at(name_lower@, "loopback"@, at + 6));
        }
    }
    plain || npcap
}

fn is_loopback(device: &DeviceInfo) -> (r: bool)
    ensures
        r == spec_is_loopback(*device),
{
    let n = lowercase(device.name.as_str());
    is_loopback_lowered(n.as_str())
}

/// Chooses the device to capture on: for `auto`, the first device that is not
/// a loopback device; otherwise the first device that matches the request.
/// Answers its index in `devices`.
pub fn select_device(devices: &[DeviceInfo], request: &str) -> (r: Result<usize, DeviceError>)
    ensures
        devices@.len() == 0 ==> r == Err::<usize, DeviceError>(DeviceError::NoDevices),
        devices@.len() > 0 && request@ != "auto"@ ==> match r {
            Ok(i) => i < devices@.len() && spec_device_matches(devices@[i as int], request@)
                && forall|j: int| 0 <= j < i ==> !spec_device_matches(#[trigger] devices@[j], request@),
            Err(e) => e == DeviceError::NotFound
                && forall|j: int| 0 <= j < devices@.len() ==> !spec_device_matches(#[trigger] devices@[j], request@),
        },
        devices@.len() > 0 && request@ == "auto"@ ==> match r {
            Ok(i) => i < devices@.len() && !spec_is_loopback(devices@[i as int])
                && forall|j: int| 0 <= j < i ==> spec_is_loopback(#[trigger] devices@[j]),
            Err(e) => e == DeviceError::NoNonLoopback
                && forall|j: int| 0 <= j < devices@.len() ==> spec_is_loopback(#[trigger] devices@[j]),
        },
{
    if devices.len() == 0 {
        return Err(DeviceError::NoDevices);
    }
    let auto = crate::config::str_eq(request, "auto");
    let mut i: usize = 0;
    while i < devices.len()
        invariant
            i <= devices@.len(),
            auto == (request@ == "auto"@),
            !auto ==> forall|j: int| 0 <= j < i ==> !spec_device_matches(#[trigger] devices@[j], request@),
            auto ==> forall|j: int| 0 <= j < i ==> spec_is_loopback(#[trigger] devices@[j]),
        decreases devices@.len() - i,
    {
        if auto {
            if !is_loopback(&devices[i]) {
                return Ok(i);
            }
        } else if device_matches(&devices[i], request) {
            return Ok(i);
        }
        i += 1;
    }
    if auto {
        Err(DeviceError::NoNonLoopback)
    } else {
        Err(DeviceError::NotFound)
    }
}

} // verus!
