//! The system monitor's choices among what the system reports: which temperature sensor
//! is the processor's, which disk is the main one, and the network totals.
use crate::text::{contains_spec, has_prefix, lower_case, str_contains, str_starts_with, to_lowercase};
use vstd::prelude::*;

verus! {

/// The network counters the monitor shows: bytes sent and received since boot, and the
/// rates in bytes per second.
#[derive(Debug, Clone, Copy)]
pub struct NetworkInfo {
    pub upload_bytes: u64,
    pub download_bytes: u64,
    pub upload_speed: u64,
    pub download_speed: u64,
}

/// A sensor label names the processor when, in lower case, it contains `cpu` or `core`.
pub open spec fn is_cpu_label(label: Seq<char>) -> bool {
    contains_spec(lower_case(label), "cpu"@) || contains_spec(lower_case(label), "core"@)
}

/// The index of the first label that names the processor.
pub open spec fn first_cpu_label(labels: Seq<Seq<char>>) -> Option<int>
    decreases labels.len(),
{
    if labels.len() == 0 {
        None
    } else {
        match first_cpu_label(labels.drop_last()) {
            Some(i) => Some(i),
            None => if is_cpu_label(labels.last()) {
                Some(labels.len() - 1)
            } else {
                None
            },
        }
    }
}

proof fn lemma_first_cpu_prefix(labels: Seq<Seq<char>>, k: int)
    requires
        0 <= k <= labels.len(),
        first_cpu_label(labels.take(k)) is Some,
    ensures
        first_cpu_label(labels) == first_cpu_label(labels.take(k)),
    decreases labels.len() - k,
{
    if k < labels.len() {
        assert(labels.take(k + 1).drop_last() =~= labels.take(k));
        lemma_first_cpu_prefix(labels, k + 1);
    } else {
        assert(labels.take(k) =~= labels);
    }
}

/// Picks the processor's temperature sensor among the sensors' labels: the first that
/// names it.
pub fn pick_cpu_sensor(labels: &Vec<String>) -> (r: Option<usize>)
    ensures
        match r {
            Some(i) => first_cpu_label(crate::text::string_views(labels@)) == Some(i as int),
            None => first_cpu_label(crate::text::string_views(labels@)) is None,
        },
{
    let ghost all = crate::text::string_views(labels@);
    let mut i: usize = 0;
    while i < labels.len()
        invariant
            all == crate::text::string_views(labels@),
            i <= labels@.len(),
            first_cpu_label(all.take(i as int)) is None,
        decreases labels@.len() - i,
    {
        assert(all.take(i + 1).drop_last() =~= all.take(i as int));
        assert(all.take(i + 1).last() == labels@[i as int]@);
        let l = to_lowercase(labels[i].as_str());
        if str_contains(l.as_str(), "cpu") || str_contains(l.as_str(), "core") {
            proof {
                assert(first_cpu_label(all.take(i + 1)) == Some(i as int));
                lemma_first_cpu_prefix(all, i + 1);
            }
            return Some(i);
        }
        i = i + 1;
    }
    assert(all.take(labels@.len() as int) =~= all);
    None
}

/// A mount point is the main disk's when it reads as text starting with `C:`.
pub open spec fn is_main_mount(m: Option<Seq<char>>) -> bool {
    m matches Some(s) && has_prefix(s, "C:"@)
}

/// The index of the first main-disk mount point.
pub open spec fn first_main_mount(ms: Seq<Option<Seq<char>>>) -> Option<int>
    decreases ms.len(),
{
    if ms.len() == 0 {
        None
    } else {
        match first_main_mount(ms.drop_last()) {
            Some(i) => Some(i),
            None => if is_main_mount(ms.last()) {
                Some(ms.len() - 1)
            } else {
                None
            },
        }
    }
}

proof fn lemma_first_main_prefix(ms: Seq<Option<Seq<char>>>, k: int)
    requires
        0 <= k <= ms.len(),
        first_main_mount(ms.take(k)) is Some,
    ensures
        first_main_mount(ms) == first_main_mount(ms.take(k)),
    decreases ms.len() - k,
{
    if k < ms.len() {
        assert(ms.take(k + 1).drop_last() =~= ms.take(k));
        lemma_first_main_prefix(ms, k + 1);
    } else {
        assert(ms.take(k) =~= ms);
    }
}

/// The views of optional texts.
pub open spec fn mount_views(v: Seq<Option<String>>) -> Seq<Option<Seq<char>>> {
    v.map_values(|o: Option<String>| match o {
        Some(s) => Some(s@),
        None => None,
    })
}

/// Picks the disk shown, among the disks' mount points (`None` where one does not read
/// as text): the first on `C:`, else the first disk, else none.
pub fn pick_disk(mounts: &Vec<Option<String>>) -> (r: Option<usize>)
    ensures
        match first_main_mount(mount_views(mounts@)) {
            Some(i) => r == Some(i as usize),
            None => if mounts@.len() > 0 {
                r == Some(0usize)
            } else {
                r is None
            },
        },
{
    let ghost all = mount_views(mounts@);
    let mut i: usize = 0;
    while i < mounts.len()
        invariant
            all == mount_views(mounts@),
            i <= mounts@.len(),
            first_main_mount(all.take(i as int)) is None,
        decreases mounts@.len() - i,
    {
        assert(all.take(i + 1).drop_last() =~= all.take(i as int));
        let found = match &mounts[i] {
            Some(m) => str_starts_with(m.as_str(), "C:"),
            None => false,
        };
        assert(all.take(i + 1).last() == all[i as int]);
        if found {
            proof {
                assert(first_main_mount(all.take(i + 1)) == Some(i as int));
                lemma_first_main_prefix(all, i + 1);
            }
            return Some(i);
        }
        i = i + 1;
    }
    assert(all.take(mounts@.len() as int) =~= all);
    if mounts.len() > 0 {
        Some(0)
    } else {
        None
    }
}

/// The space used on a disk of `total` bytes with `available` free.
pub fn disk_used(total: u64, available: u64) -> (r: u64)
    requires
        available <= total,
    ensures
        r == total - available,
{
    total - available
}

/// The sums of the bytes sent and of the bytes received over the interfaces.
pub open spec fn totals_spec(pairs: Seq<(u64, u64)>) -> (int, int)
    decreases pairs.len(),
{
    if pairs.len() == 0 {
        (0, 0)
    } else {
        let (u, d) = totals_spec(pairs.drop_last());
        (u + pairs.last().0, d + pairs.last().1)
    }
}

proof fn lemma_totals_monotone(pairs: Seq<(u64, u64)>, k: int)
    requires
        0 <= k <= pairs.len(),
    ensures
        totals_spec(pairs.take(k)).0 <= totals_spec(pairs).0,
        totals_spec(pairs.take(k)).1 <= totals_spec(pairs).1,
    decreases pairs.len() - k,
{
    if k < pairs.len() {
        assert(pairs.take(k + 1).drop_last() =~= pairs.take(k));
        lemma_totals_monotone(pairs, k + 1);
    } else {
        assert(pairs.take(k) =~= pairs);
    }
}

/// Adds up the bytes sent and received over the interfaces, given as (sent, received).
pub fn network_totals(pairs: &Vec<(u64, u64)>) -> (r: (u64, u64))
    requires
        totals_spec(pairs@).0 <= u64::MAX,
        totals_spec(pairs@).1 <= u64::MAX,
    ensures
        (r.0 as int, r.1 as int) == totals_spec(pairs@),
{
    let mut up: u64 = 0;
    let mut down: u64 = 0;
    let mut i: usize = 0;
    while i < pairs.len()
        invariant
            i <= pairs@.len(),
            totals_spec(pairs@).0 <= u64::MAX,
            totals_spec(pairs@).1 <= u64::MAX,
            (up as int, down as int) == totals_spec(pairs@.take(i as int)),
        decreases pairs@.len() - i,
    {
        assert(pairs@.take(i + 1).drop_last() =~= pairs@.take(i as int));
        proof {
            lemma_totals_monotone(pairs@, i + 1);
        }
        let (a, b) = pairs[i];
        up = up + a;
        down = down + b;
        i = i + 1;
    }
    assert(pairs@.take(pairs@.len() as int) =~= pairs@);
    (up, down)
}

} // verus!
