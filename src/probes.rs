//! Stack-timing probes: the entry probe records when a packet enters the
//! receive stack, the exit probe turns the elapsed time into a histogram
//! bucket.
use vstd::prelude::*;
use vstd::std_specs::bits::u64_leading_zeros;
use vstd::arithmetic::power2::pow2;
use std::collections::HashMap;

verus! {

broadcast use vstd::std_specs::hash::group_hash_axioms;

/// Most entries of the start-time scratchpad.
pub const SCRATCHPAD_MAX_ENTRIES: usize = 10240;

/// Most entries of the latency histogram.
pub const HISTOGRAM_MAX_ENTRIES: usize = 64;

/// Number of buckets that a report covers: 0 to 63.
pub const REPORT_BUCKETS: u64 = 64;

/// Number of significant bits of `l`: 0 for 0, else floor(log2(l)) + 1.
pub open spec fn bit_length(l: nat) -> nat
    decreases l,
{
    if l == 0 {
        0
    } else {
        1 + bit_length(l / 2)
    }
}

proof fn lemma_leading_zeros_bit_length(l: u64)
    ensures
        64 - u64_leading_zeros(l) == bit_length(l as nat),
    decreases l,
{
    reveal(u64_leading_zeros);
    if l != 0 {
        lemma_leading_zeros_bit_length(l / 2);
    }
}

/// Histogram bucket of a latency in nanoseconds: the position of its
/// highest set bit plus one, and 0 for a latency of 0.
pub fn latency_bucket(latency: u64) -> (r: u64)
    ensures
        r == bit_length(latency as nat),
        r <= 64,
{
    proof {
        lemma_leading_zeros_bit_length(latency);
        vstd::std_specs::bits::axiom_u64_leading_zeros(latency);
    }
    64 - latency.leading_zeros() as u64
}

/// Every positive latency `l` lies in its bucket's power-of-two range:
/// 2^(b-1) <= l < 2^b for b = `bit_length(l)`; 0 lies in bucket 0.
pub proof fn lemma_bucket_bounds(l: nat)
    ensures
        l == 0 ==> bit_length(l) == 0,
        l > 0 ==> bit_length(l) >= 1 && pow2((bit_length(l) - 1) as nat) <= l < pow2(bit_length(l)),
    decreases l,
{
    reveal(pow2);
    if l > 0 {
        lemma_bucket_bounds(l / 2);
        if l / 2 == 0 {
            assert(bit_length(l) == 1);
            assert(pow2(0) == 1 && pow2(1) == 2) by {
                vstd::arithmetic::power2::lemma2_to64();
            }
        } else {
            let b = bit_length(l / 2);
            assert(pow2(b) == 2 * pow2((b - 1) as nat)) by {
                vstd::arithmetic::power2::lemma_pow2_unfold(b);
            }
            assert(pow2(b + 1) == 2 * pow2(b)) by {
                vstd::arithmetic::power2::lemma_pow2_unfold(b + 1);
            }
        }
    }
}

/// Elapsed nanoseconds from `start` to `now`, 0 where the clock went back.
pub open spec fn elapsed(now: u64, start: u64) -> u64 {
    if now >= start {
        (now - start) as u64
    } else {
        0
    }
}

/// The count of bucket `b`, 0 where the histogram has no entry for it.
pub open spec fn count_of(hist: Map<u64, u64>, b: u64) -> u64 {
    if hist.contains_key(b) {
        hist[b]
    } else {
        0
    }
}

/// A bounded table takes key `k`: it holds `k` already, or has room.
pub open spec fn takes(m: Map<u64, u64>, max: nat, k: u64) -> bool {
    m.contains_key(k) || m.len() < max
}

/// The scratchpad after the entry probe sees packet `id` at time `now`:
/// the start time is recorded where the table takes it.
pub open spec fn entry_step(starts: Map<u64, u64>, id: u64, now: u64) -> Map<u64, u64> {
    if takes(starts, SCRATCHPAD_MAX_ENTRIES as nat, id) {
        starts.insert(id, now)
    } else {
        starts
    }
}

/// Scratchpad and histogram after the exit probe sees packet `id` at time
/// `now`: for a recorded packet, its latency bucket gains one (saturating)
/// and the start time is removed; where the histogram is full the
/// measurement is dropped and nothing changes; for an unknown packet
/// nothing changes.
pub open spec fn exit_step(starts: Map<u64, u64>, hist: Map<u64, u64>, id: u64, now: u64) -> (
    Map<u64, u64>,
    Map<u64, u64>,
) {
    if !starts.contains_key(id) {
        (starts, hist)
    } else {
        let b = bit_length(elapsed(now, starts[id]) as nat) as u64;
        if takes(hist, HISTOGRAM_MAX_ENTRIES as nat, b) {
            (starts.remove(id), hist.insert(b, count_of(hist, b).saturating_add(1)))
        } else {
            (starts, hist)
        }
    }
}

/// The buckets 0 to n-1 with a positive count, in order, with their counts.
pub open spec fn report_upto(hist: Map<u64, u64>, n: nat) -> Seq<(u64, u64)>
    decreases n,
{
    if n == 0 {
        Seq::empty()
    } else {
        let prev = report_upto(hist, (n - 1) as nat);
        let k = (n - 1) as u64;
        if count_of(hist, k) > 0 {
            prev.push((k, count_of(hist, k)))
        } else {
            prev
        }
    }
}

/// The positive entries among the first `n` of `counts` (the count of
/// bucket i at index i), in order, with their bucket.
pub open spec fn positive_counts(counts: Seq<u64>, n: nat) -> Seq<(u64, u64)>
    decreases n,
{
    if n == 0 {
        Seq::empty()
    } else {
        let prev = positive_counts(counts, (n - 1) as nat);
        let k = (n - 1) as int;
        if counts[k] > 0 {
            prev.push((k as u64, counts[k]))
        } else {
            prev
        }
    }
}

/// The buckets with a positive count, in order, with their counts, from
/// counts listed by bucket.
pub fn nonzero_buckets(counts: &Vec<u64>) -> (r: Vec<(u64, u64)>)
    ensures
        r@ == positive_counts(counts@, counts@.len()),
{
    let mut out: Vec<(u64, u64)> = Vec::new();
    let mut i: usize = 0;
    while i < counts.len()
        invariant
            i <= counts@.len(),
            out@ == positive_counts(counts@, i as nat),
        decreases counts@.len() - i,
    {
        if counts[i] > 0 {
            out.push((i as u64, counts[i]));
        }
        i = i + 1;
    }
    out
}

/// Puts `k -> v` into a table of at most `max` entries; refused where the
/// table is full and `k` is new.
fn bounded_insert(m: &mut HashMap<u64, u64>, max: usize, k: u64, v: u64) -> (r: Result<(), ()>)
    requires
        old(m)@.dom().finite(),
        old(m)@.len() <= max,
    ensures
        final(m)@.dom().finite(),
        final(m)@.len() <= max,
        takes(old(m)@, max as nat, k) ==> r is Ok && final(m)@ == old(m)@.insert(k, v),
        !takes(old(m)@, max as nat, k) ==> r is Err && final(m)@ == old(m)@,
{
    if m.contains_key(&k) || m.len() < max {
        m.insert(k, v);
        Ok(())
    } else {
        Err(())
    }
}

/// The tables the probes share: start times keyed by packet identity, and
/// packet counts keyed by latency bucket.
pub struct ProbeTables {
    start_times: HashMap<u64, u64>,
    latency_stats: HashMap<u64, u64>,
}

impl ProbeTables {
    /// The scratchpad: packet identity to entry time.
    pub closed spec fn starts(&self) -> Map<u64, u64> {
        self.start_times@
    }

    /// The histogram: bucket to packet count.
    pub closed spec fn hist(&self) -> Map<u64, u64> {
        self.latency_stats@
    }

    pub open spec fn wf(&self) -> bool {
        &&& self.starts().dom().finite()
        &&& self.hist().dom().finite()
        &&& self.starts().len() <= SCRATCHPAD_MAX_ENTRIES
        &&& self.hist().len() <= HISTOGRAM_MAX_ENTRIES
    }

    /// Empty tables.
    pub fn new() -> (r: ProbeTables)
        ensures
            r.wf(),
            r.starts() == Map::<u64, u64>::empty(),
            r.hist() == Map::<u64, u64>::empty(),
    {
        ProbeTables { start_times: HashMap::new(), latency_stats: HashMap::new() }
    }

    /// The recorded entry time of packet `id`.
    pub fn start_time(&self, id: u64) -> (r: Option<u64>)
        ensures
            r == (if self.starts().contains_key(id) {
                Some(self.starts()[id])
            } else {
                None
            }),
    {
        match self.start_times.get(&id) {
            Some(t) => Some(*t),
            None => None,
        }
    }

    /// The count of bucket `b`, 0 where it has none.
    pub fn bucket_count(&self, b: u64) -> (r: u64)
        ensures
            r == count_of(self.hist(), b),
    {
        match self.latency_stats.get(&b) {
            Some(c) => *c,
            None => 0,
        }
    }

    /// Number of packets waiting in the scratchpad.
    pub fn scratchpad_len(&self) -> (r: usize)
        requires
            self.wf(),
        ensures
            r == self.starts().len(),
    {
        self.start_times.len()
    }

    /// Number of buckets the histogram holds an entry for.
    pub fn histogram_len(&self) -> (r: usize)
        requires
            self.wf(),
        ensures
            r == self.hist().len(),
    {
        self.latency_stats.len()
    }

    /// The buckets 0 to 63 with a positive count, in order, with their counts.
    pub fn histogram_report(&self) -> (r: Vec<(u64, u64)>)
        ensures
            r@ == report_upto(self.hist(), REPORT_BUCKETS as nat),
    {
        let mut out: Vec<(u64, u64)> = Vec::new();
        let mut i: u64 = 0;
        while i < REPORT_BUCKETS
            invariant
                i <= REPORT_BUCKETS,
                out@ == report_upto(self.hist(), i as nat),
            decreases REPORT_BUCKETS - i,
        {
            let count = self.bucket_count(i);
            if count > 0 {
                out.push((i, count));
            }
            i = i + 1;
        }
        out
    }
}

/// Entry probe: records time `now` for the packet `skb`; `Err` where the
/// argument is missing or the scratchpad is full.
pub fn try_netif_receive_skb(tables: &mut ProbeTables, skb: Option<u64>, now: u64) -> (r: Result<(), ()>)
    requires
        old(tables).wf(),
    ensures
        final(tables).wf(),
        final(tables).hist() == old(tables).hist(),
        match skb {
            None => r is Err && final(tables).starts() == old(tables).starts(),
            Some(id) => {
                &&& final(tables).starts() == entry_step(old(tables).starts(), id, now)
                &&& r is Ok <==> takes(old(tables).starts(), SCRATCHPAD_MAX_ENTRIES as nat, id)
            },
        },
{
    let skb_ptr = match skb {
        Some(p) => p,
        None => return Err(()),
    };
    bounded_insert(&mut tables.start_times, SCRATCHPAD_MAX_ENTRIES, skb_ptr, now)
}

/// Entry probe hook: a full table drops the measurement silently.
pub fn netif_receive_skb(tables: &mut ProbeTables, skb: Option<u64>, now: u64) -> (r: u32)
    requires
        old(tables).wf(),
    ensures
        r == 0,
        final(tables).wf(),
        final(tables).hist() == old(tables).hist(),
        match skb {
            None => final(tables).starts() == old(tables).starts(),
            Some(id) => final(tables).starts() == entry_step(old(tables).starts(), id, now),
        },
{
    let _ = try_netif_receive_skb(tables, skb, now);
    0
}

/// Exit probe: for a packet recorded at entry, adds one to its latency
/// bucket and forgets its start time; `Err` where the argument is missing or
/// the histogram is full.
pub fn try_napi_consume_skb(tables: &mut ProbeTables, skb: Option<u64>, now: u64) -> (r: Result<(), ()>)
    requires
        old(tables).wf(),
    ensures
        final(tables).wf(),
        match skb {
            None => r is Err && final(tables).starts() == old(tables).starts() && final(tables).hist()
                == old(tables).hist(),
            Some(id) => {
                &&& (final(tables).starts(), final(tables).hist()) == exit_step(
                    old(tables).starts(),
                    old(tables).hist(),
                    id,
                    now,
                )
                &&& r is Err <==> (old(tables).starts().contains_key(id) && !takes(
                    old(tables).hist(),
                    HISTOGRAM_MAX_ENTRIES as nat,
                    bit_length(elapsed(now, old(tables).starts()[id]) as nat) as u64,
                ))
            },
        },
{
    let skb_ptr = match skb {
        Some(p) => p,
        None => return Err(()),
    };
    let start = match tables.start_times.get(&skb_ptr) {
        Some(t) => *t,
        None => return Ok(()),
    };
    let latency = now.saturating_sub(start);
    let bucket = latency_bucket(latency);
    let count = tables.bucket_count(bucket);
    bounded_insert(&mut tables.latency_stats, HISTOGRAM_MAX_ENTRIES, bucket, count.saturating_add(1))?;
    tables.start_times.remove(&skb_ptr);
    Ok(())
}

/// Exit probe hook: a full histogram drops the measurement silently.
pub fn napi_consume_skb(tables: &mut ProbeTables, skb: Option<u64>, now: u64) -> (r: u32)
    requires
        old(tables).wf(),
    ensures
        r == 0,
        final(tables).wf(),
        match skb {
            None => final(tables).starts() == old(tables).starts() && final(tables).hist()
                == old(tables).hist(),
            Some(id) => (final(tables).starts(), final(tables).hist()) == exit_step(
                old(tables).starts(),
                old(tables).hist(),
                id,
                now,
            ),
        },
{
    let _ = try_napi_consume_skb(tables, skb, now);
    0
}

/// An exit probe for a packet the scratchpad does not hold changes nothing.
pub proof fn lemma_exit_unknown_is_noop(starts: Map<u64, u64>, hist: Map<u64, u64>, id: u64, now: u64)
    requires
        !starts.contains_key(id),
    ensures
        exit_step(starts, hist, id, now) == (starts, hist),
{
}

/// An entry probe and then an exit probe for the same new packet add exactly
/// one to the bucket of its latency and leave the scratchpad as it was,
/// where both tables take the packet and the count is not at its maximum.
pub proof fn lemma_probe_pair(starts: Map<u64, u64>, hist: Map<u64, u64>, id: u64, t0: u64, t1: u64)
    requires
        starts.dom().finite(),
        !starts.contains_key(id),
        starts.len() < SCRATCHPAD_MAX_ENTRIES,
        takes(hist, HISTOGRAM_MAX_ENTRIES as nat, bit_length(elapsed(t1, t0) as nat) as u64),
        count_of(hist, bit_length(elapsed(t1, t0) as nat) as u64) < u64::MAX,
    ensures
        ({
            let b = bit_length(elapsed(t1, t0) as nat) as u64;
            exit_step(entry_step(starts, id, t0), hist, id, t1) == (starts, hist.insert(
                b,
                (count_of(hist, b) + 1) as u64,
            ))
        }),
{
    let s1 = entry_step(starts, id, t0);
    assert(s1 == starts.insert(id, t0));
    assert(s1.remove(id) =~= starts);
}

} // verus!
