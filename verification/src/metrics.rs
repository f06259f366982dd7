//! Hardware metric records, the choice of monitored GPUs, and the per-engine
//! counter bookkeeping that turns cumulative engine counters into per-poll
//! deltas for the history store.
use vstd::prelude::*;

verus! {

/// Memory metrics. `is_unified` flags unified-memory systems (e.g. DGX Spark GB10,
/// GH200) where CPU and GPU share one pool; on discrete-GPU systems GPU VRAM is
/// reported separately via `gpu_memory_total_bytes` / `gpu_memory_used_bytes`.
///
/// `display_total_bytes` is the value the UI should show as the headline pool
/// size: on unified systems the kernel reserves a few GiB for firmware/GPU
/// carve-outs, so `total_bytes` (from `/proc/meminfo`) under-reports the
/// marketed capacity. NVML reports the full hardware-addressable unified pool,
/// so it is preferred when available. Used/available stay sourced from the kernel
/// view to keep utilisation percentages honest.
pub struct MemoryMetrics {
    pub total_bytes: u64,
    pub display_total_bytes: u64,
    pub used_bytes: u64,
    pub available_bytes: u64,
    pub cached_bytes: u64,
    pub gpu_estimated_bytes: Option<u64>,
    pub gpu_memory_total_bytes: Option<u64>,
    pub gpu_memory_used_bytes: Option<u64>,
    pub is_unified: bool,
}

/// Disk I/O throughput rates.
pub struct DiskMetrics {
    pub name: Option<String>,
    pub read_bytes_per_sec: u64,
    pub write_bytes_per_sec: u64,
}

/// Network I/O throughput rates.
pub struct NetworkMetrics {
    pub name: Option<String>,
    pub rx_bytes_per_sec: u64,
    pub tx_bytes_per_sec: u64,
}

/// The GPU indexes to monitor when `count` GPUs are present: the one asked
/// for, none when it is out of range, and all of them when none is asked for.
pub open spec fn monitored_gpus(gpu_index: Option<u32>, count: u32) -> Seq<u32> {
    match gpu_index {
        Some(i) => if i >= count { Seq::empty() } else { seq![i] },
        None => Seq::new(count as nat, |j: int| j as u32),
    }
}

/// Any GPU that NVML reports can be selected: an index below the count
/// selects exactly that GPU, an index at or past the count selects none, and
/// no filter selects every GPU `0..count` in order.
pub proof fn lemma_gpu_selection(i: u32, count: u32)
    ensures
        i < count ==> monitored_gpus(Some(i), count) == seq![i],
        i >= count ==> monitored_gpus(Some(i), count).len() == 0,
        monitored_gpus(None, count).len() == count,
        forall|j: int| 0 <= j < count ==> #[trigger] monitored_gpus(None, count)[j] == j,
{
}

/// Chooses the GPU indexes to monitor from the `--gpu-index` filter and the
/// number of GPUs that NVML reports.
pub fn monitored_gpu_indexes(gpu_index: Option<u32>, count: u32) -> (r: Vec<u32>)
    ensures
        r@ == monitored_gpus(gpu_index, count),
{
    match gpu_index {
        Some(index) => {
            if index >= count {
                Vec::new()
            } else {
                let mut r = Vec::new();
                r.push(index);
                r
            }
        },
        None => {
            let mut r: Vec<u32> = Vec::new();
            let mut j: u32 = 0;
            while j < count
                invariant
                    j <= count,
                    r@ == Seq::new(j as nat, |k: int| k as u32),
                decreases count - j,
            {
                r.push(j);
                j = j + 1;
            }
            r
        },
    }
}

/// The growth of a cumulative counter between two readings: defined when both
/// readings exist and the counter did not go backwards (a reset).
pub open spec fn counter_delta_spec(prev: Option<i64>, cur: Option<i64>) -> Option<int> {
    match (prev, cur) {
        (Some(p), Some(c)) => if c >= p { Some(c - p) } else { None },
        _ => None,
    }
}

/// Whether the growth between two readings does not fit in an `i64`.
pub open spec fn delta_overflows(prev: Option<i64>, cur: Option<i64>) -> bool {
    match counter_delta_spec(prev, cur) {
        Some(d) => d > i64::MAX,
        None => false,
    }
}

/// Whether the growth between two readings does not fit in an `i64`.
pub fn delta_would_overflow(prev: Option<i64>, cur: Option<i64>) -> (r: bool)
    ensures
        r == delta_overflows(prev, cur),
{
    match (prev, cur) {
        (Some(p), Some(c)) => c >= p && p < 0 && c > i64::MAX + p,
        _ => false,
    }
}

/// The growth of a cumulative counter between two readings.
pub fn counter_delta(prev: Option<i64>, cur: Option<i64>) -> (r: Option<i64>)
    requires
        !delta_overflows(prev, cur),
    ensures
        match counter_delta_spec(prev, cur) {
            Some(d) => r == Some(d as i64),
            None => r is None,
        },
{
    match (prev, cur) {
        (Some(p), Some(c)) => if c >= p { Some(c - p) } else { None },
        _ => None,
    }
}

/// The map that the parallel sequences `keys` and `vals` hold.
pub open spec fn pairs_to_map(keys: Seq<Seq<char>>, vals: Seq<i64>) -> Map<Seq<char>, i64>
    decreases keys.len(),
{
    if keys.len() == 0 || vals.len() == 0 {
        Map::empty()
    } else {
        pairs_to_map(keys.drop_last(), vals.drop_last()).insert(keys.last(), vals.last())
    }
}

proof fn lemma_pairs_to_map(keys: Seq<Seq<char>>, vals: Seq<i64>)
    requires
        keys.len() == vals.len(),
        keys.no_duplicates(),
    ensures
        forall|k: Seq<char>| #[trigger] pairs_to_map(keys, vals).contains_key(k) <==> keys.contains(k),
        forall|i: int| 0 <= i < keys.len() ==> #[trigger] pairs_to_map(keys, vals)[keys[i]] == vals[i],
    decreases keys.len(),
{
    if keys.len() > 0 {
        let ks = keys.drop_last();
        let vs = vals.drop_last();
        assert forall|a: int, b: int| 0 <= a < ks.len() && 0 <= b < ks.len() && a != b implies ks[a] != ks[b] by {
            assert(ks[a] == keys[a] && ks[b] == keys[b]);
        }
        lemma_pairs_to_map(ks, vs);
        let m = pairs_to_map(keys, vals);
        assert(m == pairs_to_map(ks, vs).insert(keys.last(), vals.last()));
        assert forall|k: Seq<char>| #[trigger] m.contains_key(k) <==> keys.contains(k) by {
            if keys.contains(k) && k != keys.last() {
                let i = choose|i: int| 0 <= i < keys.len() && keys[i] == k;
                assert(i != keys.len() - 1);
                assert(ks[i] == k);
                assert(ks.contains(k));
            }
            if ks.contains(k) {
                let i = choose|i: int| 0 <= i < ks.len() && ks[i] == k;
                assert(keys[i] == k);
            }
            if k == keys.last() {
                assert(keys[keys.len() - 1] == k);
            }
        }
        assert forall|i: int| 0 <= i < keys.len() implies #[trigger] m[keys[i]] == vals[i] by {
            if i < keys.len() - 1 {
                assert(ks[i] == keys[i]);
                assert(keys[i] != keys[keys.len() - 1]);
                assert(vs[i] == vals[i]);
            }
        }
    }
}

proof fn lemma_pairs_to_map_update(keys: Seq<Seq<char>>, vals: Seq<i64>, i: int, v: i64)
    requires
        keys.len() == vals.len(),
        keys.no_duplicates(),
        0 <= i < keys.len(),
    ensures
        pairs_to_map(keys, vals.update(i, v)) == pairs_to_map(keys, vals).insert(keys[i], v),
{
    let nv = vals.update(i, v);
    lemma_pairs_to_map(keys, vals);
    lemma_pairs_to_map(keys, nv);
    let m1 = pairs_to_map(keys, nv);
    let m2 = pairs_to_map(keys, vals).insert(keys[i], v);
    assert forall|k: Seq<char>| m1.contains_key(k) implies m1[k] == m2[k] by {
        let j = choose|j: int| 0 <= j < keys.len() && keys[j] == k;
        assert(m1[keys[j]] == nv[j]);
        assert(pairs_to_map(keys, vals)[keys[j]] == vals[j]);
    }
    assert(m1 =~= m2);
}

/// The last reading of a cumulative counter for each engine endpoint.
pub struct CounterTracker {
    keys: Vec<String>,
    vals: Vec<i64>,
}

impl CounterTracker {
    pub closed spec fn key_views(&self) -> Seq<Seq<char>> {
        self.keys@.map_values(|k: String| k@)
    }

    pub closed spec fn view(&self) -> Map<Seq<char>, i64> {
        pairs_to_map(self.key_views(), self.vals@)
    }

    /// The tracker's invariant: one reading per endpoint.
    pub closed spec fn wf(&self) -> bool {
        &&& self.keys@.len() == self.vals@.len()
        &&& self.key_views().no_duplicates()
    }

    /// A tracker that has seen no readings.
    pub fn new() -> (r: Self)
        ensures
            r.wf(),
            r@ == Map::<Seq<char>, i64>::empty(),
    {
        let r = CounterTracker { keys: Vec::new(), vals: Vec::new() };
        assert(r.key_views() =~= Seq::<Seq<char>>::empty());
        r
    }

    fn index_of(&self, key: &String) -> (r: Option<usize>)
        requires
            self.wf(),
        ensures
            match r {
                Some(i) => i < self.keys@.len() && self.key_views()[i as int] == key@,
                None => !self.key_views().contains(key@),
            },
    {
        let mut i: usize = 0;
        while i < self.keys.len()
            invariant
                self.wf(),
                i <= self.keys@.len(),
                forall|j: int| 0 <= j < i ==> #[trigger] self.key_views()[j] != key@,
            decreases self.keys.len() - i,
        {
            assert(self.key_views()[i as int] == self.keys@[i as int]@);
            if self.keys[i] == *key {
                return Some(i);
            }
            i = i + 1;
        }
        None
    }

    /// The last reading recorded for `key`.
    pub fn get(&self, key: &String) -> (r: Option<i64>)
        requires
            self.wf(),
        ensures
            r == (if self@.contains_key(key@) { Some(self@[key@]) } else { None }),
    {
        proof {
            lemma_pairs_to_map(self.key_views(), self.vals@);
        }
        match self.index_of(key) {
            Some(i) => Some(self.vals[i]),
            None => None,
        }
    }

    /// Records `v` as the last reading for `key`.
    pub fn set(&mut self, key: &String, v: i64)
        requires
            old(self).wf(),
        ensures
            final(self).wf(),
            final(self)@ == old(self)@.insert(key@, v),
    {
        match self.index_of(key) {
            Some(i) => {
                proof {
                    lemma_pairs_to_map_update(self.key_views(), self.vals@, i as int, v);
                }
                self.vals.set(i, v);
            },
            None => {
                let ghost ks = self.key_views();
                let ghost vs = self.vals@;
                self.keys.push(key.clone());
                self.vals.push(v);
                proof {
                    assert(self.key_views() =~= ks.push(key@));
                    assert(self.key_views().drop_last() =~= ks);
                    assert(self.vals@.drop_last() =~= vs);
                    assert forall|a: int, b: int| 0 <= a < b < self.key_views().len() implies self.key_views()[a] != self.key_views()[b] by {
                        if b == ks.len() {
                            assert(ks.contains(ks[a]));
                        }
                    }
                }
            },
        }
    }

    /// Takes a new reading `cur` for `key`: returns its growth since the last
    /// reading, and remembers `cur` when there is one.
    pub fn observe(&mut self, key: &String, cur: Option<i64>) -> (delta: Option<i64>)
        requires
            old(self).wf(),
            !delta_overflows(old(self)@.get(key@), cur),
        ensures
            final(self).wf(),
            match counter_delta_spec(old(self)@.get(key@), cur) {
                Some(d) => delta == Some(d as i64),
                None => delta is None,
            },
            final(self)@ == (match cur {
                Some(v) => old(self)@.insert(key@, v),
                None => old(self)@,
            }),
    {
        let prev = self.get(key);
        let delta = counter_delta(prev, cur);
        if let Some(v) = cur {
            self.set(key, v);
        }
        delta
    }
}

/// The three cumulative counters of every engine endpoint that the history
/// store records as deltas: prompt tokens, generated tokens and requests.
pub struct EngineCounters {
    pub prompt: CounterTracker,
    pub generated: CounterTracker,
    pub requests: CounterTracker,
}

impl EngineCounters {
    pub open spec fn wf(&self) -> bool {
        self.prompt.wf() && self.generated.wf() && self.requests.wf()
    }

    /// Whether observing `cur` for `key` would overflow one of the deltas.
    pub open spec fn would_overflow(&self, key: Seq<char>, cur: (Option<i64>, Option<i64>, Option<i64>)) -> bool {
        ||| delta_overflows(self.prompt@.get(key), cur.0)
        ||| delta_overflows(self.generated@.get(key), cur.1)
        ||| delta_overflows(self.requests@.get(key), cur.2)
    }

    pub fn new() -> (r: Self)
        ensures
            r.wf(),
            r.prompt@ == Map::<Seq<char>, i64>::empty(),
            r.generated@ == Map::<Seq<char>, i64>::empty(),
            r.requests@ == Map::<Seq<char>, i64>::empty(),
    {
        EngineCounters {
            prompt: CounterTracker::new(),
            generated: CounterTracker::new(),
            requests: CounterTracker::new(),
        }
    }

    /// Whether observing `cur` for `key` would overflow one of the deltas.
    pub fn check_overflow(&self, key: &String, cur: (Option<i64>, Option<i64>, Option<i64>)) -> (r: bool)
        requires
            self.wf(),
        ensures
            r == self.would_overflow(key@, cur),
    {
        let p = self.prompt.get(key);
        let g = self.generated.get(key);
        let q = self.requests.get(key);
        delta_would_overflow(p, cur.0) || delta_would_overflow(g, cur.1) || delta_would_overflow(q, cur.2)
    }

    /// Takes the readings `cur` (prompt tokens, generated tokens, requests) of
    /// engine `key` and returns the three deltas since its last readings.
    pub fn observe(&mut self, key: &String, cur: (Option<i64>, Option<i64>, Option<i64>)) -> (r: (Option<i64>, Option<i64>, Option<i64>))
        requires
            old(self).wf(),
            !old(self).would_overflow(key@, cur),
        ensures
            final(self).wf(),
            match counter_delta_spec(old(self).prompt@.get(key@), cur.0) {
                Some(d) => r.0 == Some(d as i64),
                None => r.0 is None,
            },
            match counter_delta_spec(old(self).generated@.get(key@), cur.1) {
                Some(d) => r.1 == Some(d as i64),
                None => r.1 is None,
            },
            match counter_delta_spec(old(self).requests@.get(key@), cur.2) {
                Some(d) => r.2 == Some(d as i64),
                None => r.2 is None,
            },
            final(self).prompt@ == (match cur.0 { Some(v) => old(self).prompt@.insert(key@, v), None => old(self).prompt@ }),
            final(self).generated@ == (match cur.1 { Some(v) => old(self).generated@.insert(key@, v), None => old(self).generated@ }),
            final(self).requests@ == (match cur.2 { Some(v) => old(self).requests@.insert(key@, v), None => old(self).requests@ }),
    {
        let a = self.prompt.observe(key, cur.0);
        let b = self.generated.observe(key, cur.1);
        let c = self.requests.observe(key, cur.2);
        (a, b, c)
    }
}

/// Successive readings add up: when a counter grows from `a` to `b` and then
/// to `c`, the two deltas sum to the delta from `a` to `c`.
pub proof fn lemma_deltas_add_up(a: i64, b: i64, c: i64)
    requires
        a <= b <= c,
    ensures
        counter_delta_spec(Some(a), Some(b)) matches Some(d1) && counter_delta_spec(Some(b), Some(c)) matches Some(d2)
            && counter_delta_spec(Some(a), Some(c)) == Some(d1 + d2),
{
}

/// A counter that went backwards (a restarted engine) yields no delta, and
/// a missing reading on either side yields none either.
pub proof fn lemma_reset_yields_no_delta(p: i64, c: i64)
    ensures
        c < p ==> counter_delta_spec(Some(p), Some(c)) is None,
        counter_delta_spec(None, Some(c)) is None,
        counter_delta_spec(Some(p), None) is None,
{
}

} // verus!
