//! Remote nodes: parsing the node list and the bookkeeping of the node-polling
//! loop (which node is online, its last readings, when stale readings go).
use vstd::prelude::*;
use crate::text::{
    chars_of, is_white_space, lemma_split_on_pieces_lack_sep, lemma_split_on_step,
    lemma_split_on_nonempty, lemma_trim_is_clean_part, split_on, string_of_range, string_views,
    trim, trim_bounds, trim_end, trim_start,
};

verus! {

/// The pieces of `pieces`, trimmed, with the empty ones left out (in order).
pub open spec fn trimmed_nonempty(pieces: Seq<Seq<char>>) -> Seq<Seq<char>>
    decreases pieces.len(),
{
    if pieces.len() == 0 {
        Seq::empty()
    } else {
        let rest = trimmed_nonempty(pieces.drop_last());
        let t = trim(pieces.last());
        if t.len() > 0 {
            rest.push(t)
        } else {
            rest
        }
    }
}

/// The node URLs that a comma-separated list names: each piece between commas,
/// trimmed, the empty ones dropped.
pub open spec fn node_url_list(s: Seq<char>) -> Seq<Seq<char>> {
    trimmed_nonempty(split_on(s, ','))
}

/// A URL as the node list yields it: non-empty, without surrounding white
/// space, and without a comma.
pub open spec fn is_clean_url(u: Seq<char>) -> bool {
    &&& u.len() > 0
    &&& !is_white_space(u[0])
    &&& !is_white_space(u.last())
    &&& forall|i: int| 0 <= i < u.len() ==> #[trigger] u[i] != ','
}

proof fn lemma_trimmed_nonempty_clean(pieces: Seq<Seq<char>>)
    requires
        forall|k: int, i: int| 0 <= k < pieces.len() && 0 <= i < pieces[k].len() ==> #[trigger] pieces[k][i] != ',',
    ensures
        forall|j: int| 0 <= j < trimmed_nonempty(pieces).len() ==> is_clean_url(#[trigger] trimmed_nonempty(pieces)[j]),
    decreases pieces.len(),
{
    if pieces.len() > 0 {
        let rest = pieces.drop_last();
        assert forall|k: int, i: int| 0 <= k < rest.len() && 0 <= i < rest[k].len() implies #[trigger] rest[k][i] != ',' by {
            assert(rest[k] == pieces[k]);
        }
        lemma_trimmed_nonempty_clean(rest);
        let p = pieces.last();
        let t = trim(p);
        lemma_trim_is_clean_part(p);
        if t.len() > 0 {
            let (a, b) = choose|a: int, b: int| 0 <= a <= b <= p.len() && #[trigger] p.subrange(a, b) == t;
            assert forall|i: int| 0 <= i < t.len() implies #[trigger] t[i] != ',' by {
                assert(t[i] == p[a + i]);
                assert(pieces[pieces.len() - 1][a + i] != ',');
            }
            assert(is_clean_url(t));
        }
        let prev = trimmed_nonempty(rest);
        let res = trimmed_nonempty(pieces);
        assert forall|j: int| 0 <= j < res.len() implies is_clean_url(#[trigger] res[j]) by {
            if j < prev.len() {
                assert(res[j] == prev[j]);
            } else {
                assert(res[j] == t);
            }
        }
    }
}

/// Every URL of the node list is non-empty, has no surrounding white space
/// and holds no comma.
pub proof fn lemma_node_urls_are_clean(s: Seq<char>)
    ensures
        forall|j: int| 0 <= j < node_url_list(s).len() ==> is_clean_url(#[trigger] node_url_list(s)[j]),
{
    lemma_split_on_pieces_lack_sep(s, ',');
    lemma_trimmed_nonempty_clean(split_on(s, ','));
}

/// The URLs of `us` joined with commas (`us.join(",")`).
pub open spec fn join_with_commas(us: Seq<Seq<char>>) -> Seq<char>
    decreases us.len(),
{
    if us.len() == 0 {
        Seq::empty()
    } else if us.len() == 1 {
        us[0]
    } else {
        join_with_commas(us.drop_last()).push(',') + us.last()
    }
}

proof fn lemma_clean_url_is_trimmed(u: Seq<char>)
    requires
        is_clean_url(u),
    ensures
        trim(u) == u,
{
    assert(trim_start(u) == u);
    assert(trim_end(u) == u);
}

proof fn lemma_trimmed_nonempty_of_clean(us: Seq<Seq<char>>)
    requires
        forall|j: int| 0 <= j < us.len() ==> is_clean_url(#[trigger] us[j]),
    ensures
        trimmed_nonempty(us) == us,
    decreases us.len(),
{
    if us.len() > 0 {
        let rest = us.drop_last();
        assert forall|j: int| 0 <= j < rest.len() implies is_clean_url(#[trigger] rest[j]) by {
            assert(rest[j] == us[j]);
        }
        lemma_trimmed_nonempty_of_clean(rest);
        assert(is_clean_url(us[us.len() - 1]));
        lemma_clean_url_is_trimmed(us.last());
        assert(rest.push(us.last()) == us);
    }
}

/// Appending characters without the separator extends the last piece.
proof fn lemma_split_on_append(s: Seq<char>, b: Seq<char>, sep: char)
    requires
        forall|i: int| 0 <= i < b.len() ==> #[trigger] b[i] != sep,
    ensures
        split_on(s + b, sep) == split_on(s, sep).update(
            split_on(s, sep).len() - 1,
            split_on(s, sep).last() + b,
        ),
    decreases b.len(),
{
    lemma_split_on_nonempty(s, sep);
    let p = split_on(s, sep);
    if b.len() == 0 {
        assert(s + b == s);
        assert(p.last() + b == p.last());
        assert(p.update(p.len() - 1, p.last()) == p);
    } else {
        let b0 = b.drop_last();
        assert forall|i: int| 0 <= i < b0.len() implies #[trigger] b0[i] != sep by {
            assert(b0[i] == b[i]);
        }
        lemma_split_on_append(s, b0, sep);
        assert((s + b).drop_last() == s + b0);
        assert((s + b).last() == b.last());
        assert(b[b.len() - 1] != sep);
        let q = split_on(s + b0, sep);
        assert(q.last() == p.last() + b0);
        assert(p.last() + b0 + seq![b.last()] == p.last() + b);
        assert(q.last().push(b.last()) == p.last() + b);
        assert(split_on(s + b, sep) == q.update(q.len() - 1, q.last().push(b.last())));
        assert(split_on(s + b, sep) =~= p.update(p.len() - 1, p.last() + b));
    }
}

proof fn lemma_split_on_join(us: Seq<Seq<char>>)
    requires
        us.len() > 0,
        forall|j: int| 0 <= j < us.len() ==> is_clean_url(#[trigger] us[j]),
    ensures
        split_on(join_with_commas(us), ',') == us,
    decreases us.len(),
{
    let last = us.last();
    assert(is_clean_url(us[us.len() - 1]));
    if us.len() == 1 {
        lemma_split_on_append(Seq::<char>::empty(), last, ',');
        assert(Seq::<char>::empty() + last == last);
        assert(Seq::<char>::empty() + last == us[0]);
        assert(split_on(Seq::<char>::empty(), ',') == seq![Seq::<char>::empty()]);
        assert(seq![Seq::<char>::empty()].update(0, last) =~= us);
    } else {
        let rest = us.drop_last();
        assert forall|j: int| 0 <= j < rest.len() implies is_clean_url(#[trigger] rest[j]) by {
            assert(rest[j] == us[j]);
        }
        lemma_split_on_join(rest);
        let jr = join_with_commas(rest);
        let js = jr.push(',');
        assert(js.drop_last() == jr);
        assert(split_on(js, ',') == split_on(jr, ',').push(Seq::<char>::empty()));
        lemma_split_on_append(js, last, ',');
        assert(Seq::<char>::empty() + last == last);
        assert(split_on(js, ',').update(split_on(js, ',').len() - 1, split_on(js, ',').last() + last) =~= us);
    }
}

/// Joining clean URLs with commas and parsing the result gives them back.
pub proof fn lemma_join_then_parse(us: Seq<Seq<char>>)
    requires
        forall|j: int| 0 <= j < us.len() ==> is_clean_url(#[trigger] us[j]),
    ensures
        node_url_list(join_with_commas(us)) == us,
{
    if us.len() == 0 {
        assert(split_on(Seq::<char>::empty(), ',') == seq![Seq::<char>::empty()]);
        let ps = seq![Seq::<char>::empty()];
        assert(ps.drop_last() =~= Seq::<Seq<char>>::empty());
        assert(join_with_commas(us) == Seq::<char>::empty());
        assert(trim_start(Seq::<char>::empty()) == Seq::<char>::empty());
        assert(trim_end(Seq::<char>::empty()) == Seq::<char>::empty());
        assert(trim(ps.last()) =~= Seq::<char>::empty());
        assert(trimmed_nonempty(ps.drop_last()) == Seq::<Seq<char>>::empty());
        assert(trimmed_nonempty(ps) =~= Seq::<Seq<char>>::empty());
        assert(node_url_list(join_with_commas(us)) =~= us);
    } else {
        lemma_split_on_join(us);
        lemma_trimmed_nonempty_of_clean(us);
    }
}

proof fn lemma_trimmed_nonempty_push(p: Seq<Seq<char>>, x: Seq<char>)
    ensures
        trimmed_nonempty(p.push(x)) == (if trim(x).len() > 0 {
            trimmed_nonempty(p).push(trim(x))
        } else {
            trimmed_nonempty(p)
        }),
{
    assert(p.push(x).drop_last() == p);
}

proof fn lemma_string_views_push(v: Seq<String>, u: String)
    ensures
        string_views(v.push(u)) == string_views(v).push(u@),
{
    assert(string_views(v.push(u)) =~= string_views(v).push(u@));
}

/// Trims the piece `cs[from..to]` and appends it to `out` when it is not empty.
fn push_trimmed(out: &mut Vec<String>, cs: &Vec<char>, from: usize, to: usize)
    requires
        from <= to <= cs.len(),
    ensures
        string_views(final(out)@) == (if trim(cs@.subrange(from as int, to as int)).len() > 0 {
            string_views(old(out)@).push(trim(cs@.subrange(from as int, to as int)))
        } else {
            string_views(old(out)@)
        }),
{
    let (a, b) = trim_bounds(cs, from, to);
    if a < b {
        let piece = string_of_range(cs, a, b);
        proof {
            lemma_string_views_push(out@, piece);
        }
        out.push(piece);
    }
}

/// Parse a comma-separated list of node URLs (e.g.
/// `http://192.168.10.188:3001,http://192.168.10.189:3001`): every piece
/// between commas is trimmed of white space, and empty pieces are skipped.
pub fn parse_node_urls(s: &str) -> (urls: Vec<String>)
    ensures
        string_views(urls@) == node_url_list(s@),
{
    let cs = chars_of(s);
    let n = cs.len();
    let mut out: Vec<String> = Vec::new();
    let mut start: usize = 0;
    let mut i: usize = 0;
    proof {
        assert(cs@.take(0) == Seq::<char>::empty());
        assert(split_on(cs@.take(0), ',').drop_last() == Seq::<Seq<char>>::empty());
    }
    while i < n
        invariant
            n == cs.len(),
            cs@ == s@,
            start <= i <= n,
            split_on(cs@.take(i as int), ',').len() >= 1,
            split_on(cs@.take(i as int), ',').last() == cs@.subrange(start as int, i as int),
            string_views(out@) == trimmed_nonempty(split_on(cs@.take(i as int), ',').drop_last()),
        decreases n - i,
    {
        let ghost prev = split_on(cs@.take(i as int), ',');
        proof {
            lemma_split_on_step(cs@, i as int, ',');
        }
        if cs[i] == ',' {
            push_trimmed(&mut out, &cs, start, i);
            proof {
                let next = split_on(cs@.take(i + 1), ',');
                assert(next == prev.push(Seq::<char>::empty()));
                assert(next.drop_last() == prev);
                assert(prev == prev.drop_last().push(prev.last()));
                lemma_trimmed_nonempty_push(prev.drop_last(), prev.last());
                assert(cs@.subrange(i + 1, i + 1) == Seq::<char>::empty());
            }
            start = i + 1;
        } else {
            proof {
                let next = split_on(cs@.take(i + 1), ',');
                assert(next.drop_last() == prev.drop_last());
                assert(cs@.subrange(start as int, i + 1) == cs@.subrange(
                    start as int,
                    i as int,
                ).push(cs@[i as int]));
            }
        }
        i = i + 1;
    }
    push_trimmed(&mut out, &cs, start, n);
    proof {
        let all = split_on(cs@.take(n as int), ',');
        assert(cs@.take(n as int) == s@);
        assert(all == all.drop_last().push(all.last()));
        lemma_trimmed_nonempty_push(all.drop_last(), all.last());
    }
    out
}

/// Consecutive failed polls after which a node's last readings are dropped
/// (about ten seconds at one poll per second).
pub const STALE_AFTER_POLLS: u32 = 10;

/// A remote node as the dashboard shows it: its last known readings stay in
/// `snapshot` for a few failed polls after it goes offline, while `online`
/// turns `false` at the first failure.
pub struct NodeSnapshot<S> {
    pub hostname: String,
    pub url: String,
    pub online: bool,
    pub last_seen_ms: u64,
    pub snapshot: Option<S>,
}

/// What a node agent answered to a poll.
pub struct NodeReport<S> {
    pub hostname: String,
    pub snapshot: S,
}

/// A node together with its count of consecutive failed polls.
pub struct NodeView<S> {
    pub hostname: Seq<char>,
    pub url: Seq<char>,
    pub online: bool,
    pub last_seen_ms: u64,
    pub snapshot: Option<S>,
    pub fail_count: int,
}

/// A slot seen as a node view, with its failure count.
pub open spec fn node_view<S>(n: NodeSnapshot<S>, fail_count: int) -> NodeView<S> {
    NodeView {
        hostname: n.hostname@,
        url: n.url@,
        online: n.online,
        last_seen_ms: n.last_seen_ms,
        snapshot: n.snapshot,
        fail_count,
    }
}

/// A node's slot as it stands before its first poll.
pub open spec fn initial_node<S>(url: Seq<char>) -> NodeView<S> {
    NodeView { hostname: url, url, online: false, last_seen_ms: 0, snapshot: None, fail_count: 0 }
}

/// What one poll does to a node: an answer brings it online with the reported
/// host name and readings, stamps `now_ms` and resets its failure count; a
/// failure takes it offline, counts the failure, and drops its readings once
/// `STALE_AFTER_POLLS` failures have come in a row.
pub open spec fn poll_step<S>(n: NodeView<S>, outcome: Option<NodeReport<S>>, now_ms: u64) -> NodeView<S> {
    match outcome {
        Some(report) => NodeView {
            hostname: report.hostname@,
            online: true,
            last_seen_ms: now_ms,
            snapshot: Some(report.snapshot),
            fail_count: 0,
            ..n
        },
        None => NodeView {
            online: false,
            snapshot: if n.fail_count + 1 >= STALE_AFTER_POLLS { None } else { n.snapshot },
            fail_count: n.fail_count + 1,
            ..n
        },
    }
}

/// The node invariant: an online node has no failures counted and holds
/// readings, and a node with a full streak of failures holds no readings.
pub open spec fn node_ok<S>(n: NodeView<S>) -> bool {
    &&& n.fail_count >= 0
    &&& n.online ==> n.fail_count == 0
    &&& n.online ==> n.snapshot is Some
    &&& n.fail_count >= STALE_AFTER_POLLS ==> n.snapshot is None
}

/// The first slot, from index `from` on, whose URL is `url`.
pub open spec fn first_slot_from<S>(nodes: Seq<NodeView<S>>, url: Seq<char>, from: nat) -> Option<int>
    decreases nodes.len() - from,
{
    if from >= nodes.len() {
        None
    } else if nodes[from as int].url == url {
        Some(from as int)
    } else {
        first_slot_from(nodes, url, from + 1)
    }
}

/// The first slot whose URL is `url`; results are filed under it.
pub open spec fn first_slot<S>(nodes: Seq<NodeView<S>>, url: Seq<char>) -> Option<int> {
    first_slot_from(nodes, url, 0)
}

/// `first_slot_from` finds the first matching slot at or after `from`.
pub proof fn lemma_first_slot_from<S>(nodes: Seq<NodeView<S>>, url: Seq<char>, from: nat)
    ensures
        first_slot_from(nodes, url, from) matches Some(k) ==> from <= k < nodes.len() && nodes[k].url == url
            && forall|j: int| from <= j < k ==> #[trigger] nodes[j].url != url,
        first_slot_from(nodes, url, from) is None ==> forall|j: int| from <= j < nodes.len() ==> #[trigger] nodes[j].url != url,
    decreases nodes.len() - from,
{
    if from < nodes.len() && nodes[from as int].url != url {
        lemma_first_slot_from(nodes, url, from + 1);
    }
}

/// `k` failed polls in a row (the time of a failed poll does not matter:
/// see `lemma_poll_step_keeps_ok`).
pub open spec fn failures<S>(n: NodeView<S>, k: nat) -> NodeView<S>
    decreases k,
{
    if k == 0 {
        n
    } else {
        poll_step(failures(n, (k - 1) as nat), None, 0)
    }
}

/// The state of the node-polling loop: one slot per configured URL, with the
/// count of consecutive failed polls of each.
pub struct NodePoller<S> {
    nodes: Vec<NodeSnapshot<S>>,
    fail_counts: Vec<u32>,
}

impl<S> NodePoller<S> {
    pub closed spec fn view(&self) -> Seq<NodeView<S>> {
        Seq::new(self.nodes@.len(), |i: int| node_view(self.nodes@[i], self.fail_counts@[i] as int))
    }

    /// The poller's own invariant.
    pub closed spec fn wf(&self) -> bool {
        &&& self.nodes@.len() == self.fail_counts@.len()
        &&& forall|i: int| 0 <= i < self@.len() ==> node_ok(#[trigger] self@[i])
    }

    /// The invariant holds of every slot.
    pub proof fn lemma_wf_nodes_ok(&self)
        requires
            self.wf(),
        ensures
            forall|i: int| 0 <= i < self@.len() ==> node_ok(#[trigger] self@[i]),
    {
    }

    /// Slots for `urls`, in order, before any poll: each offline, named by its
    /// URL, never seen and without readings, so the full roster is visible at once.
    pub fn new(urls: Vec<String>) -> (r: Self)
        ensures
            r.wf(),
            r@.len() == urls@.len(),
            forall|i: int| 0 <= i < urls@.len() ==> #[trigger] r@[i] == initial_node::<S>(urls@[i]@),
    {
        let mut nodes: Vec<NodeSnapshot<S>> = Vec::new();
        let mut fail_counts: Vec<u32> = Vec::new();
        let mut i: usize = 0;
        while i < urls.len()
            invariant
                i <= urls.len(),
                nodes@.len() == i,
                fail_counts@.len() == i,
                forall|j: int| 0 <= j < i ==> #[trigger] node_view(nodes@[j], fail_counts@[j] as int) == initial_node::<S>(urls@[j]@),
            decreases urls.len() - i,
        {
            let url = urls[i].clone();
            nodes.push(NodeSnapshot {
                hostname: url.clone(),
                url,
                online: false,
                last_seen_ms: 0,
                snapshot: None,
            });
            fail_counts.push(0);
            i = i + 1;
        }
        let r = NodePoller { nodes, fail_counts };
        assert forall|j: int| 0 <= j < urls@.len() implies #[trigger] r@[j] == initial_node::<S>(urls@[j]@) by {
            assert(r@[j] == node_view(nodes@[j], fail_counts@[j] as int));
        }
        r
    }

    /// The slots as the dashboard shows them.
    pub fn nodes(&self) -> (r: &Vec<NodeSnapshot<S>>)
        requires
            self.wf(),
        ensures
            r@.len() == self@.len(),
            forall|i: int| 0 <= i < r@.len() ==> node_view(#[trigger] r@[i], self@[i].fail_count) == self@[i],
    {
        &self.nodes
    }

    /// The index of the first slot with URL `url`.
    fn find_slot(&self, url: &String) -> (r: Option<usize>)
        requires
            self.wf(),
        ensures
            match r {
                Some(k) => first_slot(self@, url@) == Some(k as int) && k < self@.len(),
                None => first_slot(self@, url@) is None,
            },
    {
        proof {
            lemma_first_slot_from(self@, url@, 0);
        }
        let mut i: usize = 0;
        while i < self.nodes.len()
            invariant
                self.wf(),
                i <= self.nodes@.len(),
                first_slot_from(self@, url@, i as nat) == first_slot(self@, url@),
            decreases self.nodes.len() - i,
        {
            assert(self@[i as int].url == self.nodes@[i as int].url@);
            if self.nodes[i].url == *url {
                return Some(i);
            }
            i = i + 1;
        }
        None
    }

    /// Whether filing `outcome` under `url` would overflow its failure count.
    pub open spec fn count_would_overflow(&self, url: Seq<char>, outcome: Option<NodeReport<S>>) -> bool {
        outcome is None && match first_slot(self@, url) {
            Some(k) => self@[k].fail_count >= u32::MAX,
            None => false,
        }
    }

    /// The failure count of the first slot with URL `url`, or 0 without one.
    pub fn fail_count_of(&self, url: &String) -> (r: u32)
        requires
            self.wf(),
        ensures
            r == (match first_slot(self@, url@) { Some(k) => self@[k].fail_count, None => 0 }),
    {
        match self.find_slot(url) {
            Some(k) => {
                assert(self@[k as int].fail_count == self.fail_counts@[k as int]);
                self.fail_counts[k]
            },
            None => 0,
        }
    }

    /// Files the outcome of polling `url` at `now_ms` under the first slot with
    /// that URL (a URL without a slot changes nothing): see `poll_step`.
    pub fn record_poll(&mut self, url: &String, outcome: Option<NodeReport<S>>, now_ms: u64)
        requires
            old(self).wf(),
            !old(self).count_would_overflow(url@, outcome),
        ensures
            final(self).wf(),
            final(self)@ == (match first_slot(old(self)@, url@) {
                Some(k) => old(self)@.update(k, poll_step(old(self)@[k], outcome, now_ms)),
                None => old(self)@,
            }),
            final(self)@.len() == old(self)@.len(),
            forall|i: int| 0 <= i < old(self)@.len() ==> #[trigger] final(self)@[i].url == old(self)@[i].url,
            forall|i: int| 0 <= i < final(self)@.len() && #[trigger] final(self)@[i].online ==> final(self)@[i].snapshot is Some,
    {
        let ghost before = self@;
        proof {
            lemma_poll_keeps_roster(before, url@, outcome, now_ms);
        }
        match self.find_slot(url) {
            None => {},
            Some(k) => {
                proof {
                    lemma_poll_step_keeps_ok(before[k as int], outcome, now_ms);
                }
                let count = self.fail_counts[k];
                assert(count as int == before[k as int].fail_count);
                assert(first_slot(before, url@) == Some(k as int));
                let mut node = self.nodes.remove(k);
                match outcome {
                    Some(report) => {
                        node.hostname = report.hostname;
                        node.snapshot = Some(report.snapshot);
                        node.online = true;
                        node.last_seen_ms = now_ms;
                        self.fail_counts.set(k, 0);
                    },
                    None => {
                        let c = count + 1;
                        node.online = false;
                        if c >= STALE_AFTER_POLLS {
                            node.snapshot = None;
                        }
                        self.fail_counts.set(k, c);
                    },
                }
                self.nodes.insert(k, node);
                proof {
                    assert(self@ =~= before.update(k as int, poll_step(before[k as int], outcome, now_ms))) by {
                        assert forall|j: int| 0 <= j < self@.len() implies #[trigger] self@[j] == before.update(k as int, poll_step(before[k as int], outcome, now_ms))[j] by {
                            if j != k {
                                assert(self.nodes@[j] == old(self).nodes@[j]);
                            }
                        }
                    }
                }
            },
        }
        proof {
            assert forall|i: int| 0 <= i < self@.len() implies node_ok(#[trigger] self@[i]) by {
                assert(node_ok(before[i]));
            }
            assert forall|i: int| 0 <= i < self@.len() && #[trigger] self@[i].online implies self@[i].snapshot is Some by {
                assert(node_ok(self@[i]));
            }
        }
    }
}

/// Polling keeps the node invariant.
pub proof fn lemma_poll_step_keeps_ok<S>(n: NodeView<S>, outcome: Option<NodeReport<S>>, now_ms: u64)
    requires
        node_ok(n),
    ensures
        node_ok(poll_step(n, outcome, now_ms)),
        poll_step(n, outcome, now_ms).url == n.url,
        outcome is None ==> poll_step(n, outcome, now_ms) == poll_step(n, None, 0),
{
}

/// Every online node of a poller holds readings, and the roster keeps its
/// length and URLs from `new` on (see `NodePoller::new`, `record_poll` and
/// `lemma_poll_keeps_roster`).
pub proof fn lemma_online_nodes_hold_readings<S>(p: &NodePoller<S>)
    requires
        p.wf(),
    ensures
        forall|i: int| 0 <= i < p@.len() && #[trigger] p@[i].online ==> p@[i].snapshot is Some,
{
    p.lemma_wf_nodes_ok();
}

/// A node that answered is online, shows the reported host name and
/// readings, was last seen at the poll's time and has no failures counted.
pub proof fn lemma_answer_brings_node_online<S>(n: NodeView<S>, report: NodeReport<S>, now_ms: u64)
    ensures
        ({
            let m = poll_step(n, Some(report), now_ms);
            &&& m.online
            &&& m.hostname == report.hostname@
            &&& m.snapshot == Some(report.snapshot)
            &&& m.last_seen_ms == now_ms
            &&& m.fail_count == 0
            &&& m.url == n.url
        }),
{
}

/// After `k` failed polls in a row from a node without failures, the node is
/// offline (for `k > 0`), keeps its host name, URL and last-seen time, and
/// keeps its last readings exactly while `k < STALE_AFTER_POLLS`.
pub proof fn lemma_failure_streak<S>(n: NodeView<S>, k: nat)
    requires
        n.fail_count == 0,
    ensures
        failures(n, k).fail_count == k,
        k > 0 ==> !failures(n, k).online,
        failures(n, k).url == n.url,
        failures(n, k).hostname == n.hostname,
        failures(n, k).last_seen_ms == n.last_seen_ms,
        k < STALE_AFTER_POLLS ==> failures(n, k).snapshot == n.snapshot,
        k >= STALE_AFTER_POLLS ==> failures(n, k).snapshot is None,
    decreases k,
{
    if k > 0 {
        lemma_failure_streak(n, (k - 1) as nat);
    }
}

/// A poll changes no slot but the first one with the polled URL, and never
/// changes the roster of URLs.
pub proof fn lemma_poll_keeps_roster<S>(nodes: Seq<NodeView<S>>, url: Seq<char>, outcome: Option<NodeReport<S>>, now_ms: u64)
    ensures
        ({
            let after = match first_slot(nodes, url) {
                Some(k) => nodes.update(k, poll_step(nodes[k], outcome, now_ms)),
                None => nodes,
            };
            &&& after.len() == nodes.len()
            &&& forall|i: int| 0 <= i < nodes.len() ==> #[trigger] after[i].url == nodes[i].url
            &&& forall|i: int| 0 <= i < nodes.len() && Some(i) != first_slot(nodes, url) ==> #[trigger] after[i] == nodes[i]
        }),
{
    lemma_first_slot_from(nodes, url, 0);
}

} // verus!
