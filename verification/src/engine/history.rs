//! The per-source port history of the engine: which (time, port) pairs
//! each source address has been seen with, the sliding window that keeps
//! it short, and the count of distinct ports in it.
use vstd::prelude::*;
use std::collections::HashSet;

verus! {

/// Per-source port history: for each source address text, the
/// (time, destination port) pairs seen from it, oldest first.
pub type History = Seq<(Seq<char>, Seq<(u64, u16)>)>;

/// `h[i]` is the first entry for the source `k`.
pub open spec fn first_entry(h: History, k: Seq<char>, i: int) -> bool {
    &&& 0 <= i < h.len()
    &&& h[i].0 == k
    &&& forall|j: int| 0 <= j < i ==> #[trigger] h[j].0 != k
}

/// The history has an entry for the source `k`.
pub open spec fn has_source(h: History, k: Seq<char>) -> bool {
    exists|i: int| first_entry(h, k, i)
}

/// Where the entry for `k` stands.
pub open spec fn source_index(h: History, k: Seq<char>) -> int {
    choose|i: int| first_entry(h, k, i)
}

/// The ports seen from `k` (none when `k` has no entry).
pub open spec fn history_of(h: History, k: Seq<char>) -> Seq<(u64, u16)> {
    if has_source(h, k) {
        h[source_index(h, k)].1
    } else {
        seq![]
    }
}

/// `h` with the ports seen from `k` replaced by `l`.
pub open spec fn record_history(h: History, k: Seq<char>, l: Seq<(u64, u16)>) -> History {
    if has_source(h, k) {
        h.update(source_index(h, k), (k, l))
    } else {
        h.push((k, l))
    }
}

/// The start of a window of `w` seconds that ends at `t` (saturating).
pub open spec fn window_start(t: u64, w: u64) -> u64 {
    if t >= w {
        (t - w) as u64
    } else {
        0
    }
}

/// The pair was seen at or after `earliest`.
pub open spec fn seen_since(earliest: u64) -> spec_fn((u64, u16)) -> bool {
    |e: (u64, u16)| e.0 >= earliest
}

/// The ports seen from a source once `port` is seen from it at `t`: the
/// new pair appended, then whatever lies before the window dropped.
pub open spec fn scan_history(old: Seq<(u64, u16)>, t: u64, port: u16, w: u64) -> Seq<(u64, u16)> {
    old.push((t, port)).filter(seen_since(window_start(t, w)))
}

/// The pairs of `l` that a window of `w` seconds ending at `t` holds.
pub open spec fn in_window(l: Seq<(u64, u16)>, t: u64, w: u64) -> Seq<(u64, u16)> {
    l.filter(seen_since(window_start(t, w)))
}

/// The pairs `l` show at least `threshold` distinct destination ports
/// within the window of `w` seconds that ends at `t`.
pub open spec fn scan_fires(l: Seq<(u64, u16)>, t: u64, threshold: u32, w: u64) -> bool {
    distinct_ports(in_window(l, t, w)).len() >= threshold
}

/// The distinct destination ports of a history.
pub open spec fn distinct_ports(l: Seq<(u64, u16)>) -> Set<u16> {
    Set::new(|p: u16| exists|i: int| 0 <= i < l.len() && #[trigger] l[i].1 == p)
}

/// The abstract history held by the engine's entries.
pub open spec fn history_view(v: Seq<(String, Vec<(u64, u16)>)>) -> History {
    v.map_values(|e: (String, Vec<(u64, u16)>)| (e.0@, e.1@))
}

/// There is one first entry per source.
pub proof fn lemma_first_entry_unique(h: History, k: Seq<char>, i: int, j: int)
    requires
        first_entry(h, k, i),
        first_entry(h, k, j),
    ensures
        i == j,
{
    if i < j {
        assert(h[i].0 != k);
    } else if j < i {
        assert(h[j].0 != k);
    }
}

pub(crate) fn find_source(entries: &Vec<(String, Vec<(u64, u16)>)>, src: &String) -> (r: Option<usize>)
    ensures
        match r {
            Some(i) => first_entry(history_view(entries@), src@, i as int),
            None => !has_source(history_view(entries@), src@),
        },
{
    let ghost h = history_view(entries@);
    let mut i: usize = 0;
    while i < entries.len()
        invariant
            i <= entries@.len(),
            h == history_view(entries@),
            forall|j: int| 0 <= j < i ==> #[trigger] h[j].0 != src@,
        decreases entries@.len() - i,
    {
        if entries[i].0 == *src {
            return Some(i);
        }
        i = i + 1;
    }
    proof {
        assert forall|k: int| !first_entry(h, src@, k) by {
            if 0 <= k < h.len() {
                assert(h[k].0 != src@);
            }
        }
    }
    None
}

pub(crate) fn retained(list: &Vec<(u64, u16)>, earliest: u64) -> (r: Vec<(u64, u16)>)
    ensures
        r@ == list@.filter(seen_since(earliest)),
{
    let mut r: Vec<(u64, u16)> = Vec::new();
    let mut i: usize = 0;
    proof {
        reveal_with_fuel(Seq::filter, 1);
        assert(list@.take(0) =~= Seq::<(u64, u16)>::empty());
    }
    while i < list.len()
        invariant
            i <= list@.len(),
            r@ == list@.take(i as int).filter(seen_since(earliest)),
        decreases list@.len() - i,
    {
        let e: (u64, u16) = list[i];
        if e.0 >= earliest {
            r.push(e);
        }
        proof {
            reveal_with_fuel(Seq::filter, 1);
            assert(list@.take(i + 1).drop_last() =~= list@.take(i as int));
        }
        i = i + 1;
    }
    assert(list@.take(list@.len() as int) =~= list@);
    r
}

pub(crate) fn distinct_port_count(list: &Vec<(u64, u16)>) -> (n: usize)
    ensures
        n == distinct_ports(list@).len(),
{
    let mut ports: HashSet<u16> = HashSet::new();
    let mut i: usize = 0;
    assert(ports@ =~= distinct_ports(list@.take(0)));
    while i < list.len()
        invariant
            i <= list@.len(),
            ports@ == distinct_ports(list@.take(i as int)),
            ports@.finite(),
        decreases list@.len() - i,
    {
        let e: (u64, u16) = list[i];
        ports.insert(e.1);
        proof {
            let prev = list@.take(i as int);
            let next = list@.take(i + 1);
            assert forall|p: u16| #[trigger] ports@.contains(p) == distinct_ports(next).contains(p) by {
                if ports@.contains(p) && p != e.1 {
                    let k = choose|k: int| 0 <= k < prev.len() && #[trigger] prev[k].1 == p;
                    assert(next[k].1 == p);
                }
                if distinct_ports(next).contains(p) && p != e.1 {
                    let k = choose|k: int| 0 <= k < next.len() && #[trigger] next[k].1 == p;
                    assert(prev[k].1 == p);
                }
                if p == e.1 {
                    assert(next[i as int].1 == p);
                }
            }
            assert(ports@ =~= distinct_ports(next));
        }
        i = i + 1;
    }
    assert(list@.take(list@.len() as int) =~= list@);
    ports.len()
}

/// Recording ports for a source and then reading them back gives what was
/// recorded.
pub proof fn lemma_record_then_read(h: History, k: Seq<char>, l: Seq<(u64, u16)>)
    ensures
        history_of(record_history(h, k, l), k) == l,
{
    let h2 = record_history(h, k, l);
    if has_source(h, k) {
        let i = source_index(h, k);
        assert(first_entry(h2, k, i));
        lemma_first_entry_unique(h2, k, i, source_index(h2, k));
    } else {
        let i = h.len() as int;
        assert forall|j: int| 0 <= j < i implies #[trigger] h2[j].0 != k by {
            if h2[j].0 == k {
                lemma_first_exists(h, k, j);
            }
        }
        assert(first_entry(h2, k, i));
        lemma_first_entry_unique(h2, k, i, source_index(h2, k));
    }
}

/// When some entry belongs to `k`, a first one does.
pub proof fn lemma_first_exists(h: History, k: Seq<char>, j: int)
    requires
        0 <= j < h.len(),
        h[j].0 == k,
    ensures
        has_source(h, k),
    decreases j,
{
    if forall|m: int| 0 <= m < j ==> #[trigger] h[m].0 != k {
        assert(first_entry(h, k, j));
    } else {
        let m = choose|m: int| 0 <= m < j && h[m].0 == k;
        lemma_first_exists(h, k, m);
    }
}

/// Recording ports for one source leaves every other source's ports as
/// they were.
pub proof fn lemma_record_keeps_others(h: History, k: Seq<char>, l: Seq<(u64, u16)>, other: Seq<char>)
    requires
        other != k,
    ensures
        history_of(record_history(h, k, l), other) == history_of(h, other),
{
    let h2 = record_history(h, k, l);
    if has_source(h, other) {
        let i = source_index(h, other);
        assert(first_entry(h2, other, i));
        lemma_first_entry_unique(h2, other, i, source_index(h2, other));
    } else {
        assert forall|i: int| !first_entry(h2, other, i) by {
            if first_entry(h2, other, i) {
                if i < h.len() {
                    lemma_first_exists(h, other, i);
                }
            }
        }
    }
}

/// The distinct ports of a history are finitely many.
pub proof fn lemma_distinct_ports_finite(l: Seq<(u64, u16)>)
    ensures
        distinct_ports(l).finite(),
    decreases l.len(),
{
    if l.len() == 0 {
        assert(distinct_ports(l) =~= Set::<u16>::empty());
    } else {
        let prev = l.drop_last();
        lemma_distinct_ports_finite(prev);
        assert forall|p: u16| #[trigger] distinct_ports(l).contains(p) == distinct_ports(prev).insert(
            l.last().1,
        ).contains(p) by {
            if distinct_ports(l).contains(p) && p != l.last().1 {
                let k = choose|k: int| 0 <= k < l.len() && #[trigger] l[k].1 == p;
                assert(prev[k].1 == p);
            }
            if distinct_ports(prev).contains(p) {
                let k = choose|k: int| 0 <= k < prev.len() && #[trigger] prev[k].1 == p;
                assert(l[k].1 == p);
            }
        }
        assert(distinct_ports(l) =~= distinct_ports(prev).insert(l.last().1));
    }
}

/// Filtering with a test and then with a stronger one is filtering with
/// the stronger one.
pub proof fn lemma_filter_narrower<A>(x: Seq<A>, p: spec_fn(A) -> bool, q: spec_fn(A) -> bool)
    requires
        forall|e: A| #[trigger] q(e) ==> p(e),
    ensures
        x.filter(p).filter(q) == x.filter(q),
    decreases x.len(),
{
    reveal_with_fuel(Seq::filter, 1);
    if x.len() > 0 {
        lemma_filter_narrower(x.drop_last(), p, q);
        let last = x.last();
        if p(last) {
            assert(x.filter(p).drop_last() =~= x.drop_last().filter(p));
        }
    }
}

/// A wider window holds the pairs of a narrower one: the window of
/// `narrow` seconds within that of `wide` seconds, both ending at `t`, is
/// the window of `narrow` seconds.
pub proof fn lemma_window_within_window(l: Seq<(u64, u16)>, t: u64, narrow: u64, wide: u64)
    requires
        narrow <= wide,
    ensures
        in_window(in_window(l, t, wide), t, narrow) == in_window(l, t, narrow),
{
    lemma_filter_narrower(l, seen_since(window_start(t, wide)), seen_since(window_start(t, narrow)));
}

/// A lower threshold or a wider window never turns a port-scan verdict off.
pub proof fn lemma_scan_fires_monotone(l: Seq<(u64, u16)>, t: u64, threshold: u32, w: u64, threshold2: u32, w2: u64)
    requires
        threshold2 <= threshold,
        w <= w2,
        scan_fires(l, t, threshold, w),
    ensures
        scan_fires(l, t, threshold2, w2),
{
    let narrow = in_window(l, t, w);
    let wide = in_window(l, t, w2);
    assert(distinct_ports(narrow).subset_of(distinct_ports(wide))) by {
        assert forall|p: u16| #[trigger] distinct_ports(narrow).contains(p) implies distinct_ports(wide).contains(p) by {
            let k = choose|k: int| 0 <= k < narrow.len() && #[trigger] narrow[k].1 == p;
            l.lemma_filter_pred(seen_since(window_start(t, w)), k);
            assert(narrow.contains(narrow[k]));
            l.lemma_filter_contains_rev(seen_since(window_start(t, w)), narrow[k]);
            let j = choose|j: int| 0 <= j < l.len() && l[j] == narrow[k];
            l.lemma_filter_contains(seen_since(window_start(t, w2)), j);
            let m = choose|m: int| 0 <= m < wide.len() && wide[m] == l[j];
            assert(wide[m].1 == p);
        }
    }
    lemma_distinct_ports_finite(wide);
    vstd::set_lib::lemma_len_subset(distinct_ports(narrow), distinct_ports(wide));
}

} // verus!
