//! The detection engine: stateless rules evaluated in parallel, port-scan
//! rules evaluated in order against a per-source history of destination
//! ports.
use vstd::prelude::*;
use vstd::string::StringExecFns;

use rayon::iter::{IntoParallelRefIterator, ParallelIterator};

pub mod history;
pub mod matcher;

use crate::parser::{opt_text, PacketView, ParsedPacket};
use crate::rules::{rule_views, ConditionView, Rule, RuleCondition, RuleSet, RuleView};
use history::{
    distinct_port_count, distinct_ports, find_source, first_entry, history_of, history_view, in_window,
    lemma_first_entry_unique, lemma_first_exists, lemma_record_keeps_others, lemma_record_then_read,
    lemma_window_within_window, record_history, retained, scan_fires, scan_history, seen_since, source_index,
    window_start, History,
};
use matcher::rule_matches;

verus! {

/// An alert-worthy match of a rule against a packet.
#[derive(Debug, Clone)]
pub struct DetectionEvent {
    pub rule_id: String,
    pub severity: String,
    pub action: String,
    pub timestamp_secs: Option<u64>,
    pub src_ip: Option<String>,
    pub dst_ip: Option<String>,
    pub message: String,
}

/// What an event holds, with texts as character sequences.
pub struct EventView {
    pub rule_id: Seq<char>,
    pub severity: Seq<char>,
    pub action: Seq<char>,
    pub timestamp_secs: Option<u64>,
    pub src_ip: Option<Seq<char>>,
    pub dst_ip: Option<Seq<char>>,
    pub message: Seq<char>,
}

impl View for DetectionEvent {
    type V = EventView;

    open spec fn view(&self) -> EventView {
        EventView {
            rule_id: self.rule_id@,
            severity: self.severity@,
            action: self.action@,
            timestamp_secs: self.timestamp_secs,
            src_ip: opt_text(self.src_ip),
            dst_ip: opt_text(self.dst_ip),
            message: self.message@,
        }
    }
}

/// The views of a sequence of events.
pub open spec fn event_views(events: Seq<DetectionEvent>) -> Seq<EventView> {
    events.map_values(|e: DetectionEvent| e@)
}

/// The message of an event of `rule` on `packet`.
pub open spec fn event_message(rule: RuleView, packet: PacketView) -> Seq<char> {
    match packet.destination_ip {
        Some(d) => rule.description + " matched for destination "@ + d,
        None => rule.name + ": "@ + rule.description,
    }
}

/// The event that `rule` raises on `packet`: severity "low" and action
/// "alert" when the rule gives none, the packet's capture time and
/// addresses, and as message the rule's description followed by the
/// destination address when the packet has one, or else the rule's name
/// and description.
pub open spec fn event_of(rule: RuleView, packet: PacketView) -> EventView {
    EventView {
        rule_id: rule.id,
        severity: match rule.severity {
            Some(s) => s,
            None => "low"@,
        },
        action: match rule.action {
            Some(a) => a,
            None => "alert"@,
        },
        timestamp_secs: packet.capture_time_secs,
        src_ip: packet.source_ip,
        dst_ip: packet.destination_ip,
        message: event_message(rule, packet),
    }
}

/// The events of `rules` on `packet`, one each, in order.
pub open spec fn events_of(rules: Seq<RuleView>, packet: PacketView) -> Seq<EventView> {
    rules.map_values(|r: RuleView| event_of(r, packet))
}

/// The test that a rule matches `packet` on its own.
pub open spec fn matches_alone(packet: PacketView) -> spec_fn(RuleView) -> bool {
    |r: RuleView| rule_matches(r, packet)
}

/// The rules that match `packet` on their own, in rule order.
pub open spec fn stateless_matches(rules: Seq<RuleView>, packet: PacketView) -> Seq<RuleView> {
    rules.filter(matches_alone(packet))
}

fn clone_text(s: &Option<String>) -> (r: Option<String>)
    ensures
        opt_text(r) == opt_text(*s),
{
    match s {
        Some(t) => Some(t.clone()),
        None => None,
    }
}

/// The event that `rule` raises on `packet`.
pub fn detection_event(rule: &Rule, packet: &ParsedPacket) -> (e: DetectionEvent)
    ensures
        e@ == event_of(rule@, packet@),
{
    let severity = match &rule.severity {
        Some(s) => s.clone(),
        None => String::from_str("low"),
    };
    let action = match &rule.action {
        Some(a) => a.clone(),
        None => String::from_str("alert"),
    };
    let message = match &packet.destination_ip {
        Some(d) => {
            let mut m = rule.description.clone();
            m.append(" matched for destination ");
            m.append(d.as_str());
            m
        },
        None => {
            let mut m = rule.name.clone();
            m.append(": ");
            m.append(rule.description.as_str());
            m
        },
    };
    DetectionEvent {
        rule_id: rule.id.clone(),
        severity,
        action,
        timestamp_secs: packet.capture_time_secs,
        src_ip: clone_text(&packet.source_ip),
        dst_ip: clone_text(&packet.destination_ip),
        message,
    }
}

/// The events of the rules that match `packet` on their own, evaluated in
/// parallel with rayon's `par_iter`, `filter`, `map` and `collect`. The
/// contract claims of rayon that `filter` keeps exactly the rules that
/// [`matcher::matches`] accepts, that `map` turns each into its
/// [`detection_event`], and that `collect` into a `Vec` keeps the order of
/// `rules`.
#[verifier::external_body]
fn par_stateless_detections(rules: &Vec<Rule>, packet: &ParsedPacket) -> (events: Vec<DetectionEvent>)
    ensures
        event_views(events@) == events_of(stateless_matches(rule_views(rules@), packet@), packet@),
{
    rules.par_iter().filter(|rule| matcher::matches(rule, packet)).map(
        |rule| detection_event(rule, packet),
    ).collect()
}

/// The widest window among the port-scan rules, if there is one.
pub open spec fn widest_window(rules: Seq<RuleView>) -> Option<u64>
    decreases rules.len(),
{
    if rules.len() == 0 {
        None
    } else {
        let rest = widest_window(rules.drop_last());
        match rules.last().condition {
            ConditionView::PortScan { window_secs, .. } => match rest {
                Some(w) => Some(if w >= window_secs { w } else { window_secs }),
                None => Some(window_secs),
            },
            _ => rest,
        }
    }
}

/// The history once an engine with `rules` has seen `packet` at `t`: when
/// some rule is a port-scan rule and the packet has a source address and a
/// destination port, the pair of time and port is added once to the
/// source's pairs, and the pairs that have left the widest window are
/// dropped. Otherwise nothing changes.
pub open spec fn port_scan_update(h: History, rules: Seq<RuleView>, packet: PacketView, t: u64) -> History {
    match (packet.source_ip, packet.destination_port, widest_window(rules)) {
        (Some(src), Some(port), Some(w)) => record_history(h, src, scan_history(history_of(h, src), t, port, w)),
        _ => h,
    }
}

/// The pairs of the packet's source.
pub open spec fn source_pairs(h: History, packet: PacketView) -> Seq<(u64, u16)> {
    match packet.source_ip {
        Some(src) => history_of(h, src),
        None => seq![],
    }
}

/// The test that a rule is a port-scan rule that fires on `packet` at `t`
/// given its source's pairs `l`: the packet has a source address and a
/// destination port, and the rule's own threshold of distinct ports is
/// reached within the rule's own window.
pub open spec fn scan_rule_fires(packet: PacketView, t: u64, l: Seq<(u64, u16)>) -> spec_fn(RuleView) -> bool {
    |r: RuleView|
        match r.condition {
            ConditionView::PortScan { threshold, window_secs } => packet.source_ip is Some
                && packet.destination_port is Some && scan_fires(l, t, threshold, window_secs),
            _ => false,
        }
}

/// The port-scan rules that fire on `packet` at `t`, in rule order, once
/// the history has become `h`.
pub open spec fn fired_scans(rules: Seq<RuleView>, h: History, packet: PacketView, t: u64) -> Seq<RuleView> {
    rules.filter(scan_rule_fires(packet, t, source_pairs(h, packet)))
}

/// The port history of each source address, as pairs of an address text
/// and its (time, port) pairs. A `Vec` of pairs takes the place of a hash
/// map keyed by the address text: vstd specifies `HashMap` only for keys
/// whose hashing it models, which `String` is not, so no contract over the
/// map's contents could be proved; keying by an integer would lose the
/// address text that events report. A source's history is its first entry,
/// which `record_packet` updates in place or, for a new source, appends.
#[derive(Debug)]
struct EngineState {
    port_scan_ports_by_source: Vec<(String, Vec<(u64, u16)>)>,
}

/// Applies rules to packets, one packet after the other, and keeps the
/// history that port-scan rules need.
#[derive(Debug)]
pub struct DetectionEngine {
    rules: RuleSet,
    state: EngineState,
    synthetic_time_secs: u64,
    rules_path: Option<String>,
    rules_last_modified: Option<i128>,
}

/// What an engine holds.
pub struct EngineView {
    /// The rules it applies, in order.
    pub rules: Seq<RuleView>,
    /// The port history per source.
    pub history: History,
    /// The clock that stands in for capture times that packets lack.
    pub synthetic: u64,
    /// The rules file that the rules came from, if any.
    pub path: Option<Seq<char>>,
    /// When the rules file was last modified, as far as the engine knows
    /// (nanoseconds from the Unix epoch).
    pub last_modified: Option<i128>,
}

impl View for DetectionEngine {
    type V = EngineView;

    closed spec fn view(&self) -> EngineView {
        EngineView {
            rules: rule_views(self.rules.rules@),
            history: history_view(self.state.port_scan_ports_by_source@),
            synthetic: self.synthetic_time_secs,
            path: opt_text(self.rules_path),
            last_modified: self.rules_last_modified,
        }
    }
}

/// The synthetic clock after one more tick (saturating).
pub open spec fn next_synthetic(synthetic: u64) -> u64 {
    if synthetic == u64::MAX {
        synthetic
    } else {
        (synthetic + 1) as u64
    }
}

/// The time that port-scan windows measure a packet by: its capture time,
/// or else the next tick of the synthetic clock.
pub open spec fn event_time(synthetic: u64, capture: Option<u64>) -> u64 {
    match capture {
        Some(t) => t,
        None => next_synthetic(synthetic),
    }
}

/// The rules file, last modified at `modified`, is to be read again.
pub open spec fn reload_due(e: EngineView, modified: i128) -> bool {
    match e.last_modified {
        Some(last) => modified > last,
        None => true,
    }
}

/// An engine in state `e` handed `packet`: the state after it, and the
/// events, first those of the rules that match the packet on their own,
/// in rule order, then those of the port-scan rules that fire, in rule
/// order, each judged on the source's pairs within its own window.
pub open spec fn detect_outcome(e: EngineView, packet: PacketView) -> (EngineView, Seq<EventView>) {
    let t = event_time(e.synthetic, packet.capture_time_secs);
    let h = port_scan_update(e.history, e.rules, packet, t);
    let synthetic = match packet.capture_time_secs {
        Some(_) => e.synthetic,
        None => next_synthetic(e.synthetic),
    };
    (
        EngineView { history: h, synthetic, ..e },
        events_of(stateless_matches(e.rules, packet) + fired_scans(e.rules, h, packet, t), packet),
    )
}

fn widest_scan_window(rules: &Vec<Rule>) -> (w: Option<u64>)
    ensures
        w == widest_window(rule_views(rules@)),
{
    let ghost views = rule_views(rules@);
    let mut w: Option<u64> = None;
    let mut i: usize = 0;
    assert(views.take(0) =~= Seq::<RuleView>::empty());
    while i < rules.len()
        invariant
            i <= rules@.len(),
            views == rule_views(rules@),
            w == widest_window(views.take(i as int)),
        decreases rules@.len() - i,
    {
        proof {
            assert(views.take(i + 1).drop_last() =~= views.take(i as int));
            assert(views.take(i + 1).last() == rules@[i as int]@);
        }
        match &rules[i].condition {
            RuleCondition::PortScan { window_secs, .. } => {
                w = match w {
                    Some(v) => Some(if v >= *window_secs { v } else { *window_secs }),
                    None => Some(*window_secs),
                };
            },
            _ => {},
        }
        i = i + 1;
    }
    assert(views.take(rules@.len() as int) =~= views);
    w
}

/// A filter whose test holds of no element keeps nothing.
proof fn lemma_filter_none<A>(x: Seq<A>, p: spec_fn(A) -> bool)
    requires
        forall|i: int| 0 <= i < x.len() ==> !p(#[trigger] x[i]),
    ensures
        x.filter(p).len() == 0,
{
    if x.filter(p).len() > 0 {
        x.lemma_filter_pred(p, 0);
        assert(x.filter(p).contains(x.filter(p)[0]));
        x.lemma_filter_contains_rev(p, x.filter(p)[0]);
        let k = choose|k: int| 0 <= k < x.len() && x[k] == x.filter(p)[0];
        assert(!p(x[k]));
    }
}

/// Without a widest window there is no port-scan rule; with one, every
/// port-scan rule's window lies within it.
proof fn lemma_widest_window_bounds(rules: Seq<RuleView>)
    ensures
        forall|i: int| 0 <= i < rules.len() && (#[trigger] rules[i]).condition is PortScan ==> widest_window(rules) is Some
            && rules[i].condition->window_secs <= widest_window(rules)->0,
    decreases rules.len(),
{
    if rules.len() > 0 {
        let prev = rules.drop_last();
        lemma_widest_window_bounds(prev);
        assert forall|i: int| 0 <= i < rules.len() && (#[trigger] rules[i]).condition is PortScan implies widest_window(rules) is Some
            && rules[i].condition->window_secs <= widest_window(rules)->0 by {
            if i < rules.len() - 1 {
                assert(prev[i] == rules[i]);
            }
        }
    }
}

impl Default for DetectionEngine {
    fn default() -> (e: Self)
        ensures
            e@ == (EngineView {
                rules: Seq::empty(),
                history: Seq::empty(),
                synthetic: 0,
                path: None,
                last_modified: None,
            }),
    {
        let e = DetectionEngine {
            rules: RuleSet { rules: Vec::new() },
            state: EngineState { port_scan_ports_by_source: Vec::new() },
            synthetic_time_secs: 0,
            rules_path: None,
            rules_last_modified: None,
        };
        assert(e@.rules =~= Seq::<RuleView>::empty());
        assert(e@.history =~= Seq::<(Seq<char>, Seq<(u64, u16)>)>::empty());
        e
    }
}

impl DetectionEngine {
    /// A new engine for `rules`, read from `rules_path` if given, with no
    /// history.
    pub fn with_rules(rules: RuleSet, rules_path: Option<String>) -> (e: Self)
        ensures
            e@ == (EngineView {
                rules: rule_views(rules.rules@),
                history: Seq::empty(),
                synthetic: 0,
                path: opt_text(rules_path),
                last_modified: None,
            }),
    {
        let e = DetectionEngine {
            rules,
            state: EngineState { port_scan_ports_by_source: Vec::new() },
            synthetic_time_secs: 0,
            rules_path,
            rules_last_modified: None,
        };
        assert(e@.history =~= Seq::<(Seq<char>, Seq<(u64, u16)>)>::empty());
        e
    }

    /// Whether `seen` shows at least `threshold` distinct destination
    /// ports within the window of `window_secs` seconds that ends at
    /// `event_time_secs`.
    pub fn is_port_scan(seen: &Vec<(u64, u16)>, event_time_secs: u64, threshold: u32, window_secs: u64) -> (matched: bool)
        ensures
            matched == scan_fires(seen@, event_time_secs, threshold, window_secs),
    {
        let kept = retained(seen, event_time_secs.saturating_sub(window_secs));
        distinct_port_count(&kept) >= threshold as usize
    }

    /// Adds `(t, port)` to the pairs of `src`, dropping those that have
    /// left the window of `widest` seconds; where the source's entry stands.
    fn record_packet(&mut self, src: &String, port: u16, t: u64, widest: u64) -> (slot: usize)
        ensures
            final(self)@ == (EngineView {
                history: record_history(old(self)@.history, src@, scan_history(history_of(old(self)@.history, src@), t, port, widest)),
                ..old(self)@
            }),
            slot < final(self).state.port_scan_ports_by_source@.len(),
            first_entry(final(self)@.history, src@, slot as int),
    {
        let ghost h = self@.history;
        let earliest: u64 = t.saturating_sub(widest);
        let found = find_source(&self.state.port_scan_ports_by_source, src);
        let mut pairs: Vec<(u64, u16)> = match found {
            Some(i) => retained(&self.state.port_scan_ports_by_source[i].1, earliest),
            None => Vec::new(),
        };
        pairs.push((t, port));
        let ghost l = scan_history(history_of(h, src@), t, port, widest);
        proof {
            let old_list = history_of(h, src@);
            match found {
                Some(i) => {
                    lemma_first_entry_unique(h, src@, i as int, source_index(h, src@));
                },
                None => {},
            }
            reveal_with_fuel(Seq::filter, 1);
            assert(old_list.push((t, port)).drop_last() =~= old_list);
            if found is None {
                assert(old_list.filter(seen_since(earliest)) =~= Seq::<(u64, u16)>::empty());
            }
            assert(pairs@ =~= l);
        }
        match found {
            Some(i) => {
                self.state.port_scan_ports_by_source.set(i, (src.clone(), pairs));
                assert(self@.history =~= record_history(h, src@, l));
                proof {
                    let h2 = self@.history;
                    assert forall|j: int| 0 <= j < i implies #[trigger] h2[j].0 != src@ by {
                        assert(h2[j] == h[j]);
                    }
                }
                i
            },
            None => {
                let slot: usize = self.state.port_scan_ports_by_source.len();
                self.state.port_scan_ports_by_source.push((src.clone(), pairs));
                assert(self@.history =~= record_history(h, src@, l));
                proof {
                    let h2 = self@.history;
                    assert forall|j: int| 0 <= j < slot implies #[trigger] h2[j].0 != src@ by {
                        assert(h2[j] == h[j]);
                        if h[j].0 == src@ {
                            lemma_first_exists(h, src@, j);
                        }
                    }
                }
                slot
            },
        }
    }

    /// Applies every rule to `packet` (see [`detect_outcome`]).
    pub fn detect(&mut self, packet: &ParsedPacket) -> (events: Vec<DetectionEvent>)
        ensures
            (final(self)@, event_views(events@)) == detect_outcome(old(self)@, packet@),
    {
        let event_time_secs: u64 = match packet.capture_time_secs {
            Some(t) => t,
            None => {
                self.synthetic_time_secs = self.synthetic_time_secs.saturating_add(1);
                self.synthetic_time_secs
            },
        };
        let ghost rules = self@.rules;
        let ghost stateless = stateless_matches(rules, packet@);
        let mut detections = par_stateless_detections(&self.rules.rules, packet);
        let widest = widest_scan_window(&self.rules.rules);
        let slot: Option<usize> = match (&packet.source_ip, packet.destination_port, widest) {
            (Some(src), Some(port), Some(w)) => Some(self.record_packet(src, port, event_time_secs, w)),
            _ => None,
        };
        let ghost e2 = self@;
        let ghost h = self@.history;
        let ghost pred = scan_rule_fires(packet@, event_time_secs, source_pairs(h, packet@));
        assert(h == port_scan_update(old(self)@.history, rules, packet@, event_time_secs));
        match slot {
            Some(k) => {
                let ghost src = packet@.source_ip->0;
                proof {
                    lemma_first_entry_unique(h, src, k as int, source_index(h, src));
                    assert(source_pairs(h, packet@) == self.state.port_scan_ports_by_source@[k as int].1@);
                }
                let n: usize = self.rules.rules.len();
                let mut i: usize = 0;
                assert(rules.take(0) =~= Seq::<RuleView>::empty());
                reveal_with_fuel(Seq::filter, 1);
                assert(stateless + rules.take(0).filter(pred) =~= stateless);
                while i < n
                    invariant
                        n == rules.len(),
                        i <= n,
                        rules == rule_views(self.rules.rules@),
                        self@ == e2,
                        k < self.state.port_scan_ports_by_source@.len(),
                        source_pairs(h, packet@) == self.state.port_scan_ports_by_source@[k as int].1@,
                        h == e2.history,
                        packet@.source_ip is Some,
                        packet@.destination_port is Some,
                        pred == scan_rule_fires(packet@, event_time_secs, source_pairs(h, packet@)),
                        event_views(detections@) == events_of(stateless + rules.take(i as int).filter(pred), packet@),
                    decreases n - i,
                {
                    let ghost r = rules[i as int];
                    let ghost before = rules.take(i as int).filter(pred);
                    proof {
                        reveal_with_fuel(Seq::filter, 1);
                        assert(rules.take(i + 1).drop_last() =~= rules.take(i as int));
                        assert(rules.take(i + 1).last() == r);
                    }
                    let fires: bool = match &self.rules.rules[i].condition {
                        RuleCondition::PortScan { threshold, window_secs } => Self::is_port_scan(
                            &self.state.port_scan_ports_by_source[k].1,
                            event_time_secs,
                            *threshold,
                            *window_secs,
                        ),
                        _ => false,
                    };
                    assert(fires == pred(r));
                    if fires {
                        let ev = detection_event(&self.rules.rules[i], packet);
                        let ghost seen = event_views(detections@);
                        detections.push(ev);
                        proof {
                            assert(rules.take(i + 1).filter(pred) == before.push(r));
                            assert(stateless + before.push(r) =~= (stateless + before).push(r));
                            assert(event_views(detections@) =~= seen.push(ev@));
                            assert(events_of((stateless + before).push(r), packet@) =~= events_of(stateless + before, packet@).push(event_of(r, packet@)));
                        }
                    } else {
                        assert(rules.take(i + 1).filter(pred) == before);
                    }
                    i = i + 1;
                }
                assert(rules.take(n as int) =~= rules);
            },
            None => {
                proof {
                    lemma_widest_window_bounds(rules);
                    assert forall|i: int| 0 <= i < rules.len() implies !pred(#[trigger] rules[i]) by {}
                    lemma_filter_none(rules, pred);
                    assert(stateless + rules.filter(pred) =~= stateless);
                }
            },
        }
        detections
    }

    /// The rules file whose modifications the engine follows.
    pub fn rules_path(&self) -> (p: &Option<String>)
        ensures
            opt_text(*p) == self@.path,
    {
        &self.rules_path
    }

    /// Records when the rules file was last modified, as read when the
    /// engine was made.
    pub fn note_rules_modified(&mut self, modified: Option<i128>)
        ensures
            final(self)@ == (EngineView { last_modified: modified, ..old(self)@ }),
    {
        self.rules_last_modified = modified;
    }

    /// The rules file, modified at `modified`, should be read again: the
    /// engine has no modification time for it, or an earlier one.
    pub fn rules_need_reload(&self, modified: i128) -> (b: bool)
        ensures
            b == reload_due(self@, modified),
    {
        match self.rules_last_modified {
            Some(last) => modified > last,
            None => true,
        }
    }

    /// Takes the outcome of reading again the rules file modified at
    /// `modified`: new rules replace the old ones, a failure keeps them;
    /// either way the modification is recorded, so that a broken file is
    /// not read again until it changes. The history is kept.
    pub fn finish_reload(&mut self, modified: i128, loaded: Result<RuleSet, String>) -> (r: Result<(), String>)
        ensures
            match loaded {
                Ok(set) => r is Ok && final(self)@ == (EngineView {
                    rules: rule_views(set.rules@),
                    last_modified: Some(modified),
                    ..old(self)@
                }),
                Err(e) => r == Err::<(), String>(e) && final(self)@ == (EngineView {
                    last_modified: Some(modified),
                    ..old(self)@
                }),
            },
    {
        self.rules_last_modified = Some(modified);
        match loaded {
            Ok(new_rules) => {
                self.rules = new_rules;
                Ok(())
            },
            Err(e) => Err(e),
        }
    }
}

/// Seeing a packet adds its pair once to its source's pairs and keeps,
/// oldest first, exactly the pairs within the widest window of the port-scan
/// rules, the packet's own pair last; every other source is left alone.
pub proof fn lemma_port_scan_sliding_window(h: History, rules: Seq<RuleView>, packet: PacketView, t: u64, other: Seq<char>)
    requires
        packet.source_ip is Some,
        packet.destination_port is Some,
        widest_window(rules) is Some,
    ensures
        ({
            let src = packet.source_ip->0;
            let w = widest_window(rules)->0;
            let l = history_of(port_scan_update(h, rules, packet, t), src);
            &&& l == in_window(history_of(h, src).push((t, packet.destination_port->0)), t, w)
            &&& l.len() > 0
            &&& l.last() == (t, packet.destination_port->0)
            &&& forall|i: int| 0 <= i < l.len() ==> (#[trigger] l[i]).0 >= window_start(t, w)
        }),
        other != packet.source_ip->0 ==> history_of(port_scan_update(h, rules, packet, t), other) == history_of(h, other),
{
    let src = packet.source_ip->0;
    let port = packet.destination_port->0;
    let w = widest_window(rules)->0;
    let old_list = history_of(h, src);
    let l = scan_history(old_list, t, port, w);
    lemma_record_then_read(h, src, l);
    if other != src {
        lemma_record_keeps_others(h, src, l, other);
    }
    let pred = seen_since(window_start(t, w));
    old_list.push((t, port)).lemma_filter_len(pred);
    reveal_with_fuel(Seq::filter, 1);
    assert(old_list.push((t, port)).drop_last() =~= old_list);
    assert forall|i: int| 0 <= i < l.len() implies (#[trigger] l[i]).0 >= window_start(t, w) by {
        old_list.push((t, port)).lemma_filter_pred(pred, i);
    }
}

/// A packet without source address or without destination port leaves
/// every history as it was and fires no port-scan rule.
pub proof fn lemma_port_scan_needs_source_and_port(rules: Seq<RuleView>, h: History, packet: PacketView, t: u64)
    requires
        packet.source_ip is None || packet.destination_port is None,
    ensures
        port_scan_update(h, rules, packet, t) == h,
        fired_scans(rules, h, packet, t).len() == 0,
{
    lemma_filter_none(rules, scan_rule_fires(packet, t, source_pairs(h, packet)));
}

/// A port-scan rule is judged on its own window: it fires exactly when the
/// source's pairs, with the packet's pair added, show the rule's threshold
/// of distinct ports within the rule's window, however wide the other
/// rules' windows are.
pub proof fn lemma_rule_uses_its_own_window(e: EngineView, packet: PacketView, i: int)
    requires
        0 <= i < e.rules.len(),
        e.rules[i].condition is PortScan,
        packet.source_ip is Some,
        packet.destination_port is Some,
    ensures
        ({
            let t = event_time(e.synthetic, packet.capture_time_secs);
            let r = e.rules[i];
            let h = detect_outcome(e, packet).0.history;
            let seen = history_of(e.history, packet.source_ip->0).push((t, packet.destination_port->0));
            &&& fired_scans(e.rules, h, packet, t).contains(r) <==> scan_fires(
                seen,
                t,
                r.condition->threshold,
                r.condition->window_secs,
            )
            &&& detect_outcome(e, packet).1.contains(event_of(r, packet)) <== scan_fires(
                seen,
                t,
                r.condition->threshold,
                r.condition->window_secs,
            )
        }),
{
    let t = event_time(e.synthetic, packet.capture_time_secs);
    let r = e.rules[i];
    let src = packet.source_ip->0;
    let seen = history_of(e.history, src).push((t, packet.destination_port->0));
    lemma_widest_window_bounds(e.rules);
    let mw = widest_window(e.rules)->0;
    let h = port_scan_update(e.history, e.rules, packet, t);
    lemma_port_scan_sliding_window(e.history, e.rules, packet, t, src);
    lemma_window_within_window(seen, t, r.condition->window_secs, mw);
    let pred = scan_rule_fires(packet, t, source_pairs(h, packet));
    assert(pred(r) == scan_fires(seen, t, r.condition->threshold, r.condition->window_secs));
    let fired = fired_scans(e.rules, h, packet, t);
    if pred(r) {
        e.rules.lemma_filter_contains(pred, i);
        let s = stateless_matches(e.rules, packet);
        let j = choose|j: int| 0 <= j < fired.len() && fired[j] == r;
        assert((s + fired)[s.len() + j] == r);
        assert(detect_outcome(e, packet).1[s.len() + j] == event_of(r, packet));
    } else if fired.contains(r) {
        let j = choose|j: int| 0 <= j < fired.len() && fired[j] == r;
        e.rules.lemma_filter_pred(pred, j);
    }
}

/// What an engine does with a packet depends, of its history, only on the
/// pairs of the packet's source: two engines with the same rules and clock
/// that agree on that source raise the same events and keep the same pairs
/// for it.
pub proof fn lemma_detect_depends_only_on_own_source(e1: EngineView, e2: EngineView, packet: PacketView)
    requires
        e1.rules == e2.rules,
        e1.synthetic == e2.synthetic,
        packet.source_ip is Some,
        history_of(e1.history, packet.source_ip->0) == history_of(e2.history, packet.source_ip->0),
    ensures
        detect_outcome(e1, packet).1 == detect_outcome(e2, packet).1,
        history_of(detect_outcome(e1, packet).0.history, packet.source_ip->0) == history_of(
            detect_outcome(e2, packet).0.history,
            packet.source_ip->0,
        ),
{
    let src = packet.source_ip->0;
    let t = event_time(e1.synthetic, packet.capture_time_secs);
    let h1 = port_scan_update(e1.history, e1.rules, packet, t);
    let h2 = port_scan_update(e2.history, e2.rules, packet, t);
    match (packet.destination_port, widest_window(e1.rules)) {
        (Some(port), Some(w)) => {
            lemma_record_then_read(e1.history, src, scan_history(history_of(e1.history, src), t, port, w));
            lemma_record_then_read(e2.history, src, scan_history(history_of(e2.history, src), t, port, w));
        },
        _ => {},
    }
    assert(source_pairs(h1, packet) == source_pairs(h2, packet));
}

/// Handing a packet to the engine changes no history but that of the
/// packet's source.
pub proof fn lemma_detect_keeps_other_sources(e: EngineView, packet: PacketView, other: Seq<char>)
    requires
        packet.source_ip != Some(other),
    ensures
        history_of(detect_outcome(e, packet).0.history, other) == history_of(e.history, other),
{
    let t = event_time(e.synthetic, packet.capture_time_secs);
    if packet.source_ip is Some && packet.destination_port is Some && widest_window(e.rules) is Some {
        lemma_port_scan_sliding_window(e.history, e.rules, packet, t, other);
    }
}

/// An engine in state `e` handed `packets` one after the other: the state
/// after them, and all their events in order.
pub open spec fn detect_all(e: EngineView, packets: Seq<PacketView>) -> (EngineView, Seq<EventView>)
    decreases packets.len(),
{
    if packets.len() == 0 {
        (e, seq![])
    } else {
        let (e1, events) = detect_all(e, packets.drop_last());
        let (e2, more) = detect_outcome(e1, packets.last());
        (e2, events + more)
    }
}

/// Port histories are kept per source, over any number of packets: packets
/// from other sources leave the history of `source` and the rules as they
/// were. When those packets carry capture times, the synthetic clock is
/// left as well, so a later packet from `source` raises the same events and
/// leaves `source` the same pairs as it would have without them.
pub proof fn lemma_other_sources_never_touch_a_history(
    e: EngineView,
    others: Seq<PacketView>,
    source: Seq<char>,
    packet: PacketView,
)
    requires
        forall|i: int| 0 <= i < others.len() ==> (#[trigger] others[i]).source_ip != Some(source),
    ensures
        history_of(detect_all(e, others).0.history, source) == history_of(e.history, source),
        detect_all(e, others).0.rules == e.rules,
        (forall|i: int| 0 <= i < others.len() ==> (#[trigger] others[i]).capture_time_secs is Some)
            ==> detect_all(e, others).0.synthetic == e.synthetic,
        (forall|i: int| 0 <= i < others.len() ==> (#[trigger] others[i]).capture_time_secs is Some)
            && packet.source_ip == Some(source) ==> ({
            let later = detect_all(e, others).0;
            &&& detect_outcome(later, packet).1 == detect_outcome(e, packet).1
            &&& history_of(detect_outcome(later, packet).0.history, source) == history_of(
                detect_outcome(e, packet).0.history,
                source,
            )
        }),
    decreases others.len(),
{
    if others.len() > 0 {
        let rest = others.drop_last();
        assert forall|i: int| 0 <= i < rest.len() implies (#[trigger] rest[i]).source_ip != Some(source) by {
            assert(rest[i] == others[i]);
        }
        lemma_other_sources_never_touch_a_history(e, rest, source, packet);
        let e1 = detect_all(e, rest).0;
        lemma_detect_keeps_other_sources(e1, others.last(), source);
        if forall|i: int| 0 <= i < others.len() ==> (#[trigger] others[i]).capture_time_secs is Some {
            assert forall|i: int| 0 <= i < rest.len() implies (#[trigger] rest[i]).capture_time_secs is Some by {
                assert(rest[i] == others[i]);
            }
            assert(others[others.len() - 1].capture_time_secs is Some);
        }
    }
    if (forall|i: int| 0 <= i < others.len() ==> (#[trigger] others[i]).capture_time_secs is Some)
        && packet.source_ip == Some(source) {
        lemma_detect_depends_only_on_own_source(detect_all(e, others).0, e, packet);
    }
}

/// An engine without rules raises no event and keeps its history; only
/// its synthetic clock may tick.
pub proof fn lemma_no_rules_no_events(e: EngineView, packet: PacketView)
    requires
        e.rules.len() == 0,
    ensures
        detect_outcome(e, packet).1.len() == 0,
        detect_outcome(e, packet).0.history == e.history,
{
    reveal_with_fuel(Seq::filter, 1);
    let t = event_time(e.synthetic, packet.capture_time_secs);
    assert(stateless_matches(e.rules, packet).len() == 0);
    assert(fired_scans(e.rules, e.history, packet, t).len() == 0);
}

/// The events of the rules that need no history come first and do not
/// depend on the history: two engines with the same rules raise the same
/// ones, in rule order.
pub proof fn lemma_stateless_events_ignore_history(e1: EngineView, e2: EngineView, packet: PacketView)
    requires
        e1.rules == e2.rules,
    ensures
        ({
            let n = stateless_matches(e1.rules, packet).len() as int;
            &&& detect_outcome(e1, packet).1.subrange(0, n) == events_of(stateless_matches(e1.rules, packet), packet)
            &&& detect_outcome(e2, packet).1.subrange(0, n) == detect_outcome(e1, packet).1.subrange(0, n)
        }),
{
    let s = stateless_matches(e1.rules, packet);
    let t1 = event_time(e1.synthetic, packet.capture_time_secs);
    let t2 = event_time(e2.synthetic, packet.capture_time_secs);
    let f1 = fired_scans(e1.rules, port_scan_update(e1.history, e1.rules, packet, t1), packet, t1);
    let f2 = fired_scans(e2.rules, port_scan_update(e2.history, e2.rules, packet, t2), packet, t2);
    assert(events_of(s + f1, packet).subrange(0, s.len() as int) =~= events_of(s, packet));
    assert(events_of(s + f2, packet).subrange(0, s.len() as int) =~= events_of(s, packet));
}

/// Ports count once however often they are seen: a history whose pairs
/// all carry the same port has one distinct port.
pub proof fn lemma_repeated_port_counts_once(l: Seq<(u64, u16)>, port: u16)
    requires
        l.len() > 0,
        forall|i: int| 0 <= i < l.len() ==> (#[trigger] l[i]).1 == port,
    ensures
        distinct_ports(l) == set![port],
        distinct_ports(l).len() == 1,
{
    assert(l[0].1 == port);
    assert(distinct_ports(l) =~= set![port]);
}

/// A rule that matches a packet on its own raises its event on it,
/// whatever the engine's history: a packet from a blocklisted source, an
/// anomalous packet, and every packet under a match-all rule.
pub proof fn lemma_matching_rule_raises_event(e: EngineView, packet: PacketView, i: int)
    requires
        0 <= i < e.rules.len(),
        rule_matches(e.rules[i], packet),
    ensures
        detect_outcome(e, packet).1.contains(event_of(e.rules[i], packet)),
{
    let f = matches_alone(packet);
    let s = stateless_matches(e.rules, packet);
    e.rules.lemma_filter_contains(f, i);
    let j = choose|j: int| 0 <= j < s.len() && s[j] == e.rules[i];
    let t = event_time(e.synthetic, packet.capture_time_secs);
    let fired = fired_scans(e.rules, port_scan_update(e.history, e.rules, packet, t), packet, t);
    assert((s + fired)[j] == e.rules[i]);
    assert(detect_outcome(e, packet).1[j] == event_of(e.rules[i], packet));
}

/// Every event is the event of one of the engine's rules on the packet.
pub proof fn lemma_events_come_from_rules(e: EngineView, packet: PacketView)
    ensures
        forall|k: int| 0 <= k < detect_outcome(e, packet).1.len() ==> exists|i: int|
            0 <= i < e.rules.len() && #[trigger] detect_outcome(e, packet).1[k] == event_of(e.rules[i], packet),
{
    let f = matches_alone(packet);
    let s = stateless_matches(e.rules, packet);
    let t = event_time(e.synthetic, packet.capture_time_secs);
    let h = port_scan_update(e.history, e.rules, packet, t);
    let g = scan_rule_fires(packet, t, source_pairs(h, packet));
    let fired = fired_scans(e.rules, h, packet, t);
    let events = detect_outcome(e, packet).1;
    assert forall|k: int| 0 <= k < events.len() implies exists|i: int|
        0 <= i < e.rules.len() && #[trigger] events[k] == event_of(e.rules[i], packet) by {
        let r = (s + fired)[k];
        if k < s.len() {
            assert(s.contains(s[k]));
            e.rules.lemma_filter_contains_rev(f, s[k]);
        } else {
            assert(fired[k - s.len()] == r);
            assert(fired.contains(r));
            e.rules.lemma_filter_contains_rev(g, r);
        }
        let i = choose|i: int| 0 <= i < e.rules.len() && e.rules[i] == r;
        assert(events[k] == event_of(e.rules[i], packet));
    }
}

/// Once a reload has been attempted for a modification, successful or
/// not, the rules file is read again only after a later modification.
pub proof fn lemma_reload_waits_for_next_modification(e: EngineView, modified: i128, later: i128)
    requires
        later > modified,
    ensures
        !reload_due(EngineView { last_modified: Some(modified), ..e }, modified),
        reload_due(EngineView { last_modified: Some(modified), ..e }, later),
{
}

} // verus!
