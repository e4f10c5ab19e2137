//! The data of detection rules, as a rules file describes them.
use vstd::prelude::*;

verus! {

/// One detection rule.
#[derive(Debug, Clone)]
pub struct Rule {
    pub id: String,
    pub name: String,
    pub description: String,
    /// Severity of the alerts the rule raises; "low" when absent.
    pub severity: Option<String>,
    /// Action the rule asks for; "alert" when absent.
    pub action: Option<String>,
    pub condition: RuleCondition,
}

/// What a rule looks for in traffic.
#[derive(Debug, Clone)]
pub enum RuleCondition {
    /// Every packet.
    MatchAll,
    /// Packets whose source address is one of `src_ips`.
    IpBlocklist { src_ips: Vec<String> },
    /// A source that reaches at least `threshold` distinct destination
    /// ports within `window_secs` seconds.
    PortScan { threshold: u32, window_secs: u64 },
    /// Identical source and destination ports, or a packet shorter than
    /// its IP header announces.
    ProtocolAnomaly,
}

/// The contents of a rules file.
#[derive(Debug, Clone)]
pub struct RuleFile {
    pub rules: Vec<Rule>,
}

/// What a condition says, with texts as character sequences.
pub enum ConditionView {
    MatchAll,
    IpBlocklist { src_ips: Seq<Seq<char>> },
    PortScan { threshold: u32, window_secs: u64 },
    ProtocolAnomaly,
}

/// What a rule says, with texts as character sequences.
pub struct RuleView {
    pub id: Seq<char>,
    pub name: Seq<char>,
    pub description: Seq<char>,
    pub severity: Option<Seq<char>>,
    pub action: Option<Seq<char>>,
    pub condition: ConditionView,
}

/// The characters of each string.
pub open spec fn texts(v: Seq<String>) -> Seq<Seq<char>> {
    v.map_values(|s: String| s@)
}

/// The characters of an optional string.
pub open spec fn opt_chars(s: Option<String>) -> Option<Seq<char>> {
    match s {
        Some(t) => Some(t@),
        None => None,
    }
}

impl View for RuleCondition {
    type V = ConditionView;

    open spec fn view(&self) -> ConditionView {
        match self {
            RuleCondition::MatchAll => ConditionView::MatchAll,
            RuleCondition::IpBlocklist { src_ips } => ConditionView::IpBlocklist { src_ips: texts(src_ips@) },
            RuleCondition::PortScan { threshold, window_secs } => ConditionView::PortScan {
                threshold: *threshold,
                window_secs: *window_secs,
            },
            RuleCondition::ProtocolAnomaly => ConditionView::ProtocolAnomaly,
        }
    }
}

impl View for Rule {
    type V = RuleView;

    open spec fn view(&self) -> RuleView {
        RuleView {
            id: self.id@,
            name: self.name@,
            description: self.description@,
            severity: opt_chars(self.severity),
            action: opt_chars(self.action),
            condition: self.condition@,
        }
    }
}

/// The views of a sequence of rules.
pub open spec fn rule_views(rules: Seq<Rule>) -> Seq<RuleView> {
    rules.map_values(|r: Rule| r@)
}

/// Distinct destination ports that a port-scan rule wants when its file
/// gives no `threshold`.
pub fn default_port_scan_threshold() -> (t: u32)
    ensures
        t == 15,
{
    15
}

/// Window of a port-scan rule when its file gives no `window_secs`.
pub fn default_port_scan_window_secs() -> (w: u64)
    ensures
        w == 10,
{
    10
}

impl Default for RuleCondition {
    fn default() -> (c: Self)
        ensures
            c@ == ConditionView::MatchAll,
    {
        RuleCondition::MatchAll
    }
}

impl Default for Rule {
    fn default() -> (r: Self)
        ensures
            r@ == (RuleView {
                id: Seq::empty(),
                name: Seq::empty(),
                description: Seq::empty(),
                severity: None,
                action: None,
                condition: ConditionView::MatchAll,
            }),
    {
        Rule {
            id: String::new(),
            name: String::new(),
            description: String::new(),
            severity: None,
            action: None,
            condition: RuleCondition::MatchAll,
        }
    }
}

impl Default for RuleFile {
    fn default() -> (f: Self)
        ensures
            f.rules@.len() == 0,
    {
        RuleFile { rules: Vec::new() }
    }
}

} // verus!
