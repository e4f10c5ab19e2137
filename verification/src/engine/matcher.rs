//! Evaluation of a single rule against a single packet.
use vstd::prelude::*;

use crate::parser::ParsedPacket;
use crate::parser::PacketView;
use crate::rules::{condition_holds, matches_condition, ConditionView, Rule, RuleCondition, RuleView};

verus! {

/// The rule matches the packet on its own: port-scan rules never do, as
/// they need the engine's history.
pub open spec fn rule_matches(rule: RuleView, packet: PacketView) -> bool {
    match rule.condition {
        ConditionView::PortScan { .. } => false,
        _ => condition_holds(rule.condition, packet),
    }
}

/// Whether `rule` matches `packet` without any history.
pub fn matches(rule: &Rule, packet: &ParsedPacket) -> (b: bool)
    ensures
        b == rule_matches(rule@, packet@),
{
    match rule.condition {
        RuleCondition::PortScan { .. } => false,
        _ => matches_condition(&rule.condition, packet),
    }
}

} // verus!
