//! Hardware flow steering: the rule table that pins each TCP source port to
//! one NIC receive queue, and with it each flow to one worker. The rules are
//! computed here; installing them is the driver's job.

use vstd::prelude::*;

verus! {

/// How many source-port rules are installed.
pub const FLOW_RULE_COUNT: u16 = 128;

/// One steering rule: segments whose TCP source port is `src_port` (matched
/// under a full mask) go to receive queue `queue`.
#[derive(Clone, Copy, Debug, PartialEq, Eq, Structural)]
pub struct FlowRule {
    pub src_port: u16,
    pub queue: u16,
}

/// The queue that the rule table steers source port `p` to: rule `p - 1`.
pub open spec fn spec_worker_for_port(p: u16, nr_queues: u16) -> u16 {
    (((p - 1) as u16) % nr_queues) as u16
}

/// The worker that handles source port `p` under `nr_queues` queues:
/// `(p − 1) mod nr_queues`.
pub fn worker_for_port(p: u16, nr_queues: u16) -> (r: u16)
    requires
        p >= 1,
        nr_queues >= 1,
    ensures
        r == spec_worker_for_port(p, nr_queues),
{
    (p - 1) % nr_queues
}

/// The rule table for `nr_queues` receive queues: rule `i` matches source
/// port `i + 1` and steers it to queue `i mod nr_queues`.
pub fn build_flow_rules(nr_queues: u16) -> (r: Vec<FlowRule>)
    requires
        nr_queues >= 1,
    ensures
        r@.len() == FLOW_RULE_COUNT,
        forall|i: int| 0 <= i < r@.len() ==> (#[trigger] r@[i]).src_port == i + 1
            && r@[i].queue == i % (nr_queues as int),
{
    let mut rules: Vec<FlowRule> = Vec::new();
    let mut i: u16 = 0;
    while i < FLOW_RULE_COUNT
        invariant
            i <= FLOW_RULE_COUNT,
            nr_queues >= 1,
            rules@.len() == i,
            forall|j: int| 0 <= j < i ==> (#[trigger] rules@[j]).src_port == j + 1
                && rules@[j].queue == j % (nr_queues as int),
        decreases FLOW_RULE_COUNT - i,
    {
        rules.push(FlowRule { src_port: i + 1, queue: i % nr_queues });
        i = i + 1;
    }
    rules
}

/// Flow affinity: with `nr_queues` workers, every segment whose source port
/// is `p` (for the ports the rule table covers) matches rule `p − 1` and
/// lands on worker `(p − 1) mod nr_queues`.
pub proof fn lemma_flow_affinity(rules: Seq<FlowRule>, p: u16, nr_queues: u16)
    requires
        1 <= nr_queues,
        1 <= p <= FLOW_RULE_COUNT,
        rules.len() == FLOW_RULE_COUNT,
        forall|i: int| 0 <= i < rules.len() ==> (#[trigger] rules[i]).src_port == i + 1
            && rules[i].queue == i % (nr_queues as int),
    ensures
        rules[p - 1].src_port == p,
        rules[p - 1].queue == spec_worker_for_port(p, nr_queues),
{
    assert(rules[p - 1].src_port == p);
}

} // verus!
