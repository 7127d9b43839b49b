//! The stage stepper above a run's log: which stages it draws, and how each
//! node and each link between them reads for the run's state.

use vstd::prelude::*;
use crate::state::{ScriptState, ScriptStatus};
use crate::steps::{chain_spec, find_id, StepCatalog, StepDef};
use crate::text::str_eq;

verus! {

/// How one node of the stepper reads.
#[derive(Clone, Copy, PartialEq, Eq, Debug, Structural)]
pub enum NodeState {
    Completed,
    Active,
    Failed,
    /// The run stands on a branch off the chain (quarantine or rejected).
    Zone,
    Pending,
}

/// One stage on the stepper.
#[derive(Clone, PartialEq, Eq, Debug)]
pub struct Node {
    pub id: String,
    pub state: NodeState,
    /// The stage the run stands on, drawn larger.
    pub current: bool,
}

/// The line between two neighbouring stages.
#[derive(Clone, Copy, PartialEq, Eq, Debug, Structural)]
pub struct Link {
    pub done: bool,
    /// The one segment being travelled while the run is going.
    pub in_flight: bool,
}

/// Everything the stepper draws.
#[derive(Clone, PartialEq, Eq, Debug)]
pub struct Stepper {
    pub nodes: Vec<Node>,
    /// `links[i]` joins `nodes[i]` and `nodes[i + 1]`.
    pub links: Vec<Link>,
    /// The branch the run stands on, drawn after the chain.
    pub zone: Option<Node>,
}

pub open spec fn ids(steps: Seq<StepDef>) -> Seq<Seq<char>> {
    steps.map_values(|s: StepDef| s.id@)
}

/// The chain's stages a script declares, in chain order.
pub open spec fn kept(chain: Seq<Seq<char>>, declared: Seq<Seq<char>>) -> Seq<Seq<char>>
    decreases chain.len(),
{
    if chain.len() == 0 {
        seq![]
    } else {
        kept(chain.drop_last(), declared) + if declared.contains(chain.last()) {
            seq![chain.last()]
        } else {
            seq![]
        }
    }
}

/// The stages drawn: the ones the script declares, or the whole chain when
/// it declares none of the chain's (or does not declare).
pub open spec fn drawn(catalog: StepCatalog, declared: Option<Seq<Seq<char>>>) -> Seq<Seq<char>> {
    let chain = ids(chain_spec(catalog.steps@));
    match declared {
        Some(d) => if kept(chain, d).len() > 0 {
            kept(chain, d)
        } else {
            chain
        },
        None => chain,
    }
}

/// Where a stage first stands in a list.
pub open spec fn index_in(s: Seq<Seq<char>>, x: Seq<char>) -> Option<int>
    decreases s.len(),
{
    if s.len() == 0 {
        None
    } else if s[0] == x {
        Some(0)
    } else {
        match index_in(s.drop_first(), x) {
            Some(i) => Some(i + 1),
            None => None,
        }
    }
}

/// The node the run stands on: its active stage, else the last when it
/// succeeded, else the first.
pub open spec fn current_index(d: Seq<Seq<char>>, active: Option<Seq<char>>, succeeded: bool) -> int {
    match active {
        Some(a) => match index_in(d, a) {
            Some(i) => i,
            None => 0,
        },
        None => if succeeded && d.len() > 0 {
            d.len() - 1
        } else {
            0
        },
    }
}

/// The run stands on a branch: its active stage is a step off the chain.
pub open spec fn on_branch(catalog: StepCatalog, active: Option<Seq<char>>) -> bool {
    match active {
        Some(a) => match find_id(catalog.steps@, a) {
            Some(k) => !catalog.steps@[k].on_chain,
            None => false,
        },
        None => false,
    }
}

pub open spec fn running(s: ScriptStatus) -> bool {
    s is Running
}

pub open spec fn succeeded(s: ScriptStatus) -> bool {
    s is Succeeded
}

pub open spec fn failed(s: ScriptStatus) -> bool {
    s is Failed || s is AppError
}

pub open spec fn active_of(run: ScriptState) -> Option<Seq<char>> {
    match run.active_step {
        Some(a) => Some(a@),
        None => None,
    }
}

pub open spec fn history_of(run: ScriptState) -> Seq<Seq<char>> {
    run.step_history@.map_values(|s: String| s@)
}

/// How the node of a stage reads.
pub open spec fn node_state(
    catalog: StepCatalog,
    run: ScriptState,
    step: Seq<char>,
    idx: int,
    current: int,
) -> NodeState {
    if active_of(run) == Some(step) {
        if failed(run.status) {
            NodeState::Failed
        } else if succeeded(run.status) {
            NodeState::Completed
        } else if on_branch(catalog, active_of(run)) {
            NodeState::Zone
        } else {
            NodeState::Active
        }
    } else if history_of(run).contains(step) || idx < current || succeeded(run.status) {
        NodeState::Completed
    } else {
        NodeState::Pending
    }
}

/// The stepper for a run, with the stages a script declares.
pub open spec fn stepper_ok(s: Stepper, catalog: StepCatalog, declared: Option<Seq<Seq<char>>>, run: ScriptState) -> bool {
    let d = drawn(catalog, declared);
    let cur = current_index(d, active_of(run), succeeded(run.status));
    let zone = on_branch(catalog, active_of(run));
    &&& s.nodes@.len() == d.len()
    &&& forall|i: int|
        0 <= i < d.len() ==> {
            &&& (#[trigger] s.nodes@[i]).id@ == d[i]
            &&& s.nodes@[i].state == node_state(catalog, run, d[i], i, cur)
            &&& s.nodes@[i].current == (!zone && i == cur)
        }
    &&& s.links@.len() == if d.len() > 0 {
        d.len() - 1
    } else {
        0
    }
    &&& forall|i: int|
        0 <= i < s.links@.len() ==> {
            let done = i + 1 <= cur || history_of(run).contains(d[i + 1]) || succeeded(run.status);
            &&& (#[trigger] s.links@[i]).done == done
            &&& s.links@[i].in_flight == (running(run.status) && !done && i == cur)
        }
    &&& if zone {
        s.zone matches Some(z) && z.id@ == active_of(run)->0 && z.state == node_state(
            catalog,
            run,
            active_of(run)->0,
            d.len() as int,
            cur,
        ) && z.current
    } else {
        s.zone is None
    }
}

fn contains_str(v: &[String], x: &str) -> (b: bool)
    ensures
        b == v@.map_values(|s: String| s@).contains(x@),
{
    let ghost all = v@.map_values(|s: String| s@);
    let mut i: usize = 0;
    while i < v.len()
        invariant
            i <= v@.len(),
            all == v@.map_values(|s: String| s@),
            forall|j: int| 0 <= j < i ==> all[j] != x@,
        decreases v@.len() - i,
    {
        if str_eq(v[i].as_str(), x) {
            proof {
                assert(all[i as int] == x@);
            }
            return true;
        }
        i += 1;
    }
    proof {
        if all.contains(x@) {
            let j = choose|j: int| 0 <= j < all.len() && #[trigger] all[j] == x@;
        }
    }
    false
}

fn drawn_of(catalog: &StepCatalog, declared: Option<&[String]>) -> (r: Vec<String>)
    ensures
        r@.map_values(|s: String| s@) == drawn(
            *catalog,
            match declared {
                Some(d) => Some(d@.map_values(|s: String| s@)),
                None => None,
            },
        ),
{
    let chain = catalog.chain();
    let ghost c = ids(chain_spec(catalog.steps@));
    let mut all: Vec<String> = Vec::new();
    let mut i: usize = 0;
    while i < chain.len()
        invariant
            i <= chain@.len(),
            chain@.map_values(|s: &StepDef| *s) == chain_spec(catalog.steps@),
            c == ids(chain_spec(catalog.steps@)),
            all@.map_values(|s: String| s@) == c.take(i as int),
        decreases chain@.len() - i,
    {
        proof {
            assert(chain@.map_values(|s: &StepDef| *s)[i as int] == chain@[i as int]);
            assert(c[i as int] == chain_spec(catalog.steps@)[i as int].id@);
        }
        let ghost before = all@;
        let id = chain[i].id.clone();
        all.push(id);
        proof {
            assert(all@.map_values(|s: String| s@) =~= before.map_values(|s: String| s@).push(c[i as int]));
        }
        proof {
            assert(all@.map_values(|s: String| s@) =~= c.take(i + 1));
        }
        i += 1;
    }
    proof {
        assert(chain@.len() == c.len());
        assert(c.take(i as int) =~= c);
    }
    match declared {
        None => all,
        Some(d) => {
            let ghost dv = d@.map_values(|s: String| s@);
            let mut picked: Vec<String> = Vec::new();
            let mut j: usize = 0;
            while j < all.len()
                invariant
                    j <= all@.len(),
                    all@.map_values(|s: String| s@) == c,
                    d@.map_values(|s: String| s@) == dv,
                    picked@.map_values(|s: String| s@) == kept(c.take(j as int), dv),
                decreases all@.len() - j,
            {
                proof {
                    assert(c.take(j + 1).drop_last() =~= c.take(j as int));
                    assert(c.take(j + 1).last() == all@[j as int]@);
                }
                if contains_str(d, all[j].as_str()) {
                    picked.push(all[j].clone());
                }
                proof {
                    assert(picked@.map_values(|s: String| s@) =~= kept(c.take(j + 1), dv));
                }
                j += 1;
            }
            proof {
                assert(c.take(j as int) =~= c);
            }
            if picked.len() > 0 {
                picked
            } else {
                all
            }
        },
    }
}

fn index_of(d: &Vec<String>, x: &str) -> (r: Option<usize>)
    ensures
        match r {
            Some(i) => index_in(d@.map_values(|s: String| s@), x@) == Some(i as int),
            None => index_in(d@.map_values(|s: String| s@), x@) is None,
        },
{
    let ghost all = d@.map_values(|s: String| s@);
    let mut i: usize = 0;
    proof {
        assert(all.skip(0) =~= all);
    }
    while i < d.len()
        invariant
            i <= d@.len(),
            all == d@.map_values(|s: String| s@),
            index_in(all, x@) == match index_in(all.skip(i as int), x@) {
                Some(k) => Some(k + i),
                None => None,
            },
        decreases d@.len() - i,
    {
        proof {
            assert(all.skip(i as int).drop_first() =~= all.skip(i + 1));
            assert(all.skip(i as int)[0] == all[i as int]);
        }
        if str_eq(d[i].as_str(), x) {
            return Some(i);
        }
        i += 1;
    }
    None
}

/// The stepper for a run, with the stages a script declares.
pub fn stepper(catalog: &StepCatalog, declared: Option<&[String]>, run: &ScriptState) -> (s: Stepper)
    ensures
        stepper_ok(
            s,
            *catalog,
            match declared {
                Some(d) => Some(d@.map_values(|x: String| x@)),
                None => None,
            },
            *run,
        ),
{
    let ghost dv: Option<Seq<Seq<char>>> = match declared {
        Some(d) => Some(d@.map_values(|x: String| x@)),
        None => None,
    };
    let d = drawn_of(catalog, declared);
    let ghost dd = drawn(*catalog, dv);
    let is_running = match run.status {
        ScriptStatus::Running => true,
        _ => false,
    };
    let is_succeeded = match run.status {
        ScriptStatus::Succeeded => true,
        _ => false,
    };
    let is_failed = match run.status {
        ScriptStatus::Failed(_) | ScriptStatus::AppError(_) => true,
        _ => false,
    };
    let cur: usize = match &run.active_step {
        Some(a) => match index_of(&d, a.as_str()) {
            Some(i) => i,
            None => 0,
        },
        None => if is_succeeded && d.len() > 0 {
            d.len() - 1
        } else {
            0
        },
    };
    let zone = match &run.active_step {
        Some(a) => match catalog.get(a.as_str()) {
            Some(s) => !s.on_chain,
            None => false,
        },
        None => false,
    };
    let mut nodes: Vec<Node> = Vec::new();
    let mut i: usize = 0;
    while i < d.len()
        invariant
            i <= d@.len(),
            d@.map_values(|s: String| s@) == dd,
            dd == drawn(*catalog, dv),
            cur == current_index(dd, active_of(*run), succeeded(run.status)),
            zone == on_branch(*catalog, active_of(*run)),
            is_failed == failed(run.status),
            is_succeeded == succeeded(run.status),
            nodes@.len() == i,
            forall|j: int|
                0 <= j < i ==> {
                    &&& (#[trigger] nodes@[j]).id@ == dd[j]
                    &&& nodes@[j].state == node_state(*catalog, *run, dd[j], j, cur as int)
                    &&& nodes@[j].current == (!zone && j == cur)
                },
        decreases d@.len() - i,
    {
        proof {
            assert(d@.map_values(|s: String| s@)[i as int] == d@[i as int]@);
        }
        let state = node_state_of(catalog, run, d[i].as_str(), i, cur, zone, is_failed, is_succeeded);
        nodes.push(Node { id: d[i].clone(), state, current: !zone && i == cur });
        i += 1;
    }
    let mut links: Vec<Link> = Vec::new();
    let mut k: usize = 0;
    let count = if d.len() > 0 {
        d.len() - 1
    } else {
        0
    };
    while k < count
        invariant
            k <= count,
            count == if d@.len() > 0 { d@.len() - 1 } else { 0 },
            d@.map_values(|s: String| s@) == dd,
            cur == current_index(dd, active_of(*run), succeeded(run.status)),
            is_running == running(run.status),
            is_succeeded == succeeded(run.status),
            links@.len() == k,
            forall|j: int|
                0 <= j < k ==> {
                    let done = j + 1 <= cur || history_of(*run).contains(dd[j + 1]) || succeeded(run.status);
                    &&& (#[trigger] links@[j]).done == done
                    &&& links@[j].in_flight == (running(run.status) && !done && j == cur)
                },
        decreases count - k,
    {
        proof {
            assert(d@.map_values(|s: String| s@)[k + 1] == d@[k + 1]@);
        }
        let done = k + 1 <= cur || contains_str(run.step_history.as_slice(), d[k + 1].as_str()) || is_succeeded;
        links.push(Link { done, in_flight: is_running && !done && k == cur });
        k += 1;
    }
    let zone_node = if zone {
        match &run.active_step {
            Some(a) => Some(
                Node {
                    id: a.clone(),
                    state: node_state_of(catalog, run, a.as_str(), d.len(), cur, zone, is_failed, is_succeeded),
                    current: true,
                },
            ),
            None => None,
        }
    } else {
        None
    };
    Stepper { nodes, links, zone: zone_node }
}

fn node_state_of(
    catalog: &StepCatalog,
    run: &ScriptState,
    step: &str,
    idx: usize,
    cur: usize,
    zone: bool,
    is_failed: bool,
    is_succeeded: bool,
) -> (r: NodeState)
    requires
        zone == on_branch(*catalog, active_of(*run)),
        is_failed == failed(run.status),
        is_succeeded == succeeded(run.status),
    ensures
        r == node_state(*catalog, *run, step@, idx as int, cur as int),
{
    let is_active = match &run.active_step {
        Some(a) => str_eq(a.as_str(), step),
        None => false,
    };
    if is_active {
        if is_failed {
            NodeState::Failed
        } else if is_succeeded {
            NodeState::Completed
        } else if zone {
            NodeState::Zone
        } else {
            NodeState::Active
        }
    } else if contains_str(run.step_history.as_slice(), step) || idx < cur || is_succeeded {
        NodeState::Completed
    } else {
        NodeState::Pending
    }
}

} // verus!
