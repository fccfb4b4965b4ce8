//! The scenario graph model: nodes keyed by identifier, choices between them,
//! traversal state, and the pure transition and query logic over them.
use crate::strutil::chars_to_string;
use crate::strutil::str_eq;
use vstd::prelude::*;
use vstd::string::StrSliceExecFns;

verus! {

/// Why a traversal step was rejected. The state is left unchanged in either
/// case.
#[derive(Debug, Clone, Copy, PartialEq, Eq, Structural)]
pub enum TransitionError {
    /// The current identifier resolves to no node of the scenario.
    NodeNotFound,
    /// The chosen index is not below the resolved node's choice count.
    InvalidChoiceIndex,
}

/// One outgoing choice of a node: a display label and the identifier of the
/// node the choice leads to.
#[derive(Debug)]
pub struct Choice {
    pub label: String,
    pub to: String,
}

/// An ending tag, present on nodes that are canonical terminal outcomes.
#[derive(Debug)]
pub struct Ending {
    pub tag: String,
}

/// One narrative beat: display text, an optional background override, zero or
/// two outgoing choices, and an optional ending tag.
#[derive(Debug)]
pub struct Node {
    pub id: String,
    pub text: String,
    pub bg: Option<String>,
    pub choices: Vec<Choice>,
    pub ending: Option<Ending>,
}

/// Scenario-wide metadata.
#[derive(Debug)]
pub struct Meta {
    pub title: String,
    pub depth: usize,
    pub default_background: String,
    pub rain_bgm: String,
    pub font: String,
}

/// A whole scenario definition: metadata plus the flat node list in authored
/// order.
#[derive(Debug)]
pub struct Scenario {
    pub meta: Meta,
    pub nodes: Vec<Node>,
}

/// The player's position: current node identifier, its depth, and the ordered
/// history of identifiers visited since the session began.
#[derive(Debug)]
pub struct Current {
    pub id: String,
    pub depth: usize,
    pub trail: Vec<String>,
}

/// Mathematical model of a `Choice`.
pub ghost struct ChoiceV {
    pub label: Seq<char>,
    pub to: Seq<char>,
}

/// Mathematical model of a `Node`.
pub ghost struct NodeV {
    pub id: Seq<char>,
    pub text: Seq<char>,
    pub bg: Option<Seq<char>>,
    pub choices: Seq<ChoiceV>,
    pub ending: Option<Seq<char>>,
}

/// Mathematical model of the scenario metadata.
pub ghost struct MetaV {
    pub title: Seq<char>,
    pub depth: int,
    pub default_background: Seq<char>,
    pub rain_bgm: Seq<char>,
    pub font: Seq<char>,
}

/// Mathematical model of a traversal state.
pub ghost struct StateV {
    pub id: Seq<char>,
    pub depth: int,
    pub trail: Seq<Seq<char>>,
}

impl View for Choice {
    type V = ChoiceV;

    open spec fn view(&self) -> ChoiceV {
        ChoiceV { label: self.label@, to: self.to@ }
    }
}

impl View for Node {
    type V = NodeV;

    open spec fn view(&self) -> NodeV {
        NodeV {
            id: self.id@,
            text: self.text@,
            bg: match self.bg {
                Some(b) => Some(b@),
                None => None,
            },
            choices: self.choices@.map_values(|c: Choice| c@),
            ending: match self.ending {
                Some(e) => Some(e.tag@),
                None => None,
            },
        }
    }
}

impl View for Meta {
    type V = MetaV;

    open spec fn view(&self) -> MetaV {
        MetaV {
            title: self.title@,
            depth: self.depth as int,
            default_background: self.default_background@,
            rain_bgm: self.rain_bgm@,
            font: self.font@,
        }
    }
}

impl View for Current {
    type V = StateV;

    open spec fn view(&self) -> StateV {
        StateV { id: self.id@, depth: self.depth as int, trail: self.trail.deep_view() }
    }
}

impl Clone for Current {
    /// Cloning a traversal state preserves its whole model.
    fn clone(&self) -> (r: Self)
        ensures
            r@ == self@,
    {
        Current { id: self.id.clone(), depth: self.depth, trail: clone_strings(&self.trail) }
    }
}

impl Default for Current {
    /// The fresh state of a new session: at the root, depth zero, a trail
    /// holding only the root identifier.
    fn default() -> (r: Current)
        ensures
            r@ == fresh_state(),
    {
        proof {
            reveal_strlit("R");
        }
        let id = String::from_str("R");
        let mut trail: Vec<String> = Vec::new();
        trail.push(String::from_str("R"));
        proof {
            assert(id@ =~= root_id());
            assert(trail.deep_view() =~~= seq![root_id()]);
        }
        Current { id, depth: 0, trail }
    }
}

/// The root node identifier, a single fixed symbol.
pub open spec fn root_id() -> Seq<char> {
    seq!['R']
}

/// The state every new session starts from.
pub open spec fn fresh_state() -> StateV {
    StateV { id: root_id(), depth: 0, trail: seq![root_id()] }
}

/// Clone a vector of strings, preserving the sequence of their contents.
pub fn clone_strings(v: &Vec<String>) -> (r: Vec<String>)
    ensures
        r.deep_view() == v.deep_view(),
{
    let mut r: Vec<String> = Vec::new();
    let mut i: usize = 0;
    while i < v.len()
        invariant
            i <= v.len(),
            r.len() == i,
            r.deep_view() =~= v.deep_view().take(i as int),
        decreases v.len() - i,
    {
        r.push(v[i].clone());
        i += 1;
        proof {
            assert(r.deep_view() =~= v.deep_view().take(i as int));
        }
    }
    assert(v.deep_view().take(v.len() as int) =~= v.deep_view());
    r
}

/// The node a given identifier resolves to: the last node of the authored
/// list bearing that identifier, later definitions shadowing earlier ones.
pub open spec fn lookup_nodes(nodes: Seq<NodeV>, id: Seq<char>) -> Option<NodeV>
    decreases nodes.len(),
{
    if nodes.len() == 0 {
        None
    } else if nodes.last().id == id {
        Some(nodes.last())
    } else {
        lookup_nodes(nodes.drop_last(), id)
    }
}

/// Whether some node of the list bears the given identifier.
pub open spec fn has_node(nodes: Seq<NodeV>, id: Seq<char>) -> bool {
    lookup_nodes(nodes, id) is Some
}

/// The depth an identifier encodes: its length less the root symbol.
pub open spec fn depth_of(id: Seq<char>) -> int
    recommends
        id.len() >= 1,
{
    if id.len() == 0 {
        0
    } else {
        id.len() - 1
    }
}

/// What a transition from state `st` by choice `choice_index` yields over a
/// given node list: the chosen target with its depth derived from the target
/// identifier and the trail extended by it, or the error that rejects the
/// step.
pub open spec fn transition_spec(nodes: Seq<NodeV>, st: StateV, choice_index: int) -> Result<
    StateV,
    TransitionError,
> {
    match lookup_nodes(nodes, st.id) {
        None => Err(TransitionError::NodeNotFound),
        Some(node) => {
            if choice_index >= node.choices.len() {
                Err(TransitionError::InvalidChoiceIndex)
            } else {
                let to = node.choices[choice_index].to;
                Ok(StateV { id: to, depth: depth_of(to), trail: st.trail.push(to) })
            }
        },
    }
}

/// A transition is pure: it is a function of the node list, the state, and
/// the chosen index alone, so two evaluations over identical inputs yield
/// identical outcomes. The executable `transition` returns exactly this value
/// and takes its state by shared reference, so the input state is never
/// touched.
pub proof fn lemma_transition_deterministic(
    nodes: Seq<NodeV>,
    st: StateV,
    choice_index: int,
    r1: Result<StateV, TransitionError>,
    r2: Result<StateV, TransitionError>,
)
    requires
        r1 == transition_spec(nodes, st, choice_index),
        r2 == transition_spec(nodes, st, choice_index),
    ensures
        r1 == r2,
{
}

/// After every successful transition the new state's depth is the length of
/// its identifier less one. An authored empty target identifier encodes no
/// depth at all and is the one input left out.
pub proof fn lemma_transition_depth(
    nodes: Seq<NodeV>,
    st: StateV,
    choice_index: int,
    st2: StateV,
)
    requires
        transition_spec(nodes, st, choice_index) == Ok::<StateV, TransitionError>(st2),
        st2.id.len() >= 1,
    ensures
        st2.depth == st2.id.len() - 1,
{
}

/// Whether state `st` is a canonical ending: its depth equals the scenario
/// depth and its node carries an ending tag.
pub open spec fn is_ending_spec(nodes: Seq<NodeV>, scenario_depth: int, st: StateV) -> bool {
    &&& st.depth == scenario_depth
    &&& lookup_nodes(nodes, st.id) matches Some(node) && node.ending is Some
}

/// The node an identifier is shown as: the exact match when there is one,
/// else the root node, else the first node in authored order.
pub open spec fn fallback_spec(nodes: Seq<NodeV>, id: Seq<char>) -> NodeV
    recommends
        nodes.len() > 0,
{
    match lookup_nodes(nodes, id) {
        Some(n) => n,
        None => match lookup_nodes(nodes, root_id()) {
            Some(root) => root,
            None => nodes[0],
        },
    }
}

/// Why a scenario definition was rejected at load time. A rejected scenario
/// is discarded in its entirety; there is no partial load.
#[derive(Debug)]
pub enum LoadError {
    /// The definition text is not a well-formed scenario document.
    Parse,
    /// Some node's choice names a target identifier that no node bears.
    InvalidReference { node_id: String, target: String },
}

/// Referential integrity: every choice target of every node resolves to a
/// node of the list.
pub open spec fn refs_ok(nodes: Seq<NodeV>) -> bool {
    forall|i: int, j: int|
        0 <= i < nodes.len() && 0 <= j < nodes[i].choices.len() ==> has_node(
            nodes,
            #[trigger] nodes[i].choices[j].to,
        )
}

/// The model of a node list.
pub open spec fn nodes_model(nodes: Seq<Node>) -> Seq<NodeV> {
    nodes.map_values(|n: Node| n@)
}

/// The number of canonical leaf identifiers of a scenario of depth `d`: one
/// per way of exhausting `d` binary choices from the root.
pub open spec fn leaf_count(d: nat) -> nat
    decreases d,
{
    if d == 0 {
        1nat
    } else {
        2 * leaf_count((d - 1) as nat)
    }
}

/// The binary suffix of length `d` encoding leaf index `i`, most significant
/// symbol first.
pub open spec fn bit_suffix(d: nat, i: nat) -> Seq<char>
    decreases d,
{
    if d == 0 {
        Seq::empty()
    } else {
        bit_suffix((d - 1) as nat, i / 2) + seq![
            if i % 2 == 0 {
                '0'
            } else {
                '1'
            },
        ]
    }
}

/// The canonical identifier of leaf `i` of a scenario of depth `d`: the root
/// symbol followed by the leaf's choice bits.
pub open spec fn canonical_id(d: nat, i: nat) -> Seq<char> {
    root_id() + bit_suffix(d, i)
}

/// Whether canonical leaf `i` of depth `d` resolves to an ending-tagged node.
pub open spec fn leaf_has_ending(nodes: Seq<NodeV>, d: nat, i: nat) -> bool {
    lookup_nodes(nodes, canonical_id(d, i)) matches Some(n) && n.ending is Some
}

/// The canonical identifiers, among the first `k` leaves of depth `d`, that
/// do not resolve to an ending-tagged node, in leaf order.
pub open spec fn missing_leaves(nodes: Seq<NodeV>, d: nat, k: nat) -> Seq<Seq<char>>
    decreases k,
{
    if k == 0 {
        Seq::empty()
    } else {
        missing_leaves(nodes, d, (k - 1) as nat) + if leaf_has_ending(nodes, d, (k - 1) as nat) {
            Seq::empty()
        } else {
            seq![canonical_id(d, (k - 1) as nat)]
        }
    }
}

/// Doubling per level never shrinks the leaf count.
proof fn lemma_leaf_count_monotone(a: nat, b: nat)
    requires
        a <= b,
    ensures
        leaf_count(a) <= leaf_count(b),
    decreases b,
{
    if a < b {
        lemma_leaf_count_monotone(a, (b - 1) as nat);
    }
}

/// Whether a scenario of the given depth has few enough canonical leaves for
/// its ending coverage to be surveyed at all.
pub fn can_survey(depth: usize) -> (r: bool)
    ensures
        r == (leaf_count(depth as nat) <= usize::MAX),
{
    let mut acc: usize = 1;
    let mut d: usize = 0;
    while d < depth
        invariant
            d <= depth,
            acc == leaf_count(d as nat),
        decreases depth - d,
    {
        if acc > usize::MAX / 2 {
            proof {
                lemma_leaf_count_monotone(d as nat + 1, depth as nat);
            }
            return false;
        }
        acc = acc * 2;
        d += 1;
    }
    true
}

/// Append the binary suffix of length `d` encoding leaf index `i`.
fn push_bits(chars: &mut Vec<char>, d: usize, i: usize)
    ensures
        final(chars)@ == old(chars)@ + bit_suffix(d as nat, i as nat),
    decreases d,
{
    if d > 0 {
        push_bits(chars, d - 1, i / 2);
        chars.push(
            if i % 2 == 0 {
                '0'
            } else {
                '1'
            },
        );
        proof {
            assert(chars@ =~= old(chars)@ + bit_suffix(d as nat, i as nat));
        }
    } else {
        proof {
            assert(chars@ =~= old(chars)@ + bit_suffix(0, i as nat));
        }
    }
}

/// Build the canonical identifier of leaf `index` of a scenario of depth
/// `depth`.
fn canonical_leaf_id(depth: usize, index: usize) -> (r: String)
    ensures
        r@ == canonical_id(depth as nat, index as nat),
{
    let mut chars: Vec<char> = Vec::new();
    chars.push('R');
    proof {
        assert(chars@ =~= root_id());
    }
    push_bits(&mut chars, depth, index);
    chars_to_string(&chars)
}

/// The ending-coverage report of a scenario: how many canonical leaves were
/// expected to carry an ending, how many do, and the canonical identifiers
/// that do not. Gaps are a lint signal for authors, never a load failure.
#[derive(Debug)]
pub struct EndingCoverage {
    pub expected: usize,
    pub found: usize,
    pub missing: Vec<String>,
}

/// A validated scenario: the definition together with the identifier-keyed
/// reading of its node list.
#[derive(Debug)]
pub struct ScenarioData {
    pub scenario: Scenario,
}

impl ScenarioData {
    /// The model of the node table: the authored nodes in order.
    pub open spec fn nodes_view(&self) -> Seq<NodeV> {
        nodes_model(self.scenario.nodes@)
    }

    /// Exact lookup of a node by identifier.
    pub fn get_node<'a>(&'a self, id: &str) -> (r: Option<&'a Node>)
        ensures
            match r {
                Some(n) => lookup_nodes(self.nodes_view(), id@) == Some(n@),
                None => lookup_nodes(self.nodes_view(), id@) is None,
            },
    {
        let ghost nv = self.nodes_view();
        let nodes = &self.scenario.nodes;
        let mut i: usize = nodes.len();
        proof {
            assert(nv.take(i as int) =~= nv);
        }
        while i > 0
            invariant
                i <= nodes.len(),
                nv == self.nodes_view(),
                nodes == &self.scenario.nodes,
                lookup_nodes(nv, id@) == lookup_nodes(nv.take(i as int), id@),
            decreases i,
        {
            i -= 1;
            proof {
                assert(nv.take(i as int + 1).drop_last() =~= nv.take(i as int));
                assert(nv.take(i as int + 1).last() == nv[i as int]);
                assert(nv[i as int] == nodes@[i as int]@);
            }
            if str_eq(nodes[i].id.as_str(), id) {
                return Some(&nodes[i]);
            }
        }
        proof {
            assert(lookup_nodes(nv.take(0), id@) is None);
        }
        None
    }

    /// Lookup with the display fallback chain: the exact node, else the root
    /// node, else the first node in authored order. An empty scenario is not
    /// a valid input, so a node always exists to fall back to.
    pub fn get_node_or_fallback<'a>(&'a self, id: &str) -> (r: &'a Node)
        requires
            self.scenario.nodes@.len() > 0,
        ensures
            r@ == fallback_spec(self.nodes_view(), id@),
    {
        if let Some(node) = self.get_node(id) {
            return node;
        }
        proof {
            reveal_strlit("R");
            assert("R"@ =~= root_id());
        }
        if let Some(root) = self.get_node("R") {
            return root;
        }
        proof {
            assert(self.nodes_view()[0] == self.scenario.nodes@[0]@);
        }
        &self.scenario.nodes[0]
    }

    /// Advance the traversal by the chosen index. Pure over its inputs: the
    /// result is the new state, with depth derived from the target identifier
    /// and the trail extended by it, and the given state is not touched.
    pub fn transition(&self, current: &Current, choice_index: usize) -> (r: Result<
        Current,
        TransitionError,
    >)
        ensures
            match r {
                Ok(c) => transition_spec(self.nodes_view(), current@, choice_index as int) == Ok::<
                    StateV,
                    TransitionError,
                >(c@),
                Err(e) => transition_spec(self.nodes_view(), current@, choice_index as int)
                    == Err::<StateV, TransitionError>(e),
            },
    {
        let node = match self.get_node(current.id.as_str()) {
            Some(n) => n,
            None => {
                return Err(TransitionError::NodeNotFound);
            },
        };
        if choice_index >= node.choices.len() {
            return Err(TransitionError::InvalidChoiceIndex);
        }
        let next_id = node.choices[choice_index].to.clone();
        let len = next_id.as_str().unicode_len();
        let new_depth: usize = if len >= 1 {
            len - 1
        } else {
            0
        };
        let mut new_trail = clone_strings(&current.trail);
        new_trail.push(next_id.clone());
        let c = Current { id: next_id, depth: new_depth, trail: new_trail };
        proof {
            let to = lookup_nodes(self.nodes_view(), current@.id).unwrap().choices[
                choice_index as int
            ].to;
            assert(c@.trail =~= current@.trail.push(to));
        }
        Ok(c)
    }

    /// Check referential integrity of the whole node list: succeeds exactly
    /// when every choice target of every node resolves to a node, and a
    /// failure names an actual broken reference.
    pub fn validate(&self) -> (r: Result<(), LoadError>)
        ensures
            r is Ok <==> refs_ok(self.nodes_view()),
            r matches Err(e) ==> e matches LoadError::InvalidReference { node_id, target }
                && exists|a: int, b: int|
                0 <= a < self.nodes_view().len() && 0 <= b
                    < self.nodes_view()[a].choices.len() && !has_node(
                    self.nodes_view(),
                    self.nodes_view()[a].choices[b].to,
                ) && self.nodes_view()[a].id == node_id@ && self.nodes_view()[a].choices[b].to
                == target@,
    {
        let ghost nv = self.nodes_view();
        let nodes = &self.scenario.nodes;
        let mut i: usize = 0;
        while i < nodes.len()
            invariant
                i <= nodes.len(),
                nv == self.nodes_view(),
                nodes == &self.scenario.nodes,
                forall|a: int, b: int|
                    0 <= a < i && 0 <= b < nv[a].choices.len() ==> has_node(
                        nv,
                        #[trigger] nv[a].choices[b].to,
                    ),
            decreases nodes.len() - i,
        {
            let node = &nodes[i];
            proof {
                assert(nv[i as int] == nodes@[i as int]@);
            }
            let mut j: usize = 0;
            while j < node.choices.len()
                invariant
                    j <= node.choices.len(),
                    i < nodes.len(),
                    nv == self.nodes_view(),
                    0 <= i < nv.len(),
                    nv[i as int] == node@,
                    forall|b: int|
                        0 <= b < j ==> has_node(nv, #[trigger] nv[i as int].choices[b].to),
                decreases node.choices.len() - j,
            {
                let target = &node.choices[j].to;
                proof {
                    assert(nv[i as int].choices[j as int] == node.choices@[j as int]@);
                }
                if self.get_node(target.as_str()).is_none() {
                    proof {
                        let a = i as int;
                        let b = j as int;
                        assert(nv[a].choices[b].to == target@);
                        assert(!has_node(nv, nv[a].choices[b].to));
                        assert(!refs_ok(nv));
                    }
                    return Err(
                        LoadError::InvalidReference {
                            node_id: node.id.clone(),
                            target: target.clone(),
                        },
                    );
                }
                j += 1;
            }
            i += 1;
        }
        Ok(())
    }

    /// Build a validated scenario store from a parsed definition: succeeds
    /// exactly when the definition has referential integrity, and rejects it
    /// in its entirety otherwise.
    pub fn from_scenario(scenario: Scenario) -> (r: Result<ScenarioData, LoadError>)
        ensures
            match r {
                Ok(sd) => sd.scenario == scenario && refs_ok(nodes_model(scenario.nodes@)),
                Err(e) => !refs_ok(nodes_model(scenario.nodes@)) && e matches LoadError::InvalidReference { .. },
            },
    {
        let sd = ScenarioData { scenario };
        match sd.validate() {
            Ok(()) => Ok(sd),
            Err(e) => Err(e),
        }
    }

    /// Survey ending coverage: every canonical leaf identifier should resolve
    /// to an ending-tagged node. The report lists the leaves that do not; it
    /// never alters the scenario. The leaf count of the scenario's depth must
    /// be representable to be surveyed at all.
    pub fn ending_coverage(&self) -> (r: EndingCoverage)
        requires
            leaf_count(self.scenario.meta.depth as nat) <= usize::MAX,
        ensures
            r.expected == leaf_count(self.scenario.meta.depth as nat),
            r.missing.deep_view() == missing_leaves(
                self.nodes_view(),
                self.scenario.meta.depth as nat,
                leaf_count(self.scenario.meta.depth as nat),
            ),
            r.found + r.missing@.len() == r.expected,
    {
        let ghost nv = self.nodes_view();
        let depth = self.scenario.meta.depth;
        let mut expected: usize = 1;
        let mut d: usize = 0;
        while d < depth
            invariant
                d <= depth,
                expected == leaf_count(d as nat),
                leaf_count(depth as nat) <= usize::MAX,
            decreases depth - d,
        {
            proof {
                lemma_leaf_count_monotone(d as nat + 1, depth as nat);
            }
            expected = expected * 2;
            d += 1;
        }
        let mut found: usize = 0;
        let mut missing: Vec<String> = Vec::new();
        let mut i: usize = 0;
        while i < expected
            invariant
                i <= expected,
                nv == self.nodes_view(),
                depth == self.scenario.meta.depth,
                expected == leaf_count(depth as nat),
                missing.deep_view() == missing_leaves(nv, depth as nat, i as nat),
                found + missing@.len() == i,
            decreases expected - i,
        {
            let id = canonical_leaf_id(depth, i);
            let mut tagged = false;
            if let Some(node) = self.get_node(id.as_str()) {
                if node.ending.is_some() {
                    tagged = true;
                }
            }
            if tagged {
                found += 1;
            } else {
                missing.push(id);
            }
            i += 1;
            proof {
                assert(missing.deep_view() =~= missing_leaves(nv, depth as nat, i as nat));
            }
        }
        EndingCoverage { expected, found, missing }
    }

    /// Whether the given state is a canonical ending of this scenario.
    pub fn is_ending(&self, current: &Current) -> (r: bool)
        ensures
            r == is_ending_spec(self.nodes_view(), self.scenario.meta.depth as int, current@),
    {
        if current.depth == self.scenario.meta.depth {
            if let Some(node) = self.get_node(current.id.as_str()) {
                return node.ending.is_some();
            }
        }
        false
    }
}

} // verus!

