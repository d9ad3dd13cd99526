//! Search for a morphism of a given type in the graph whose edges are the morphisms of a
//! base.  The nodes of a search are kept in one vector; a node refers to its predecessor
//! by its index there.

use vstd::prelude::*;
use crate::term::TypeTerm;
use crate::context::ContextPtr;
use crate::morphism::MorphismType;
use crate::substitution::HashMapSubst;
use crate::instance::{Morphism, MorphismInstance, spec_copied, opt_morph_view, spec_inst_type};
use crate::morphism::MorphTypeV;
use crate::term::EntryV;
use crate::term_ops::spec_unit;
use crate::term::{TermV, FieldV, StructMember, EnumVariant, opt_view, copy_opt, lemma_members_view_push, lemma_variants_view_push, members_view, variants_view};
use crate::semantics::{spec_normalize, ladder2};
use crate::pnf::{ladder2_exec, opt_term_view};
use crate::substitution::spec_apply;
use crate::context::ctx_subst;
use crate::constraint_system::STEP_BUDGET;
use crate::heuristic::spec_cost;
use crate::substitution::subst_view;
use crate::context::spec_enter;
use crate::term_ops::spec_floor;
use crate::semantics::spec_saturate;
use crate::constraint_system::{saturate_f, copy_subst};
use crate::instance::append_subst;
use crate::base::{MorphismBase, DecomposedMorphismType, same_subst, copy_named_types, DecompV, named_types_view, spec_decomp_trivial};
use crate::context::{CtxV, ctx_lookup};
use crate::constraint_system::subtype_unify_f;
use crate::term_ops::spec_is_empty;
use crate::instance::spec_all_copied;
use crate::semantics::spec_subtype_unify;
use crate::base::{spec_decomposition, spec_enum_from, spec_enum_complex, lemma_enum_from_len, lemma_enum_complex_len};

verus! {

/// How a node advances over its predecessor: the start of a path, a morphism of the base,
/// or a map over the items, members or variants of a type, each with a search of its own.
#[verifier::reject_recursive_types(M)]
pub enum Step<M: Morphism + Clone> {
    Id { tau: TypeTerm },
    Prim { sigmas: HashMapSubst, m: M },
    MapSeq { seq_repr: Option<Box<TypeTerm>>, item: GraphSearch<M> },
    MapStruct { struct_repr: Option<Box<TypeTerm>>, members: Vec<(String, GraphSearch<M>)> },
    MapEnum { enum_repr: Option<Box<TypeTerm>>, variants: Vec<(String, GraphSearch<M>)> },
}

/// A step whose searches are solved.
#[verifier::reject_recursive_types(M)]
pub enum SolvedStep<M: Morphism + Clone> {
    Id { tau: TypeTerm },
    Prim { sigmas: HashMapSubst, m: M },
    MapSeq { seq_repr: Option<Box<TypeTerm>>, item: MorphismInstance<M> },
    MapStruct { struct_repr: Option<Box<TypeTerm>>, members: Vec<(String, MorphismInstance<M>)> },
    MapEnum { enum_repr: Option<Box<TypeTerm>>, variants: Vec<(String, MorphismInstance<M>)> },
}

/// A partial path of a search.
#[verifier::reject_recursive_types(M)]
pub struct SearchNode<M: Morphism + Clone> {
    pub id: u64,
    /// The index of the predecessor among the nodes of the search.
    pub pred: Option<usize>,
    /// The measured weight of the preceding path.
    pub weight: u64,
    /// The estimated weight that remains to complete the path.
    pub est_remain: u64,
    pub ctx: ContextPtr,
    pub ty: MorphismType,
    /// The advancement over the predecessor.
    pub step: Step<M>,
    /// The halo: the rungs above the type that the path converts.
    pub psi: TypeTerm,
}

/// A node of a search, by its index among the search's nodes.
pub struct SearchNodePtr(pub usize);

/// A search for a morphism of type `goal`.
#[verifier::reject_recursive_types(M)]
pub struct GraphSearch<M: Morphism + Clone> {
    gamma: ContextPtr,
    goal: MorphismType,
    solution: Option<MorphismInstance<M>>,
    nodes: Vec<SearchNode<M>>,
    explore_queue: Vec<SearchNodePtr>,
    history: Vec<SearchNodePtr>,
    id_count: u64,
}

/// Where a search stands after one step.
#[verifier::reject_recursive_types(M)]
pub enum GraphSearchState<M: Morphism + Clone> {
    Solved(MorphismInstance<M>),
    Continue,
    Failed(GraphSearchError),
}

/// Why a search failed.
#[derive(PartialEq, Eq, Debug)]
pub enum GraphSearchError {
    NoMorphismFound,
}

//------------------------------------------------------------------
// Weights
//------------------------------------------------------------------

/// `a + b`, or `u64::MAX` where that does not fit.
pub open spec fn sat_add(a: u64, b: u64) -> u64 {
    if a + b > u64::MAX { u64::MAX } else { (a + b) as u64 }
}

/// The weight of a step: none for the start, ten for a morphism, and the weights of
/// the best paths of its searches for a map (summed over members, the largest over
/// variants).
pub open spec fn spec_step_weight<M: Morphism + Clone>(s: Step<M>) -> u64
    decreases s, 0int,
{
    match s {
        Step::Id { .. } => 0,
        Step::Prim { .. } => 10,
        Step::MapSeq { item, .. } => spec_best_weight(item),
        Step::MapStruct { members, .. } => spec_sum_best(members@),
        Step::MapEnum { variants, .. } => spec_max_best(variants@),
    }
}

/// The best-path weights of the searches, summed.
pub open spec fn spec_sum_best<M: Morphism + Clone>(s: Seq<(String, GraphSearch<M>)>) -> u64
    decreases s, 0int,
{
    if s.len() == 0 {
        0
    } else {
        sat_add(spec_sum_best(s.drop_last()), spec_best_weight(s.last().1))
    }
}

/// The largest best-path weight of the searches; 0 for none.
pub open spec fn spec_max_best<M: Morphism + Clone>(s: Seq<(String, GraphSearch<M>)>) -> u64
    decreases s, 0int,
{
    if s.len() == 0 {
        0
    } else {
        let a = spec_max_best(s.drop_last());
        let b = spec_best_weight(s.last().1);
        if a < b { b } else { a }
    }
}

/// The weight of the path that ends in node `n`.
pub open spec fn spec_node_weight<M: Morphism + Clone>(n: SearchNode<M>) -> u64
    decreases n, 0int,
{
    sat_add(n.weight, spec_step_weight(n.step))
}

/// The number of entries in the queue of a search.
pub closed spec fn spec_queue_len<M: Morphism + Clone>(g: GraphSearch<M>) -> int {
    g.explore_queue@.len() as int
}

/// Whether the `k`-th entry of the queue names a node.
pub closed spec fn spec_valid_entry<M: Morphism + Clone>(g: GraphSearch<M>, k: int) -> bool {
    0 <= k < g.explore_queue@.len() && g.explore_queue@[k].0 < g.nodes@.len()
}

/// The position of the most promising entry among the first `n` entries of the queue:
/// the first one whose path weight plus estimated remainder is least.
pub closed spec fn spec_best_pos<M: Morphism + Clone>(g: GraphSearch<M>, n: int) -> Option<int>
    decreases g, n,
{
    if n <= 0 || n > g.explore_queue@.len() {
        None
    } else {
        let p = spec_best_pos(g, n - 1);
        if !spec_valid_entry(g, n - 1) {
            p
        } else {
            let c = g.nodes@[g.explore_queue@[n - 1].0 as int];
            let kc = sat_add(spec_node_weight(c), c.est_remain);
            match p {
                None => Some(n - 1),
                Some(k) => if k < n - 1 && spec_valid_entry(g, k) {
                    let b = g.nodes@[g.explore_queue@[k].0 as int];
                    if kc < sat_add(spec_node_weight(b), b.est_remain) { Some(n - 1) } else { Some(k) }
                } else {
                    Some(n - 1)
                },
            }
        }
    }
}

/// The weight of the most promising path of a search; 0 where nothing is queued.
pub closed spec fn spec_best_weight<M: Morphism + Clone>(g: GraphSearch<M>) -> u64
    decreases g, spec_queue_len(g) + 1,
{
    match spec_best_pos(g, g.explore_queue@.len() as int) {
        Some(k) => if spec_valid_entry(g, k) {
            spec_node_weight(g.nodes@[g.explore_queue@[k].0 as int])
        } else {
            0
        },
        None => 0,
    }
}

/// The most promising entry is a valid entry among those considered.
proof fn lemma_best_pos_valid<M: Morphism + Clone>(g: GraphSearch<M>, n: int)
    ensures
        spec_best_pos(g, n) matches Some(k) ==> 0 <= k < n && spec_valid_entry(g, k),
    decreases n,
{
    if n > 0 && n <= g.explore_queue@.len() {
        lemma_best_pos_valid(g, n - 1);
    }
}

/// The priority of the `k`-th entry of the queue: the weight of its path plus its
/// estimated remainder.
pub closed spec fn spec_entry_key<M: Morphism + Clone>(g: GraphSearch<M>, k: int) -> u64 {
    let c = g.nodes@[g.explore_queue@[k].0 as int];
    sat_add(spec_node_weight(c), c.est_remain)
}

/// The entry of the queue that a search explores next is the first one of least
/// priority (path weight plus estimated remainder) among the entries that name a node;
/// there is none only where no entry names a node.
pub proof fn law_best_pos_least<M: Morphism + Clone>(g: GraphSearch<M>, n: int)
    requires
        0 <= n <= spec_queue_len(g),
    ensures
        spec_best_pos(g, n) matches Some(k) ==> {
            &&& 0 <= k < n
            &&& spec_valid_entry(g, k)
            &&& forall|j: int| 0 <= j < n && spec_valid_entry(g, j) ==> spec_entry_key(g, k) <= #[trigger] spec_entry_key(g, j)
            &&& forall|j: int| 0 <= j < k && spec_valid_entry(g, j) ==> spec_entry_key(g, k) < #[trigger] spec_entry_key(g, j)
        },
        spec_best_pos(g, n) is None ==> forall|j: int| 0 <= j < n ==> !#[trigger] spec_valid_entry(g, j),
    decreases n,
{
    if n > 0 {
        law_best_pos_least(g, n - 1);
        lemma_best_pos_valid(g, n - 1);
    }
}

/// Every node's predecessor comes before it: each path leads back to a start.
pub open spec fn spec_preds_below<M: Morphism + Clone>(nodes: Seq<SearchNode<M>>) -> bool {
    forall|i: int| 0 <= i < nodes.len() ==> ((#[trigger] nodes[i]).pred matches Some(p) ==> (p as int) < i)
}

//------------------------------------------------------------------
// Executable weights
//------------------------------------------------------------------

fn sat_add_exec(a: u64, b: u64) -> (r: u64)
    ensures
        r == sat_add(a, b),
{
    a.saturating_add(b)
}

/// The weight of the path that ends in node `n`.
fn node_weight<M: Morphism + Clone>(n: &SearchNode<M>) -> (r: u64)
    ensures
        r == spec_node_weight(*n),
    decreases n, 0int,
{
    let w = step_weight(&n.step);
    sat_add_exec(n.weight, w)
}

/// The weight of a step.
fn step_weight<M: Morphism + Clone>(s: &Step<M>) -> (r: u64)
    ensures
        r == spec_step_weight(*s),
    decreases s, 0int,
{
    match s {
        Step::Id { .. } => 0,
        Step::Prim { .. } => 10,
        Step::MapSeq { item, .. } => item.best_path_weight(),
        Step::MapStruct { members, .. } => sum_best(members),
        Step::MapEnum { variants, .. } => max_best(variants),
    }
}

/// The best-path weights of the searches, summed.
fn sum_best<M: Morphism + Clone>(v: &Vec<(String, GraphSearch<M>)>) -> (r: u64)
    ensures
        r == spec_sum_best(v@),
    decreases v, 0int,
{
    let mut acc: u64 = 0;
    let mut i: usize = 0;
    assert(v@.subrange(0, 0) =~= Seq::<(String, GraphSearch<M>)>::empty());
    while i < v.len()
        invariant
            i <= v.len(),
            acc == spec_sum_best(v@.subrange(0, i as int)),
        decreases v.len() - i,
    {
        let w = v[i].1.best_path_weight();
        proof {
            assert(v@.subrange(0, i + 1).drop_last() =~= v@.subrange(0, i as int));
        }
        acc = sat_add_exec(acc, w);
        i += 1;
    }
    assert(v@.subrange(0, v.len() as int) =~= v@);
    acc
}

/// The largest best-path weight of the searches.
fn max_best<M: Morphism + Clone>(v: &Vec<(String, GraphSearch<M>)>) -> (r: u64)
    ensures
        r == spec_max_best(v@),
    decreases v, 0int,
{
    let mut acc: u64 = 0;
    let mut i: usize = 0;
    assert(v@.subrange(0, 0) =~= Seq::<(String, GraphSearch<M>)>::empty());
    while i < v.len()
        invariant
            i <= v.len(),
            acc == spec_max_best(v@.subrange(0, i as int)),
        decreases v.len() - i,
    {
        let w = v[i].1.best_path_weight();
        proof {
            assert(v@.subrange(0, i + 1).drop_last() =~= v@.subrange(0, i as int));
        }
        if acc < w {
            acc = w;
        }
        i += 1;
    }
    assert(v@.subrange(0, v.len() as int) =~= v@);
    acc
}

impl<M: Morphism + Clone> GraphSearch<M> {
    /// The type that the search looks for.
    pub closed spec fn spec_goal(&self) -> MorphTypeV {
        self.goal@
    }

    /// The solution found, if any.
    pub closed spec fn spec_solution(&self) -> Option<MorphismInstance<M>> {
        self.solution
    }

    /// The nodes of the search.
    pub closed spec fn spec_nodes(&self) -> Seq<SearchNode<M>> {
        self.nodes@
    }

    /// The queue of nodes to explore, as node indices.
    pub closed spec fn spec_queue(&self) -> Seq<usize> {
        Seq::new(self.explore_queue@.len(), |k: int| self.explore_queue@[k].0)
    }

    /// The explored nodes, as node indices, in the order they were explored.
    pub closed spec fn spec_history(&self) -> Seq<usize> {
        Seq::new(self.history@.len(), |k: int| self.history@[k].0)
    }

    /// The context of the search.
    pub closed spec fn spec_gamma(&self) -> crate::context::CtxV {
        self.gamma@
    }

    /// The next node id to hand out.
    pub closed spec fn spec_id_count(&self) -> u64 {
        self.id_count
    }

    /// A search for a morphism of type `goal` in context `ctx`, starting with the empty
    /// path at the source type, which is both queued and explored.
    pub fn new(ctx: ContextPtr, goal: MorphismType) -> (r: GraphSearch<M>)
        ensures
            r.spec_goal() == goal@,
            r.spec_gamma() == ctx@,
            r.spec_solution() is None,
            r.spec_id_count() == 1,
            r.spec_queue() == seq![0usize],
            r.spec_history() == seq![0usize],
            r.spec_nodes().len() == 1,
            r.spec_nodes()[0].id == 0,
            r.spec_nodes()[0].pred is None,
            r.spec_nodes()[0].weight == 0,
            r.spec_nodes()[0].est_remain == 0,
            r.spec_nodes()[0].ctx@ == ctx@,
            r.spec_nodes()[0].ty@ == (MorphTypeV {
                gamma: Seq::<EntryV>::empty(),
                bounds: Seq::empty(),
                src: goal@.src,
                dst: goal@.src,
            }),
            r.spec_nodes()[0].step matches Step::Id { tau } && tau@ == goal@.src,
            r.spec_nodes()[0].psi@ == spec_unit(),
            spec_preds_below(r.spec_nodes()),
    {
        let ty = MorphismType {
            gamma: Vec::new(),
            bounds: Vec::new(),
            src_type: goal.src_type.copy(),
            dst_type: goal.src_type.copy(),
        };
        proof {
            crate::term::lemma_entries_view(ty.gamma@);
            crate::term::lemma_pairs_view(ty.bounds@);
            assert(crate::term::entries_view(ty.gamma@) =~= Seq::<EntryV>::empty());
            assert(crate::term::pairs_view(ty.bounds@) =~= Seq::empty());
        }
        let start = SearchNode {
            id: 0,
            pred: None,
            weight: 0,
            est_remain: 0,
            ctx: ctx.copy(),
            ty,
            step: Step::Id { tau: goal.src_type.copy() },
            psi: TypeTerm::unit(),
        };
        let mut nodes: Vec<SearchNode<M>> = Vec::new();
        nodes.push(start);
        let mut explore_queue: Vec<SearchNodePtr> = Vec::new();
        explore_queue.push(SearchNodePtr(0));
        let mut history: Vec<SearchNodePtr> = Vec::new();
        history.push(SearchNodePtr(0));
        let r = GraphSearch { gamma: ctx, goal, solution: None, nodes, explore_queue, history, id_count: 1 };
        assert(r.spec_queue() =~= seq![0usize]);
        assert(r.spec_history() =~= seq![0usize]);
        r
    }

    /// The type that the search looks for.
    pub fn goal(&self) -> (r: &MorphismType)
        ensures
            r@ == self.spec_goal(),
    {
        &self.goal
    }

    /// The number of explored nodes.
    pub fn history_len(&self) -> (r: usize)
        ensures
            r == self.spec_history().len(),
    {
        self.history.len()
    }

    /// A copy of the solution found, if any.
    pub fn get_solution(&self) -> (r: Option<MorphismInstance<M>>)
        ensures
            match (self.spec_solution(), r) {
                (Some(a), Some(b)) => spec_copied(a, b),
                (None, None) => true,
                _ => false,
            },
    {
        match &self.solution {
            Some(m) => Some(m.copy()),
            None => None,
        }
    }

    /// Takes the most promising entry out of the queue: the first one whose path weight
    /// plus estimated remainder is least.
    pub fn choose_next_node(&mut self) -> (r: Option<usize>)
        ensures
            match spec_best_pos(*old(self), spec_queue_len(*old(self))) {
                Some(k) => r == Some(old(self).spec_queue()[k]) && final(self).spec_queue() == old(self).spec_queue().remove(k),
                None => r is None && final(self).spec_queue() == old(self).spec_queue(),
            },
            final(self).spec_nodes() == old(self).spec_nodes(),
            final(self).spec_history() == old(self).spec_history(),
            final(self).spec_solution() == old(self).spec_solution(),
            final(self).spec_goal() == old(self).spec_goal(),
            final(self).spec_gamma() == old(self).spec_gamma(),
            final(self).spec_id_count() == old(self).spec_id_count(),
            r is None ==> *final(self) == *old(self),
    {
        let b = self.best_pos();
        proof { lemma_best_pos_valid(*self, spec_queue_len(*self)); }
        match b {
            Some(k) => {
                let p = self.explore_queue.remove(k);
                assert(self.spec_queue() =~= old(self).spec_queue().remove(k as int));
                Some(p.0)
            },
            None => None,
        }
    }

    /// The weight of the most promising queued path; 0 where nothing is queued.
    pub fn best_path_weight(&self) -> (r: u64)
        ensures
            r == spec_best_weight(*self),
        decreases self, spec_queue_len(*self) + 1,
    {
        let b = self.best_pos();
        proof { lemma_best_pos_valid(*self, spec_queue_len(*self)); }
        match b {
            Some(k) => {
                let i = self.explore_queue[k].0;
                if i < self.nodes.len() {
                    node_weight(&self.nodes[i])
                } else {
                    0
                }
            },
            None => 0,
        }
    }

    /// The position in the queue of the most promising entry.
    fn best_pos(&self) -> (r: Option<usize>)
        ensures
            match r {
                Some(k) => spec_best_pos(*self, spec_queue_len(*self)) == Some(k as int),
                None => spec_best_pos(*self, spec_queue_len(*self)) is None,
            },
        decreases self, spec_queue_len(*self),
    {
        let mut best: Option<usize> = None;
        let mut best_key: u64 = 0;
        let mut n: usize = 0;
        while n < self.explore_queue.len()
            invariant
                n <= self.explore_queue.len(),
                spec_queue_len(*self) == self.explore_queue.len(),
                match best {
                    Some(k) => spec_best_pos(*self, n as int) == Some(k as int) && k < n && spec_valid_entry(*self, k as int)
                        && best_key == sat_add(spec_node_weight(self.nodes@[self.explore_queue@[k as int].0 as int]),
                            self.nodes@[self.explore_queue@[k as int].0 as int].est_remain),
                    None => spec_best_pos(*self, n as int) is None,
                },
            decreases self.explore_queue.len() - n,
        {
            let i = self.explore_queue[n].0;
            if i < self.nodes.len() {
                let w = node_weight(&self.nodes[i]);
                let key = sat_add_exec(w, self.nodes[i].est_remain);
                match best {
                    None => {
                        best = Some(n);
                        best_key = key;
                    },
                    Some(_) => {
                        if key < best_key {
                            best = Some(n);
                            best_key = key;
                        }
                    },
                }
            }
            n += 1;
        }
        best
    }
}

//------------------------------------------------------------------
// Nodes
//------------------------------------------------------------------

/// The type of the path that ends in node `n`: the halo over the node's source and over
/// its destination, each in normal form, under the node's context; `None` where a
/// normalization exceeds the step budget.
pub open spec fn spec_node_type<M: Morphism + Clone>(n: SearchNode<M>) -> Option<MorphTypeV> {
    match (
        spec_normalize(ladder2(n.psi@, n.ty@.src), STEP_BUDGET as nat),
        spec_normalize(ladder2(n.psi@, n.ty@.dst), STEP_BUDGET as nat),
    ) {
        (Some(s), Some(d)) => Some(MorphTypeV {
            gamma: Seq::empty(),
            bounds: Seq::empty(),
            src: spec_apply(s, ctx_subst(n.ctx@)),
            dst: spec_apply(d, ctx_subst(n.ctx@)),
        }),
        _ => None,
    }
}

/// The estimated weight that remains from node `n` to `goal`: the cost from the goal's
/// source to the path's source plus the cost from the path's destination to the goal's
/// destination.
pub open spec fn spec_est_remain<M: Morphism + Clone>(n: SearchNode<M>, goal: MorphTypeV) -> Option<nat> {
    match spec_node_type(n) {
        Some(t) => match (spec_cost(goal.src, t.src, STEP_BUDGET as nat), spec_cost(t.dst, goal.dst, STEP_BUDGET as nat)) {
            (Some(a), Some(b)) => Some(a + b),
            _ => None,
        },
        None => None,
    }
}

/// The type of the path that ends in node `n`.
pub fn node_type<M: Morphism + Clone>(n: &SearchNode<M>) -> (r: Option<MorphismType>)
    ensures
        opt_morph_view(r) == spec_node_type(*n),
{
    let a = ladder2_exec(n.psi.copy(), n.ty.src_type.copy());
    let b = ladder2_exec(n.psi.copy(), n.ty.dst_type.copy());
    match (a.try_normalize(), b.try_normalize()) {
        (Some(s), Some(d)) => {
            let t = MorphismType { gamma: Vec::new(), bounds: Vec::new(), src_type: s.applied(&n.ctx), dst_type: d.applied(&n.ctx) };
            proof {
                crate::term::lemma_entries_view(t.gamma@);
                crate::term::lemma_pairs_view(t.bounds@);
                assert(crate::term::entries_view(t.gamma@) =~= Seq::<EntryV>::empty());
                assert(crate::term::pairs_view(t.bounds@) =~= Seq::empty());
            }
            Some(t)
        },
        _ => None,
    }
}

/// The estimated weight that remains from node `n` to `goal`; `None` where it cannot be
/// computed within the step budget or does not fit in a `u64`.
pub fn est_remain<M: Morphism + Clone>(n: &SearchNode<M>, goal: &MorphismType) -> (r: Option<u64>)
    ensures
        match r {
            Some(x) => spec_est_remain(*n, goal@) == Some(x as nat),
            None => spec_est_remain(*n, goal@) is None || spec_est_remain(*n, goal@).unwrap() > u64::MAX,
        },
{
    match node_type(n) {
        Some(t) => {
            let a = MorphismType { gamma: Vec::new(), bounds: Vec::new(), src_type: goal.src_type.copy(), dst_type: t.src_type.copy() };
            let b = MorphismType { gamma: Vec::new(), bounds: Vec::new(), src_type: t.dst_type.copy(), dst_type: goal.dst_type.copy() };
            match (a.try_estimated_cost(), b.try_estimated_cost()) {
                (Some(x), Some(y)) => x.checked_add(y),
                (ca, cb) => {
                    proof {
                        if ca is None && spec_cost(a@.src, a@.dst, STEP_BUDGET as nat) is Some {
                            assert(spec_cost(a@.src, a@.dst, STEP_BUDGET as nat).unwrap() > u64::MAX);
                        }
                    }
                    None
                },
            }
        },
        None => None,
    }
}

/// Whether every search of the step has a solution.
pub open spec fn spec_step_ready<M: Morphism + Clone>(s: Step<M>) -> bool {
    match s {
        Step::MapSeq { item, .. } => item.spec_solution() is Some,
        Step::MapStruct { members, .. } => forall|i: int| 0 <= i < members@.len() ==> (#[trigger] members@[i]).1.spec_solution() is Some,
        Step::MapEnum { variants, .. } => forall|i: int| 0 <= i < variants@.len() ==> (#[trigger] variants@[i]).1.spec_solution() is Some,
        _ => true,
    }
}

fn all_solved<M: Morphism + Clone>(v: &Vec<(String, GraphSearch<M>)>) -> (r: bool)
    ensures
        r == forall|i: int| 0 <= i < v@.len() ==> (#[trigger] v@[i]).1.spec_solution() is Some,
{
    let mut i: usize = 0;
    while i < v.len()
        invariant
            i <= v.len(),
            forall|j: int| 0 <= j < i ==> (#[trigger] v@[j]).1.spec_solution() is Some,
        decreases v.len() - i,
    {
        if v[i].1.solution.is_none() {
            return false;
        }
        i += 1;
    }
    true
}

impl<M: Morphism + Clone> SearchNode<M> {
    /// Whether the searches of this node's step are solved.
    pub fn is_ready(&self) -> (r: bool)
        ensures
            r == spec_step_ready(self.step),
    {
        match &self.step {
            Step::MapSeq { item, .. } => item.solution.is_some(),
            Step::MapStruct { members, .. } => all_solved(members),
            Step::MapEnum { variants, .. } => all_solved(variants),
            _ => true,
        }
    }

    /// The weight of this node's step.
    pub fn get_weight_step(&self) -> (r: u64)
        ensures
            r == spec_step_weight(self.step),
    {
        step_weight(&self.step)
    }

    /// The weight of the path that ends in this node.
    pub fn get_weight(&self) -> (r: u64)
        ensures
            r == spec_node_weight(*self),
    {
        node_weight(self)
    }

    /// The type of the path that ends in this node.
    pub fn get_type(&self) -> (r: Option<MorphismType>)
        ensures
            opt_morph_view(r) == spec_node_type(*self),
    {
        node_type(self)
    }

    /// Sets the halo of this node.
    pub fn set_sub(&mut self, psi: TypeTerm)
        ensures
            final(self).psi == psi,
            final(self).id == old(self).id,
            final(self).pred == old(self).pred,
            final(self).weight == old(self).weight,
            final(self).est_remain == old(self).est_remain,
            final(self).ctx == old(self).ctx,
            final(self).ty == old(self).ty,
            final(self).step == old(self).step,
    {
        self.psi = psi;
    }
}

//------------------------------------------------------------------
// Loops and queueing
//------------------------------------------------------------------

/// The symbols of the searches with the destination types of their goals.
pub closed spec fn spec_goal_fields<M: Morphism + Clone>(s: Seq<(String, GraphSearch<M>)>) -> Seq<FieldV> {
    Seq::new(s.len(), |i: int| FieldV { symbol: s[i].0@, ty: s[i].1.goal@.dst })
}

/// The type that the path ends in at node `n`, in normal form: for a map, the mapped
/// type with the goals' destination types.
pub closed spec fn spec_prev_type<M: Morphism + Clone>(n: SearchNode<M>) -> Option<TermV> {
    match n.step {
        Step::MapSeq { seq_repr, item } =>
            spec_normalize(TermV::Sequence { repr: opt_view(seq_repr), item: Box::new(item.goal@.dst) }, STEP_BUDGET as nat),
        Step::MapStruct { struct_repr, members } =>
            spec_normalize(TermV::Struct { repr: opt_view(struct_repr), members: spec_goal_fields(members@) }, STEP_BUDGET as nat),
        Step::MapEnum { enum_repr, variants } =>
            spec_normalize(TermV::Enum { repr: opt_view(enum_repr), variants: spec_goal_fields(variants@) }, STEP_BUDGET as nat),
        _ => match spec_node_type(n) {
            Some(t) => spec_normalize(t.dst, STEP_BUDGET as nat),
            None => None,
        },
    }
}

/// Whether a node on the chain of predecessors from `p` (each below `bound`) ends in
/// type `end`.
pub open spec fn spec_loop<M: Morphism + Clone>(nodes: Seq<SearchNode<M>>, p: Option<usize>, end: TermV, bound: int) -> bool
    decreases bound,
{
    match p {
        Some(i) => if (i as int) < bound && (i as int) < nodes.len() {
            spec_prev_type(nodes[i as int]) == Some(end) || spec_loop(nodes, nodes[i as int].pred, end, i as int)
        } else {
            false
        },
        None => false,
    }
}

/// Whether a path that ends in `n`, with predecessors among `nodes`, returns to a type
/// that it has passed.
pub open spec fn spec_creates_loop<M: Morphism + Clone>(nodes: Seq<SearchNode<M>>, n: SearchNode<M>) -> bool {
    match spec_node_type(n) {
        Some(t) => spec_loop(nodes, n.pred, t.dst, nodes.len() as int),
        None => false,
    }
}

/// The searches' symbols with their goals' destination types, as struct members.
fn goal_members<M: Morphism + Clone>(v: &Vec<(String, GraphSearch<M>)>) -> (r: Vec<StructMember>)
    ensures
        members_view(r@) == spec_goal_fields(v@),
{
    let mut r: Vec<StructMember> = Vec::new();
    let mut i: usize = 0;
    while i < v.len()
        invariant
            i <= v.len(),
            members_view(r@) == spec_goal_fields(v@).subrange(0, i as int),
        decreases v.len() - i,
    {
        let m = StructMember { symbol: v[i].0.clone(), ty: v[i].1.goal.dst_type.copy() };
        proof {
            lemma_members_view_push(r@, m);
            assert(spec_goal_fields(v@).subrange(0, i + 1) =~= spec_goal_fields(v@).subrange(0, i as int).push(FieldV { symbol: m.symbol@, ty: m.ty@ }));
        }
        r.push(m);
        i += 1;
    }
    assert(spec_goal_fields(v@).subrange(0, v.len() as int) =~= spec_goal_fields(v@));
    r
}

/// The searches' symbols with their goals' destination types, as enum variants.
fn goal_variants<M: Morphism + Clone>(v: &Vec<(String, GraphSearch<M>)>) -> (r: Vec<EnumVariant>)
    ensures
        variants_view(r@) == spec_goal_fields(v@),
{
    let mut r: Vec<EnumVariant> = Vec::new();
    let mut i: usize = 0;
    while i < v.len()
        invariant
            i <= v.len(),
            variants_view(r@) == spec_goal_fields(v@).subrange(0, i as int),
        decreases v.len() - i,
    {
        let m = EnumVariant { symbol: v[i].0.clone(), ty: v[i].1.goal.dst_type.copy() };
        proof {
            lemma_variants_view_push(r@, m);
            assert(spec_goal_fields(v@).subrange(0, i + 1) =~= spec_goal_fields(v@).subrange(0, i as int).push(FieldV { symbol: m.symbol@, ty: m.ty@ }));
        }
        r.push(m);
        i += 1;
    }
    assert(spec_goal_fields(v@).subrange(0, v.len() as int) =~= spec_goal_fields(v@));
    r
}

/// The type that the path ends in at node `n`, in normal form.
fn prev_type<M: Morphism + Clone>(n: &SearchNode<M>) -> (r: Option<TypeTerm>)
    ensures
        opt_term_view(r) == spec_prev_type(*n),
{
    match &n.step {
        Step::MapSeq { seq_repr, item } => {
            let t = TypeTerm::Sequence { seq_repr: copy_opt(seq_repr), item: Box::new(item.goal.dst_type.copy()) };
            t.try_normalize()
        },
        Step::MapStruct { struct_repr, members } => {
            let t = TypeTerm::Struct { struct_repr: copy_opt(struct_repr), members: goal_members(members) };
            t.try_normalize()
        },
        Step::MapEnum { enum_repr, variants } => {
            let t = TypeTerm::Enum { enum_repr: copy_opt(enum_repr), variants: goal_variants(variants) };
            t.try_normalize()
        },
        _ => match node_type(n) {
            Some(t) => t.dst_type.try_normalize(),
            None => None,
        },
    }
}

/// The node that is queued for `node` in a search for `goal`: `node` with the weight of
/// its path as its own weight and the estimated remainder to the goal (`u64::MAX` where
/// that cannot be computed within the step budget or exceeds a `u64`).
#[verifier::opaque]
pub open spec fn spec_queued<M: Morphism + Clone>(node: SearchNode<M>, goal: MorphTypeV) -> SearchNode<M> {
    SearchNode {
        weight: spec_node_weight(node),
        est_remain: match spec_est_remain(node, goal) {
            Some(x) => if x <= u64::MAX { x as u64 } else { u64::MAX },
            None => u64::MAX,
        },
        ..node
    }
}

impl<M: Morphism + Clone> GraphSearch<M> {
    /// Whether the path that ends in `node`, whose predecessors are nodes of this
    /// search, returns to a type that it has passed.
    pub fn creates_loop(&self, node: &SearchNode<M>) -> (r: bool)
        ensures
            r == spec_creates_loop(self.spec_nodes(), *node),
    {
        let end = match node_type(node) {
            Some(t) => t.dst_type,
            None => {
                return false;
            },
        };
        let mut cur = node.pred;
        let mut bound: usize = self.nodes.len();
        while cur.is_some()
            invariant
                bound <= self.nodes.len(),
                spec_creates_loop(self.nodes@, *node) == spec_loop(self.nodes@, cur, end@, bound as int),
            decreases bound,
        {
            let p = match cur {
                Some(p) => p,
                None => 0,
            };
            if p >= bound {
                return false;
            }
            match prev_type(&self.nodes[p]) {
                Some(pt) => {
                    if pt.same(&end) {
                        return true;
                    }
                },
                None => {},
            }
            bound = p;
            cur = self.nodes[p].pred;
        }
        false
    }

    /// Queues `node`, whose predecessors are nodes of this search, unless its path
    /// returns to a type that it has passed.  The queued node stores the weight of its
    /// path as its own weight and the estimated remainder to the goal (`u64::MAX` where
    /// that cannot be computed within the step budget or exceeds a `u64`).
    pub fn add_search_node(&mut self, node: SearchNode<M>)
        ensures
            spec_creates_loop(old(self).spec_nodes(), node) ==> {
                &&& final(self).spec_nodes() == old(self).spec_nodes()
                &&& final(self).spec_queue() == old(self).spec_queue()
            },
            !spec_creates_loop(old(self).spec_nodes(), node) ==> {
                &&& final(self).spec_nodes().len() == old(self).spec_nodes().len() + 1
                &&& final(self).spec_nodes().drop_last() == old(self).spec_nodes()
                &&& final(self).spec_queue() == old(self).spec_queue().push(old(self).spec_nodes().len() as usize)
                &&& final(self).spec_nodes().last() == spec_queued(node, old(self).spec_goal())
                &&& final(self).spec_nodes().last().pred == node.pred
            },
            final(self).spec_history() == old(self).spec_history(),
            final(self).spec_solution() == old(self).spec_solution(),
            final(self).spec_goal() == old(self).spec_goal(),
            final(self).spec_id_count() == old(self).spec_id_count(),
            final(self).spec_gamma() == old(self).spec_gamma(),
            (spec_preds_below(old(self).spec_nodes()) && (node.pred matches Some(p) ==> p < old(self).spec_nodes().len()))
                ==> spec_preds_below(final(self).spec_nodes()),
    {
        proof { reveal(spec_queued); }
        if !self.creates_loop(&node) {
            let w = node.get_weight();
            let r = match est_remain(&node, &self.goal) {
                Some(x) => x,
                None => u64::MAX,
            };
            let mut node = node;
            node.weight = w;
            node.est_remain = r;
            let idx = self.nodes.len();
            self.nodes.push(node);
            self.explore_queue.push(SearchNodePtr(idx));
            assert(self.spec_queue() =~= old(self).spec_queue().push(idx));
            assert(self.spec_nodes().drop_last() =~= old(self).spec_nodes());
        }
    }
}

//------------------------------------------------------------------
// New nodes
//------------------------------------------------------------------

/// The symbols of the goals with their source (or destination) types.
pub open spec fn spec_goals_fields(goals: Seq<(String, MorphismType)>, dst: bool) -> Seq<FieldV> {
    Seq::new(goals.len(), |i: int| FieldV { symbol: goals[i].0@, ty: if dst { goals[i].1@.dst } else { goals[i].1@.src } })
}

/// Whether `subs` holds a fresh search for each goal, under the goal's symbol.
pub open spec fn spec_fresh_searches<M: Morphism + Clone>(subs: Seq<(String, GraphSearch<M>)>, goals: Seq<(String, MorphismType)>) -> bool {
    &&& subs.len() == goals.len()
    &&& forall|i: int| 0 <= i < goals.len() ==> {
        &&& (#[trigger] subs[i]).0@ == goals[i].0@
        &&& subs[i].1.spec_goal() == goals[i].1@
        &&& subs[i].1.spec_solution() is None
        &&& subs[i].1.spec_nodes().len() == 1
    }
}

/// The goals' symbols with their source (or destination) types, as struct members.
fn goals_members(goals: &Vec<(String, MorphismType)>, dst: bool) -> (r: Vec<StructMember>)
    ensures
        members_view(r@) == spec_goals_fields(goals@, dst),
{
    let mut r: Vec<StructMember> = Vec::new();
    let mut i: usize = 0;
    while i < goals.len()
        invariant
            i <= goals.len(),
            members_view(r@) == spec_goals_fields(goals@, dst).subrange(0, i as int),
        decreases goals.len() - i,
    {
        let ty = if dst { goals[i].1.dst_type.copy() } else { goals[i].1.src_type.copy() };
        let m = StructMember { symbol: goals[i].0.clone(), ty };
        proof {
            lemma_members_view_push(r@, m);
            assert(spec_goals_fields(goals@, dst).subrange(0, i + 1) =~= spec_goals_fields(goals@, dst).subrange(0, i as int).push(FieldV { symbol: m.symbol@, ty: m.ty@ }));
        }
        r.push(m);
        i += 1;
    }
    assert(spec_goals_fields(goals@, dst).subrange(0, goals.len() as int) =~= spec_goals_fields(goals@, dst));
    r
}

/// The goals' symbols with their source (or destination) types, as enum variants.
fn goals_variants(goals: &Vec<(String, MorphismType)>, dst: bool) -> (r: Vec<EnumVariant>)
    ensures
        variants_view(r@) == spec_goals_fields(goals@, dst),
{
    let mut r: Vec<EnumVariant> = Vec::new();
    let mut i: usize = 0;
    while i < goals.len()
        invariant
            i <= goals.len(),
            variants_view(r@) == spec_goals_fields(goals@, dst).subrange(0, i as int),
        decreases goals.len() - i,
    {
        let ty = if dst { goals[i].1.dst_type.copy() } else { goals[i].1.src_type.copy() };
        let m = EnumVariant { symbol: goals[i].0.clone(), ty };
        proof {
            lemma_variants_view_push(r@, m);
            assert(spec_goals_fields(goals@, dst).subrange(0, i + 1) =~= spec_goals_fields(goals@, dst).subrange(0, i as int).push(FieldV { symbol: m.symbol@, ty: m.ty@ }));
        }
        r.push(m);
        i += 1;
    }
    assert(spec_goals_fields(goals@, dst).subrange(0, goals.len() as int) =~= spec_goals_fields(goals@, dst));
    r
}

/// A fresh search for each goal, each in a new scope of `ctx`; `None` where the scopes
/// of `ctx` cannot be counted any further.
fn fresh_searches<M: Morphism + Clone>(ctx: &ContextPtr, goals: &Vec<(String, MorphismType)>) -> (r: Option<Vec<(String, GraphSearch<M>)>>)
    ensures
        match r {
            Some(v) => spec_fresh_searches(v@, goals@),
            None => ctx@.sub_count + goals@.len() > u64::MAX,
        },
{
    let mut c = ctx.copy();
    let mut r: Vec<(String, GraphSearch<M>)> = Vec::new();
    let mut i: usize = 0;
    while i < goals.len()
        invariant
            i <= goals.len(),
            c@.sub_count == ctx@.sub_count + i,
            r@.len() == i,
            forall|j: int| 0 <= j < i ==> {
                &&& (#[trigger] r@[j]).0@ == goals@[j].0@
                &&& r@[j].1.spec_goal() == goals@[j].1@
                &&& r@[j].1.spec_solution() is None
                &&& r@[j].1.spec_nodes().len() == 1
            },
        decreases goals.len() - i,
    {
        if !c.can_scope() {
            return None;
        }
        let sub = c.scope();
        let g = GraphSearch::new(sub, goals[i].1.copy());
        r.push((goals[i].0.clone(), g));
        i += 1;
    }
    Some(r)
}

impl<M: Morphism + Clone> GraphSearch<M> {
    /// A node that advances the path ending in node `pred` by morphism `m` of the base,
    /// found in context `ctx_inst` with the variables of `m` mapped by `sigmas`, under halo
    /// `psi`; `None` where the type of the path cannot be computed within the step budget.
    pub fn chain(&self, pred: usize, id: u64, psi: TypeTerm, ctx_inst: &ContextPtr, sigmas: HashMapSubst, m: M) -> (r: Option<SearchNode<M>>)
        requires
            pred < self.spec_nodes().len(),
        ensures
            match r {
                Some(n) => spec_node_type(self.spec_nodes()[pred as int]) matches Some(t) && {
                    &&& n.id == id
                    &&& n.pred == Some(pred)
                    &&& n.weight == spec_node_weight(self.spec_nodes()[pred as int])
                    &&& n.est_remain == 0
                    &&& n.ctx@ == ctx_inst@
                    &&& n.ty@ == (MorphTypeV {
                            gamma: ctx_inst@.gamma,
                            bounds: Seq::empty(),
                            src: t.src,
                            dst: spec_apply(m.spec_type().dst, subst_view(sigmas)),
                        })
                    &&& n.step == (Step::Prim { sigmas, m })
                    &&& n.psi == psi
                },
                None => spec_node_type(self.spec_nodes()[pred as int]) is None,
            },
    {
        let p = &self.nodes[pred];
        let t = match node_type(p) {
            Some(t) => t,
            None => {
                return None;
            },
        };
        let dst = m.get_type().dst_type.applied(&sigmas);
        let ty = MorphismType { gamma: ctx_inst.get_gamma(), bounds: Vec::new(), src_type: t.src_type, dst_type: dst };
        proof {
            crate::term::lemma_pairs_view(ty.bounds@);
            assert(crate::term::pairs_view(ty.bounds@) =~= Seq::empty());
        }
        Some(SearchNode {
            id,
            pred: Some(pred),
            weight: node_weight(p),
            est_remain: 0,
            ctx: ctx_inst.copy(),
            ty,
            step: Step::Prim { sigmas, m },
            psi,
        })
    }

    /// A node that advances the path ending in node `pred`, whose destination has a
    /// sequence type at its floor, by mapping each item with a search of its own for
    /// `goal` in a new scope; `None` where the floor is no sequence or the scopes of the
    /// node's context cannot be counted any further.
    pub fn map_seq(&self, pred: usize, id: u64, goal: MorphismType) -> (r: Option<SearchNode<M>>)
        requires
            pred < self.spec_nodes().len(),
        ensures
            match r {
                Some(n) => spec_floor(self.spec_nodes()[pred as int].ty@.dst).1 matches TermV::Sequence { repr, .. } && {
                    &&& n.id == id
                    &&& n.pred == Some(pred)
                    &&& n.weight == spec_node_weight(self.spec_nodes()[pred as int])
                    &&& n.est_remain == 0
                    &&& n.ctx@ == self.spec_nodes()[pred as int].ctx@
                    &&& n.ty@ == (MorphTypeV {
                            gamma: Seq::empty(),
                            bounds: Seq::empty(),
                            src: TermV::Sequence { repr, item: Box::new(goal@.src) },
                            dst: TermV::Sequence { repr, item: Box::new(goal@.dst) },
                        })
                    &&& n.step matches Step::MapSeq { seq_repr, item } && opt_view(seq_repr) == repr
                        && item.spec_goal() == goal@ && item.spec_solution() is None && item.spec_nodes().len() == 1
                    &&& n.psi@ == self.spec_nodes()[pred as int].psi@
                },
                None => !(spec_floor(self.spec_nodes()[pred as int].ty@.dst).1 is Sequence)
                    || self.spec_nodes()[pred as int].ctx@.sub_count == u64::MAX,
            },
    {
        let p = &self.nodes[pred];
        let floor = p.ty.dst_type.get_floor_type().1;
        proof { crate::term::lemma_view_variant(&floor); }
        let seq_repr = match &floor {
            TypeTerm::Sequence { seq_repr, .. } => copy_opt(seq_repr),
            _ => {
                return None;
            },
        };
        let mut c = p.ctx.copy();
        if !c.can_scope() {
            return None;
        }
        let sub = c.scope();
        let ty = MorphismType {
            gamma: Vec::new(),
            bounds: Vec::new(),
            src_type: TypeTerm::Sequence { seq_repr: copy_opt(&seq_repr), item: Box::new(goal.src_type.copy()) },
            dst_type: TypeTerm::Sequence { seq_repr: copy_opt(&seq_repr), item: Box::new(goal.dst_type.copy()) },
        };
        proof {
            crate::term::lemma_entries_view(ty.gamma@);
            crate::term::lemma_pairs_view(ty.bounds@);
            assert(crate::term::entries_view(ty.gamma@) =~= Seq::<EntryV>::empty());
            assert(crate::term::pairs_view(ty.bounds@) =~= Seq::empty());
        }
        Some(SearchNode {
            id,
            pred: Some(pred),
            weight: node_weight(p),
            est_remain: 0,
            ctx: p.ctx.copy(),
            ty,
            step: Step::MapSeq { seq_repr, item: GraphSearch::new(sub, goal) },
            psi: p.psi.copy(),
        })
    }

    /// A node that advances the path ending in node `pred`, whose destination has a
    /// struct type at its floor, by mapping each member with a search of its own for the
    /// member's goal, each in a new scope; `None` where the floor is no struct or the
    /// scopes of the node's context cannot be counted any further.
    pub fn map_struct(&self, pred: usize, id: u64, goals: Vec<(String, MorphismType)>) -> (r: Option<SearchNode<M>>)
        requires
            pred < self.spec_nodes().len(),
        ensures
            match r {
                Some(n) => spec_floor(self.spec_nodes()[pred as int].ty@.dst).1 matches TermV::Struct { repr, .. } && {
                    &&& n.id == id
                    &&& n.pred == Some(pred)
                    &&& n.weight == spec_node_weight(self.spec_nodes()[pred as int])
                    &&& n.est_remain == 0
                    &&& n.ctx@ == self.spec_nodes()[pred as int].ctx@
                    &&& n.ty@ == (MorphTypeV {
                            gamma: Seq::empty(),
                            bounds: Seq::empty(),
                            src: TermV::Struct { repr, members: spec_goals_fields(goals@, false) },
                            dst: TermV::Struct { repr, members: spec_goals_fields(goals@, true) },
                        })
                    &&& n.step matches Step::MapStruct { struct_repr, members } && opt_view(struct_repr) == repr
                        && spec_fresh_searches(members@, goals@)
                    &&& n.psi@ == self.spec_nodes()[pred as int].psi@
                },
                None => !(spec_floor(self.spec_nodes()[pred as int].ty@.dst).1 is Struct)
                    || self.spec_nodes()[pred as int].ctx@.sub_count + goals@.len() > u64::MAX,
            },
    {
        let p = &self.nodes[pred];
        let floor = p.ty.dst_type.get_floor_type().1;
        proof { crate::term::lemma_view_variant(&floor); }
        let struct_repr = match &floor {
            TypeTerm::Struct { struct_repr, .. } => copy_opt(struct_repr),
            _ => {
                return None;
            },
        };
        let members = match fresh_searches(&p.ctx, &goals) {
            Some(v) => v,
            None => {
                return None;
            },
        };
        let ty = MorphismType {
            gamma: Vec::new(),
            bounds: Vec::new(),
            src_type: TypeTerm::Struct { struct_repr: copy_opt(&struct_repr), members: goals_members(&goals, false) },
            dst_type: TypeTerm::Struct { struct_repr: copy_opt(&struct_repr), members: goals_members(&goals, true) },
        };
        proof {
            crate::term::lemma_entries_view(ty.gamma@);
            crate::term::lemma_pairs_view(ty.bounds@);
            assert(crate::term::entries_view(ty.gamma@) =~= Seq::<EntryV>::empty());
            assert(crate::term::pairs_view(ty.bounds@) =~= Seq::empty());
        }
        Some(SearchNode {
            id,
            pred: Some(pred),
            weight: node_weight(p),
            est_remain: 0,
            ctx: p.ctx.copy(),
            ty,
            step: Step::MapStruct { struct_repr, members },
            psi: p.psi.copy(),
        })
    }

    /// A node that advances the path ending in node `pred`, whose destination has an
    /// enum type at its floor, by mapping each variant with a search of its own for the
    /// variant's goal, each in a new scope; `None` where the floor is no enum or the
    /// scopes of the node's context cannot be counted any further.
    pub fn map_enum(&self, pred: usize, id: u64, goals: Vec<(String, MorphismType)>) -> (r: Option<SearchNode<M>>)
        requires
            pred < self.spec_nodes().len(),
        ensures
            match r {
                Some(n) => spec_floor(self.spec_nodes()[pred as int].ty@.dst).1 matches TermV::Enum { repr, .. } && {
                    &&& n.id == id
                    &&& n.pred == Some(pred)
                    &&& n.weight == spec_node_weight(self.spec_nodes()[pred as int])
                    &&& n.est_remain == 0
                    &&& n.ctx@ == self.spec_nodes()[pred as int].ctx@
                    &&& n.ty@ == (MorphTypeV {
                            gamma: Seq::empty(),
                            bounds: Seq::empty(),
                            src: TermV::Enum { repr, variants: spec_goals_fields(goals@, false) },
                            dst: TermV::Enum { repr, variants: spec_goals_fields(goals@, true) },
                        })
                    &&& n.step matches Step::MapEnum { enum_repr, variants } && opt_view(enum_repr) == repr
                        && spec_fresh_searches(variants@, goals@)
                    &&& n.psi@ == self.spec_nodes()[pred as int].psi@
                },
                None => !(spec_floor(self.spec_nodes()[pred as int].ty@.dst).1 is Enum)
                    || self.spec_nodes()[pred as int].ctx@.sub_count + goals@.len() > u64::MAX,
            },
    {
        let p = &self.nodes[pred];
        let floor = p.ty.dst_type.get_floor_type().1;
        proof { crate::term::lemma_view_variant(&floor); }
        let enum_repr = match &floor {
            TypeTerm::Enum { enum_repr, .. } => copy_opt(enum_repr),
            _ => {
                return None;
            },
        };
        let variants = match fresh_searches(&p.ctx, &goals) {
            Some(v) => v,
            None => {
                return None;
            },
        };
        let ty = MorphismType {
            gamma: Vec::new(),
            bounds: Vec::new(),
            src_type: TypeTerm::Enum { enum_repr: copy_opt(&enum_repr), variants: goals_variants(&goals, false) },
            dst_type: TypeTerm::Enum { enum_repr: copy_opt(&enum_repr), variants: goals_variants(&goals, true) },
        };
        proof {
            crate::term::lemma_entries_view(ty.gamma@);
            crate::term::lemma_pairs_view(ty.bounds@);
            assert(crate::term::entries_view(ty.gamma@) =~= Seq::<EntryV>::empty());
            assert(crate::term::pairs_view(ty.bounds@) =~= Seq::empty());
        }
        Some(SearchNode {
            id,
            pred: Some(pred),
            weight: node_weight(p),
            est_remain: 0,
            ctx: p.ctx.copy(),
            ty,
            step: Step::MapEnum { enum_repr, variants },
            psi: p.psi.copy(),
        })
    }
}

//------------------------------------------------------------------
// Solutions
//------------------------------------------------------------------

/// The node indices of the path that ends in node `i`, from `i` back to its start.
pub open spec fn spec_chain_rev<M: Morphism + Clone>(nodes: Seq<SearchNode<M>>, i: int) -> Seq<usize>
    decreases i,
{
    if i < 0 || i >= nodes.len() {
        Seq::empty()
    } else {
        match nodes[i].pred {
            Some(p) => if (p as int) < i { seq![i as usize] + spec_chain_rev(nodes, p as int) } else { seq![i as usize] },
            None => seq![i as usize],
        }
    }
}

/// The bindings of the contexts of the nodes `chain[n - 1]`, `chain[n - 2]`, .., in that
/// order, each added to those before and the whole saturated; `None` where a saturation
/// exceeds the step budget.
pub open spec fn spec_sigma_fold<M: Morphism + Clone>(nodes: Seq<SearchNode<M>>, chain: Seq<usize>, n: int) -> Option<Map<u64, TermV>>
    decreases n,
{
    if n <= 0 || n > chain.len() {
        Some(Map::empty())
    } else {
        match spec_sigma_fold(nodes, chain, n - 1) {
            Some(s) => spec_saturate(s.union_prefer_right(nodes[chain[chain.len() - n] as int].ctx@.sigma), STEP_BUDGET as nat),
            None => None,
        }
    }
}

/// Whether the path that ends in node `i` can be turned into an instance: its searches
/// are solved and the bindings of its contexts saturate within the step budget.
pub open spec fn spec_instance_ok<M: Morphism + Clone>(nodes: Seq<SearchNode<M>>, i: int) -> bool {
    let chain = spec_chain_rev(nodes, i);
    &&& spec_sigma_fold(nodes, chain, chain.len() as int) is Some
    &&& forall|k: int| 0 <= k < chain.len() ==> spec_step_ready(nodes[#[trigger] chain[k] as int].step)
}

/// Whether `out` holds, symbol by symbol, a copy of the solution of each search of `ms`.
pub open spec fn spec_solved_copies<M: Morphism + Clone>(ms: Seq<(String, GraphSearch<M>)>, out: Seq<(String, MorphismInstance<M>)>) -> bool {
    &&& ms.len() == out.len()
    &&& forall|j: int| 0 <= j < ms.len() ==> {
        &&& (#[trigger] out[j]).0@ == ms[j].0@
        &&& (ms[j].1.spec_solution() matches Some(sol) && spec_copied(sol, out[j].1))
    }
}

/// Whether `c` is the instance that a step makes, its halo aside: the morphism of the
/// base with its substitution, or the map over copies of the solutions of its searches.
pub open spec fn spec_core_inst<M: Morphism + Clone>(step: Step<M>, c: MorphismInstance<M>) -> bool {
    match step {
        Step::Prim { sigmas, m } => c matches MorphismInstance::Primitive { sigmas: s2, m: m2 }
            && subst_view(s2) == subst_view(sigmas) && cloned(m, m2),
        Step::MapSeq { seq_repr, item } => c matches MorphismInstance::MapSeq { seq_repr: r2, item_morph }
            && opt_view(r2) == opt_view(seq_repr) && (item.spec_solution() matches Some(sol) && spec_copied(sol, *item_morph)),
        Step::MapStruct { struct_repr, members } => c matches MorphismInstance::MapStruct { struct_repr: r2, member_morph }
            && opt_view(r2) == opt_view(struct_repr) && spec_solved_copies(members@, member_morph@),
        Step::MapEnum { enum_repr, variants } => c matches MorphismInstance::MapEnum { enum_repr: r2, variant_morph }
            && opt_view(r2) == opt_view(enum_repr) && spec_solved_copies(variants@, variant_morph@),
        Step::Id { .. } => false,
    }
}

/// Whether `x` is the instance that a step makes under halo `psi`: the step's own
/// instance where the halo is empty, else that instance under the halo.
pub open spec fn spec_step_inst<M: Morphism + Clone>(step: Step<M>, psi: TermV, x: MorphismInstance<M>) -> bool {
    if spec_is_empty(psi) {
        spec_core_inst(step, x)
    } else {
        x matches MorphismInstance::Sub { psi: p2, m: inner } && p2@ == psi && spec_core_inst(step, *inner)
    }
}

/// The chain of a path in the order it is walked: from the start to `i`.
pub open spec fn spec_chain_fwd(chain: Seq<usize>) -> Seq<usize> {
    Seq::new(chain.len(), |j: int| chain[chain.len() - 1 - j])
}

/// The type that a path starts from: that of its last start step, or the unit type.
pub open spec fn spec_begin<M: Morphism + Clone>(nodes: Seq<SearchNode<M>>, f: Seq<usize>) -> TermV
    decreases f.len(),
{
    if f.len() == 0 {
        spec_unit()
    } else {
        match nodes[f.last() as int].step {
            Step::Id { tau } => tau@,
            _ => spec_begin(nodes, f.drop_last()),
        }
    }
}

/// The nodes of a path whose steps are not starts, in order.
pub open spec fn spec_path_nodes<M: Morphism + Clone>(nodes: Seq<SearchNode<M>>, f: Seq<usize>) -> Seq<usize>
    decreases f.len(),
{
    if f.len() == 0 {
        Seq::empty()
    } else {
        let p = spec_path_nodes(nodes, f.drop_last());
        if nodes[f.last() as int].step is Id { p } else { p.push(f.last()) }
    }
}

/// Whether `x` is the chain instance of the steps of nodes `pn` from type `b`: the
/// identity on `b` for none, a copy of the one instance, or the chain of copies.
pub open spec fn spec_inner_inst<M: Morphism + Clone>(nodes: Seq<SearchNode<M>>, pn: Seq<usize>, b: TermV, x: MorphismInstance<M>) -> bool {
    exists|path: Seq<MorphismInstance<M>>| {
        &&& path.len() == pn.len()
        &&& forall|j: int| 0 <= j < pn.len() ==> spec_step_inst(nodes[pn[j] as int].step, nodes[pn[j] as int].psi@, #[trigger] path[j])
        &&& pn.len() == 0 ==> (x matches MorphismInstance::Id { tau } && tau@ == b)
        &&& pn.len() == 1 ==> spec_copied(path[0], x)
        &&& pn.len() > 1 ==> (x matches MorphismInstance::Chain { path: p } && spec_all_copied(path, p@))
    }
}

/// Whether `x` is the instance of the path that ends in node `i`, for a search in
/// context `g`: the chain of the path's steps from its start type, specialized to the
/// saturated bindings of the path's contexts (bound in `g`) where there are any.
pub open spec fn spec_chain_inst<M: Morphism + Clone>(nodes: Seq<SearchNode<M>>, i: int, g: crate::context::CtxV, x: MorphismInstance<M>) -> bool {
    let chain = spec_chain_rev(nodes, i);
    let f = spec_chain_fwd(chain);
    let s = spec_sigma_fold(nodes, chain, chain.len() as int).unwrap();
    let pn = spec_path_nodes(nodes, f);
    let b = spec_begin(nodes, f);
    if s.dom().len() > 0 {
        x matches MorphismInstance::Specialize { gamma: g2, m: inner }
            && g2@ == (crate::context::CtxV { sigma: g.sigma.union_prefer_right(s), ..g })
            && spec_inner_inst(nodes, pn, b, *inner)
    } else {
        spec_inner_inst(nodes, pn, b, x)
    }
}

/// The indices `a`, `a + 1`, .., `b - 1`.
pub open spec fn spec_range(a: nat, b: nat) -> Seq<usize> {
    Seq::new((b - a) as nat, |j: int| (a + j) as usize)
}

/// The bindings under which the path that ends in node `n` reaches a subtype of the
/// goal's destination; `None` where it does not (or the check exceeds the step budget).
pub open spec fn spec_goal_binding<M: Morphism + Clone>(n: SearchNode<M>, goal: MorphTypeV) -> Option<Map<u64, TermV>> {
    match spec_node_type(n) {
        Some(t) => match spec_subtype_unify(t.dst, goal.dst, STEP_BUDGET as nat) {
            Some(Ok((_, s))) => Some(s),
            _ => None,
        },
        None => None,
    }
}

/// One where the destination of the path that ends in `n` decomposes against the goal's
/// destination, else none.
pub open spec fn spec_decomp_bonus<M: Morphism + Clone>(n: SearchNode<M>, goal: MorphTypeV) -> nat {
    match spec_node_type(n) {
        Some(t) => if spec_decomposition(t.dst, goal.dst) matches Some(Some(_)) { 1 } else { 0 },
        None => 0,
    }
}

/// The decompositions of the destination `dst` of a path whose node has context `c`: by
/// the complex morphisms of the base (each in a new scope of `c`), then against the
/// goal's destination `gdst`; with the context that the enumeration leaves.
pub open spec fn spec_decomps<M: Morphism>(c: CtxV, dst: TermV, gdst: TermV, ms: Seq<M>)
    -> (CtxV, Seq<(TermV, CtxV, Map<u64, TermV>, DecompV)>)
{
    let (c1, found) = match spec_enum_complex(c, dst, ms) {
        Some((g, f)) => (g, f),
        None => (c, Seq::empty()),
    };
    match spec_decomposition(dst, gdst) {
        Some(Some((psi, d))) => (c1, found.push((psi, c1, Map::empty(), d))),
        _ => (c1, found),
    }
}

/// The halo, substitution and decomposed type of each decomposition: what tells two
/// decompositions apart when they are mapped.
pub open spec fn spec_keys(k: Seq<(TermV, CtxV, Map<u64, TermV>, DecompV)>) -> Seq<(TermV, Map<u64, TermV>, DecompV)> {
    Seq::new(k.len(), |j: int| (k[j].0, k[j].2, k[j].3))
}

/// Whether `keys` holds `x`.
pub open spec fn spec_has_key(keys: Seq<(TermV, Map<u64, TermV>, DecompV)>, x: (TermV, Map<u64, TermV>, DecompV)) -> bool {
    exists|j: int| 0 <= j < keys.len() && #[trigger] keys[j] == x
}

/// The decompositions that are mapped: the non-trivial ones, each (by halo, substitution
/// and decomposed type) once, in order.
pub open spec fn spec_kept(ds: Seq<(TermV, CtxV, Map<u64, TermV>, DecompV)>) -> Seq<(TermV, CtxV, Map<u64, TermV>, DecompV)>
    decreases ds.len(),
{
    if ds.len() == 0 {
        Seq::empty()
    } else {
        let k = spec_kept(ds.drop_last());
        let e = ds.last();
        if !spec_decomp_trivial(e.3) && !spec_has_key(spec_keys(k), (e.0, e.2, e.3)) { k.push(e) } else { k }
    }
}

/// The chains that the morphisms of the base give for a destination `dst` in context
/// `c`, with the context that the enumeration leaves.
pub open spec fn spec_chains<M: Morphism>(c: CtxV, dst: TermV, ms: Seq<M>) -> (CtxV, Seq<(TermV, CtxV, Map<u64, TermV>, int)>) {
    match spec_enum_from(c, dst, ms) {
        Some((g, f)) => (g, f),
        None => (c, Seq::empty()),
    }
}

/// Whether `c` is what mapping decomposition `e` of the destination of node `pn` (at
/// position `pred`, its context's scope count at `sc`) gives as node `id`: `None` where
/// the floor of the destination has not the shape of the decomposition or the scopes
/// cannot be counted any further; otherwise the map node under the decomposition's halo
/// and context, with fresh searches for the decomposition's goals.
pub open spec fn spec_map_cand<M: Morphism + Clone>(pn: SearchNode<M>, pred: usize, sc: u64, id: u64,
    e: (TermV, CtxV, Map<u64, TermV>, DecompV), c: Option<SearchNode<M>>) -> bool
{
    let fl = spec_floor(pn.ty@.dst).1;
    match c {
        None => match e.3 {
            DecompV::SeqMap { .. } => !(fl is Sequence) || sc == u64::MAX,
            DecompV::StructMap { members } => !(fl is Struct) || sc + members.len() > u64::MAX,
            DecompV::EnumMap { variants } => !(fl is Enum) || sc + variants.len() > u64::MAX,
        },
        Some(n) => {
            &&& n.id == id
            &&& n.pred == Some(pred)
            &&& n.weight == spec_node_weight(pn)
            &&& n.est_remain == 0
            &&& n.ctx@ == e.1
            &&& n.psi@ == e.0
            &&& match e.3 {
                DecompV::SeqMap { item } => fl matches TermV::Sequence { repr, .. } && {
                    &&& n.ty@ == (MorphTypeV {
                            gamma: Seq::empty(),
                            bounds: Seq::empty(),
                            src: TermV::Sequence { repr, item: Box::new(item.src) },
                            dst: TermV::Sequence { repr, item: Box::new(item.dst) },
                        })
                    &&& n.step matches Step::MapSeq { seq_repr, item: s } && opt_view(seq_repr) == repr
                        && s.spec_goal() == item && s.spec_solution() is None && s.spec_nodes().len() == 1
                },
                DecompV::StructMap { members } => fl matches TermV::Struct { repr, .. } && exists|gs: Seq<(String, MorphismType)>| #![trigger named_types_view(gs)] {
                    &&& named_types_view(gs) == members
                    &&& n.ty@ == (MorphTypeV {
                            gamma: Seq::empty(),
                            bounds: Seq::empty(),
                            src: TermV::Struct { repr, members: spec_goals_fields(gs, false) },
                            dst: TermV::Struct { repr, members: spec_goals_fields(gs, true) },
                        })
                    &&& n.step matches Step::MapStruct { struct_repr, members: subs } && opt_view(struct_repr) == repr
                        && spec_fresh_searches(subs@, gs)
                },
                DecompV::EnumMap { variants } => fl matches TermV::Enum { repr, .. } && exists|gs: Seq<(String, MorphismType)>| #![trigger named_types_view(gs)] {
                    &&& named_types_view(gs) == variants
                    &&& n.ty@ == (MorphTypeV {
                            gamma: Seq::empty(),
                            bounds: Seq::empty(),
                            src: TermV::Enum { repr, variants: spec_goals_fields(gs, false) },
                            dst: TermV::Enum { repr, variants: spec_goals_fields(gs, true) },
                        })
                    &&& n.step matches Step::MapEnum { enum_repr, variants: subs } && opt_view(enum_repr) == repr
                        && spec_fresh_searches(subs@, gs)
                },
            }
        },
    }
}

/// Whether `c` is what chaining a clone of morphism `x` (found with halo `e.0`, scope
/// `e.1` and substitution `e.2`) to node `pn` (at position `pred`) gives as node `id`:
/// `None` where the halo or the path's type has no normal form within the step budget;
/// otherwise the chain node, under the normalized halo and the scope, with a clone of `x`
/// and the substitution.
pub open spec fn spec_chain_node<M: Morphism + Clone>(pn: SearchNode<M>, pred: usize, id: u64,
    e: (TermV, CtxV, Map<u64, TermV>), x: M, c: Option<SearchNode<M>>) -> bool
{
    match (spec_normalize(e.0, STEP_BUDGET as nat), spec_node_type(pn)) {
        (Some(psi), Some(t)) => c matches Some(n) && {
            &&& n.id == id
            &&& n.pred == Some(pred)
            &&& n.weight == spec_node_weight(pn)
            &&& n.est_remain == 0
            &&& n.ctx@ == e.1
            &&& n.psi@ == psi
            &&& n.step matches Step::Prim { sigmas, m } && {
                &&& subst_view(sigmas) == e.2
                &&& cloned(x, m)
                &&& n.ty@ == (MorphTypeV {
                        gamma: e.1.gamma,
                        bounds: Seq::empty(),
                        src: t.src,
                        dst: spec_apply(m.spec_type().dst, e.2),
                    })
            }
        },
        _ => c is None,
    }
}

/// Whether `c` is what chaining the morphism of entry `e` of the base (halo, scope,
/// substitution, index into `ms`) to node `pn` gives as node `id`: as `spec_chain_node`,
/// for a clone of the morphism.
pub open spec fn spec_chain_cand<M: Morphism + Clone>(pn: SearchNode<M>, pred: usize, id: u64,
    e: (TermV, CtxV, Map<u64, TermV>, int), ms: Seq<M>, c: Option<SearchNode<M>>) -> bool
{
    exists|x: M| #[trigger] cloned(ms[e.3], x) && spec_chain_node(pn, pred, id, (e.0, e.1, e.2), x, c)
}

/// The node that one candidate adds to `nodes`: none for no candidate or one whose path
/// returns to a type it has passed, else the candidate as it is queued.
pub open spec fn spec_step_added<M: Morphism + Clone>(nodes: Seq<SearchNode<M>>, goal: MorphTypeV, co: Option<SearchNode<M>>) -> Seq<SearchNode<M>> {
    match co {
        Some(c) => if spec_creates_loop(nodes, c) { Seq::empty() } else { seq![spec_queued(c, goal)] },
        None => Seq::empty(),
    }
}

/// The nodes that the candidates `cs`, in order, add to `nodes`.
pub open spec fn spec_added<M: Morphism + Clone>(nodes: Seq<SearchNode<M>>, goal: MorphTypeV, cs: Seq<Option<SearchNode<M>>>) -> Seq<SearchNode<M>>
    decreases cs.len(),
{
    if cs.len() == 0 {
        Seq::empty()
    } else {
        let a = spec_added(nodes, goal, cs.drop_last());
        a + spec_step_added(nodes + a, goal, cs.last())
    }
}

/// Whether `added` are the nodes that expanding node `i` of `nodes` (its weight then `w`)
/// adds in a search for `goal` with the morphisms `ms`, with node ids from `id0`: a map
/// node for each decomposition that is mapped, then a chain node for each morphism that
/// applies, in order, each unless its path returns to a type it has passed.  (Stated
/// where the ids suffice.)
pub open spec fn spec_expansion<M: Morphism + Clone>(nodes: Seq<SearchNode<M>>, i: usize, w: u64, goal: MorphTypeV,
    ms: Seq<M>, id0: u64, added: Seq<SearchNode<M>>) -> bool
{
    let pn = SearchNode { weight: w, ..nodes[i as int] };
    match spec_node_type(nodes[i as int]) {
        None => added.len() == 0,
        Some(t) => {
            let (c1, ds) = spec_decomps(nodes[i as int].ctx@, t.dst, goal.dst, ms);
            let kept = spec_kept(ds);
            let found = spec_chains(c1, t.dst, ms).1;
            id0 + kept.len() + found.len() <= u64::MAX ==> exists|cm: Seq<Option<SearchNode<M>>>, cc: Seq<Option<SearchNode<M>>>| {
                &&& cm.len() == kept.len()
                &&& (forall|k: int| 0 <= k < kept.len() ==> spec_map_cand(pn, i, c1.sub_count, (id0 + k) as u64, kept[k], #[trigger] cm[k]))
                &&& cc.len() == found.len()
                &&& (forall|j: int| 0 <= j < found.len() ==> spec_chain_cand(pn, i, (id0 + kept.len() + j) as u64, found[j], ms, #[trigger] cc[j]))
                &&& added == spec_added(nodes, goal, cm + cc)
            }
        },
    }
}

/// The halo, substitution and decomposed type of each entry of `done`.
pub open spec fn spec_done_keys(done: Seq<(TypeTerm, HashMapSubst, DecomposedMorphismType)>) -> Seq<(TermV, Map<u64, TermV>, DecompV)> {
    Seq::new(done.len(), |j: int| (done[j].0@, subst_view(done[j].1), done[j].2@))
}

/// A decomposition entry as plain values.
pub open spec fn spec_dview(e: (TypeTerm, ContextPtr, HashMapSubst, DecomposedMorphismType)) -> (TermV, CtxV, Map<u64, TermV>, DecompV) {
    (e.0@, e.1@, subst_view(e.2), e.3@)
}

proof fn lemma_ctx_sub_count(c: CtxV, x: u64)
    ensures
        ctx_subst(CtxV { sub_count: x, ..c }) == ctx_subst(c),
{
    let c2 = CtxV { sub_count: x, ..c };
    assert forall|v: u64| ctx_lookup(c2, v) == ctx_lookup(c, v) by {}
    assert(ctx_subst(c2) =~= ctx_subst(c));
}

/// Two nodes that differ at most in their weight and in the scope count of their
/// context end their paths in the same types.
proof fn lemma_node_types_same<M: Morphism + Clone>(n1: SearchNode<M>, n2: SearchNode<M>)
    requires
        n1.psi == n2.psi,
        n1.ty == n2.ty,
        n1.step == n2.step,
        n2.ctx@ == (CtxV { sub_count: n2.ctx@.sub_count, ..n1.ctx@ }),
    ensures
        spec_node_type(n1) == spec_node_type(n2),
        spec_prev_type(n1) == spec_prev_type(n2),
{
    lemma_ctx_sub_count(n1.ctx@, n2.ctx@.sub_count);
}

proof fn lemma_enum_complex_ctx<M: Morphism>(g: CtxV, src: TermV, ms: Seq<M>)
    ensures
        spec_enum_complex(g, src, ms) matches Some((g2, _)) ==> g2 == (CtxV { sub_count: g2.sub_count, ..g }),
    decreases ms.len(),
{
    if ms.len() > 0 {
        lemma_enum_complex_ctx(g, src, ms.drop_last());
    }
}

proof fn lemma_enum_from_ctx<M: Morphism>(g: CtxV, src: TermV, ms: Seq<M>)
    ensures
        spec_enum_from(g, src, ms) matches Some((g2, _)) ==> g2 == (CtxV { sub_count: g2.sub_count, ..g }),
    decreases ms.len(),
{
    if ms.len() > 0 {
        lemma_enum_from_ctx(g, src, ms.drop_last());
    }
}

/// Whether two node sequences agree in length, predecessors and the types their paths
/// end in.
pub open spec fn spec_same_paths<M: Morphism + Clone>(a: Seq<SearchNode<M>>, b: Seq<SearchNode<M>>) -> bool {
    &&& a.len() == b.len()
    &&& forall|j: int| 0 <= j < a.len() ==> (#[trigger] a[j]).pred == b[j].pred && spec_prev_type(a[j]) == spec_prev_type(b[j])
}

proof fn lemma_loop_same<M: Morphism + Clone>(a: Seq<SearchNode<M>>, b: Seq<SearchNode<M>>, p: Option<usize>, end: TermV, bound: int)
    requires
        spec_same_paths(a, b),
    ensures
        spec_loop(a, p, end, bound) == spec_loop(b, p, end, bound),
    decreases bound,
{
    if let Some(i) = p {
        if (i as int) < bound && (i as int) < a.len() {
            assert(a[i as int].pred == b[i as int].pred);
            lemma_loop_same(a, b, a[i as int].pred, end, i as int);
        }
    }
}

proof fn lemma_same_paths_extend<M: Morphism + Clone>(a: Seq<SearchNode<M>>, b: Seq<SearchNode<M>>, x: Seq<SearchNode<M>>)
    requires
        spec_same_paths(a, b),
    ensures
        spec_same_paths(a + x, b + x),
{
    assert forall|j: int| 0 <= j < (a + x).len() implies (#[trigger] (a + x)[j]).pred == (b + x)[j].pred
        && spec_prev_type((a + x)[j]) == spec_prev_type((b + x)[j]) by {
        if j < a.len() {
            assert((a + x)[j] == a[j]);
            assert((b + x)[j] == b[j]);
        } else {
            assert((a + x)[j] == x[j - a.len()]);
            assert((b + x)[j] == x[j - b.len()]);
        }
    }
}

/// The nodes that candidates add depend on the nodes before only through their paths.
proof fn lemma_added_same<M: Morphism + Clone>(a: Seq<SearchNode<M>>, b: Seq<SearchNode<M>>, goal: MorphTypeV, cs: Seq<Option<SearchNode<M>>>)
    requires
        spec_same_paths(a, b),
    ensures
        spec_added(a, goal, cs) == spec_added(b, goal, cs),
    decreases cs.len(),
{
    if cs.len() > 0 {
        lemma_added_same(a, b, goal, cs.drop_last());
        let x = spec_added(a, goal, cs.drop_last());
        lemma_same_paths_extend(a, b, x);
        if let Some(c) = cs.last() {
            if let Some(t) = spec_node_type(c) {
                lemma_loop_same(a + x, b + x, c.pred, t.dst, (a + x).len() as int);
            }
        }
    }
}

proof fn lemma_added_concat<M: Morphism + Clone>(base: Seq<SearchNode<M>>, goal: MorphTypeV, cs1: Seq<Option<SearchNode<M>>>, cs2: Seq<Option<SearchNode<M>>>)
    ensures
        spec_added(base, goal, cs1 + cs2) == spec_added(base, goal, cs1) + spec_added(base + spec_added(base, goal, cs1), goal, cs2),
    decreases cs2.len(),
{
    let a1 = spec_added(base, goal, cs1);
    if cs2.len() == 0 {
        assert(cs1 + cs2 =~= cs1);
        assert(a1 + Seq::<SearchNode<M>>::empty() =~= a1);
    } else {
        lemma_added_concat(base, goal, cs1, cs2.drop_last());
        assert((cs1 + cs2).drop_last() =~= cs1 + cs2.drop_last());
        assert((cs1 + cs2).last() == cs2.last());
        let x = spec_added(base + a1, goal, cs2.drop_last());
        assert(base + (a1 + x) =~= (base + a1) + x);
        assert(a1 + x + spec_step_added(base + (a1 + x), goal, cs2.last()) =~= a1 + (x + spec_step_added((base + a1) + x, goal, cs2.last())));
    }
}

proof fn lemma_kept_mono(ds: Seq<(TermV, CtxV, Map<u64, TermV>, DecompV)>, k: int)
    requires
        0 <= k <= ds.len(),
    ensures
        spec_kept(ds.subrange(0, k)).len() <= spec_kept(ds).len(),
    decreases ds.len() - k,
{
    if k == ds.len() {
        assert(ds.subrange(0, k) =~= ds);
    } else {
        lemma_kept_mono(ds, k + 1);
        assert(ds.subrange(0, k + 1).drop_last() =~= ds.subrange(0, k));
    }
}

proof fn lemma_chain_cand_same<M: Morphism + Clone>(p1: SearchNode<M>, p2: SearchNode<M>, pred: usize, id: u64,
    e: (TermV, CtxV, Map<u64, TermV>, int), ms: Seq<M>, c: Option<SearchNode<M>>)
    requires
        p1.weight == p2.weight,
        p1.step == p2.step,
        spec_node_type(p1) == spec_node_type(p2),
    ensures
        spec_chain_cand(p1, pred, id, e, ms, c) == spec_chain_cand(p2, pred, id, e, ms, c),
{
    assert forall|x: M| spec_chain_node(p1, pred, id, (e.0, e.1, e.2), x, c) == spec_chain_node(p2, pred, id, (e.0, e.1, e.2), x, c) by {}
}

/// The expansion of a node depends on the nodes before only through their paths and on
/// the node itself only apart from its weight.
proof fn lemma_expansion_base<M: Morphism + Clone>(a: Seq<SearchNode<M>>, b: Seq<SearchNode<M>>, i: usize, w: u64,
    goal: MorphTypeV, ms: Seq<M>, id0: u64, added: Seq<SearchNode<M>>)
    requires
        spec_same_paths(a, b),
        (i as int) < a.len(),
        (SearchNode { weight: w, ..a[i as int] }) == (SearchNode { weight: w, ..b[i as int] }),
        spec_expansion(a, i, w, goal, ms, id0, added),
    ensures
        spec_expansion(b, i, w, goal, ms, id0, added),
{
    let pa = SearchNode { weight: w, ..a[i as int] };
    assert(a[i as int].ctx == pa.ctx && b[i as int].ctx == pa.ctx);
    assert(spec_node_type(a[i as int]) == spec_node_type(pa));
    assert(spec_node_type(b[i as int]) == spec_node_type(pa));
    if let Some(t) = spec_node_type(a[i as int]) {
        let (c1, ds) = spec_decomps(a[i as int].ctx@, t.dst, goal.dst, ms);
        let kept = spec_kept(ds);
        let found = spec_chains(c1, t.dst, ms).1;
        if id0 + kept.len() + found.len() <= u64::MAX {
            let (cm, cc) = choose|cm: Seq<Option<SearchNode<M>>>, cc: Seq<Option<SearchNode<M>>>| {
                &&& cm.len() == kept.len()
                &&& (forall|k: int| 0 <= k < kept.len() ==> spec_map_cand(pa, i, c1.sub_count, (id0 + k) as u64, kept[k], #[trigger] cm[k]))
                &&& cc.len() == found.len()
                &&& (forall|j: int| 0 <= j < found.len() ==> spec_chain_cand(pa, i, (id0 + kept.len() + j) as u64, found[j], ms, #[trigger] cc[j]))
                &&& added == spec_added(a, goal, cm + cc)
            };
            lemma_added_same(a, b, goal, cm + cc);
        }
    }
}

/// What queueing the successors of node `i` leaves is its expansion: `n1` is the nodes
/// after the node took the context of the complex enumeration, the maps' candidates `cm`
/// were then added, the node took the context of the chains' enumeration (giving `n2`),
/// and the chains' candidates `cc` were added (giving `fin`).
proof fn lemma_successors_expansion<M: Morphism + Clone>(nodes: Seq<SearchNode<M>>, n1: Seq<SearchNode<M>>, n2: Seq<SearchNode<M>>,
    fin: Seq<SearchNode<M>>, i: usize, t: MorphTypeV, goal: MorphTypeV, ms: Seq<M>, id0: u64,
    cm: Seq<Option<SearchNode<M>>>, cc: Seq<Option<SearchNode<M>>>, stopped: bool, stopped2: bool)
    requires
        (i as int) < nodes.len(),
        spec_node_type(nodes[i as int]) == Some(t),
        n1.len() == nodes.len(),
        forall|j: int| 0 <= j < nodes.len() && j != i ==> n1[j] == nodes[j],
        n1[i as int] == (SearchNode { ctx: n1[i as int].ctx, ..nodes[i as int] }),
        n1[i as int].ctx@ == spec_decomps(nodes[i as int].ctx@, t.dst, goal.dst, ms).0,
        stopped ==> id0 + spec_kept(spec_decomps(nodes[i as int].ctx@, t.dst, goal.dst, ms).1).len() > u64::MAX,
        !stopped ==> cm.len() == spec_kept(spec_decomps(nodes[i as int].ctx@, t.dst, goal.dst, ms).1).len()
            && forall|m: int| 0 <= m < cm.len() ==> spec_map_cand(n1[i as int], i, n1[i as int].ctx@.sub_count,
                (id0 + m) as u64, spec_kept(spec_decomps(nodes[i as int].ctx@, t.dst, goal.dst, ms).1)[m], #[trigger] cm[m]),
        n2.len() == n1.len() + spec_added(n1, goal, cm).len(),
        forall|j: int| 0 <= j < n2.len() && j != i ==> n2[j] == (n1 + spec_added(n1, goal, cm))[j],
        n2[i as int] == (SearchNode { ctx: n2[i as int].ctx, ..n1[i as int] }),
        n2[i as int].ctx@ == spec_chains(n1[i as int].ctx@, t.dst, ms).0,
        stopped2 ==> id0 + cm.len() + spec_chains(n1[i as int].ctx@, t.dst, ms).1.len() > u64::MAX,
        !stopped2 ==> cc.len() == spec_chains(n1[i as int].ctx@, t.dst, ms).1.len()
            && forall|l: int| 0 <= l < cc.len() ==> spec_chain_cand(n2[i as int], i, (id0 + cm.len() + l) as u64,
                spec_chains(n1[i as int].ctx@, t.dst, ms).1[l], ms, #[trigger] cc[l]),
        fin == n2 + spec_added(n2, goal, cc),
    ensures
        spec_expansion(nodes, i, nodes[i as int].weight, goal, ms, id0, fin.subrange(nodes.len() as int, fin.len() as int)),
{
    let n0 = nodes[i as int];
    let l0 = nodes.len();
    let (c1, ds) = spec_decomps(n0.ctx@, t.dst, goal.dst, ms);
    let kept = spec_kept(ds);
    let cs = spec_chains(c1, t.dst, ms);
    let fnd = cs.1;
    lemma_enum_complex_ctx(n0.ctx@, t.dst, ms);
    lemma_enum_from_ctx(c1, t.dst, ms);
    assert(c1 == (CtxV { sub_count: c1.sub_count, ..n0.ctx@ }));
    assert(cs.0 == (CtxV { sub_count: cs.0.sub_count, ..n0.ctx@ }));
    lemma_node_types_same(n0, n1[i as int]);
    lemma_node_types_same(n0, n2[i as int]);
    assert forall|j: int| 0 <= j < n1.len() implies (#[trigger] nodes[j]).pred == n1[j].pred
        && spec_prev_type(nodes[j]) == spec_prev_type(n1[j]) by {}
    assert(spec_same_paths(nodes, n1));
    if id0 + kept.len() + fnd.len() <= u64::MAX {
        assert(!stopped);
        assert(!stopped2);
        let pn = SearchNode { weight: n0.weight, ..n0 };
        assert(pn == n0);
        assert forall|m: int| 0 <= m < kept.len() implies spec_map_cand(pn, i, c1.sub_count, (id0 + m) as u64, kept[m], #[trigger] cm[m]) by {
            assert(spec_map_cand(n1[i as int], i, c1.sub_count, (id0 + m) as u64, kept[m], cm[m]));
        }
        assert forall|l: int| 0 <= l < fnd.len() implies spec_chain_cand(pn, i, (id0 + kept.len() + l) as u64, fnd[l], ms, #[trigger] cc[l]) by {
            lemma_chain_cand_same(n2[i as int], pn, i, (id0 + cm.len() + l) as u64, fnd[l], ms, cc[l]);
        }
        let a1 = spec_added(n1, goal, cm);
        lemma_added_concat(nodes, goal, cm, cc);
        lemma_added_same(nodes, n1, goal, cm);
        let base2 = nodes + a1;
        assert forall|q: int| 0 <= q < base2.len() implies (#[trigger] base2[q]).pred == n2[q].pred
            && spec_prev_type(base2[q]) == spec_prev_type(n2[q]) by {
            if q < l0 {
                assert(base2[q] == nodes[q]);
                if q != i {
                    assert(n2[q] == (n1 + a1)[q]);
                    assert((n1 + a1)[q] == n1[q]);
                }
            } else {
                assert(base2[q] == a1[q - l0]);
                assert(n2[q] == (n1 + a1)[q]);
                assert((n1 + a1)[q] == a1[q - l0]);
            }
        }
        assert(spec_same_paths(base2, n2));
        lemma_added_same(base2, n2, goal, cc);
        assert forall|q: int| 0 <= q < a1.len() implies n2[l0 + q] == a1[q] by {
            assert((n1 + a1)[l0 + q] == a1[q]);
        }
        assert(fin.subrange(l0 as int, fin.len() as int) =~= spec_added(nodes, goal, cm + cc));
    }
}

/// What one step of a search does with the queued entry at position `k` (node `i`):
/// other nodes stay as they were; where the entry is solved, the solution is the
/// instance of its path; where it is not, the entry leaves the queue and either the new
/// nodes, all successors of node `i`, are queued in order, or (while the searches of its
/// step need more steps) node `i` is queued again; and where the node's step is a start or a morphism (so it needs
/// no searches of its own), the step is solved exactly where the path reaches a subtype
/// of the goal's destination (with the node's context binding what that check found)
/// and the path gives an instance; otherwise the entry leaves the queue and the new
/// nodes, all successors of the node, at most two for each morphism of the base and one
/// for a decomposition against the goal, are queued in order; where the path does not
/// reach the goal, they are the nodes of its expansion (`spec_expansion`), with node ids
/// from `id0`.
#[verifier::opaque]
pub open spec fn spec_advanced<M: Morphism + Clone>(
    nodes: Seq<SearchNode<M>>, queue: Seq<usize>, goal: MorphTypeV, k: int, ms: Seq<M>, id0: u64,
    nodes2: Seq<SearchNode<M>>, queue2: Seq<usize>, gamma2: crate::context::CtxV,
    solution2: Option<MorphismInstance<M>>, r: GraphSearchState<M>,
) -> bool {
    let i = queue[k];
    let n = nodes[i as int];
    &&& (i as int) < nodes.len() <= nodes2.len()
    &&& forall|j: int| 0 <= j < nodes.len() && j != i ==> nodes2[j] == nodes[j]
    &&& (r is Solved ==> {
        &&& queue2 == queue.remove(k)
        &&& spec_instance_ok(nodes2, i as int)
        &&& solution2 matches Some(s) && spec_chain_inst(nodes2, i as int, gamma2, s)
    })
    &&& (!(r is Solved) ==> {
        &&& forall|j: int| nodes.len() <= j < nodes2.len() ==> (#[trigger] nodes2[j]).pred == Some(i)
        &&& (queue2 == queue.remove(k) + spec_range(nodes.len(), nodes2.len())
            || (queue2 == queue.remove(k).push(i) && nodes2.len() == nodes.len()))
    })
    &&& ((n.step is Id || n.step is Prim) ==> {
        &&& nodes2[i as int].step == n.step
        &&& nodes2[i as int].psi == n.psi
        &&& nodes2[i as int].ty == n.ty
        &&& nodes2[i as int].pred == n.pred
        &&& (r is Solved) == (spec_goal_binding(n, goal) is Some && spec_instance_ok(nodes2, i as int))
        &&& (spec_goal_binding(n, goal) matches Some(s) ==>
            nodes2[i as int].ctx@ == (crate::context::CtxV { sigma: n.ctx@.sigma.union_prefer_right(s), ..n.ctx@ }))
        &&& (!(r is Solved) ==> {
            &&& nodes2.len() <= nodes.len() + 2 * ms.len() + spec_decomp_bonus(n, goal)
            &&& queue2 == queue.remove(k) + spec_range(nodes.len(), nodes2.len())
            &&& forall|j: int| nodes.len() <= j < nodes2.len() ==> (#[trigger] nodes2[j]).pred == Some(i)
            &&& (spec_goal_binding(n, goal) is None ==> spec_expansion(nodes, i, nodes2[i as int].weight, goal, ms,
                id0, nodes2.subrange(nodes.len() as int, nodes2.len() as int)))
        })
    })
}

proof fn lemma_chain_rev_valid<M: Morphism + Clone>(nodes: Seq<SearchNode<M>>, i: int)
    requires
        0 <= i < nodes.len(),
        nodes.len() <= usize::MAX,
    ensures
        spec_chain_rev(nodes, i).len() >= 1,
        spec_chain_rev(nodes, i)[0] == i,
        forall|k: int| 0 <= k < spec_chain_rev(nodes, i).len() ==> (#[trigger] spec_chain_rev(nodes, i)[k]) <= i,
    decreases i,
{
    match nodes[i].pred {
        Some(p) => if (p as int) < i {
            lemma_chain_rev_valid(nodes, p as int);
        },
        None => {},
    }
}

/// The solved searches of a map, by symbol.
fn solved_all<M: Morphism + Clone>(v: &Vec<(String, GraphSearch<M>)>) -> (r: Option<Vec<(String, MorphismInstance<M>)>>)
    ensures
        r is Some <==> forall|i: int| 0 <= i < v@.len() ==> (#[trigger] v@[i]).1.spec_solution() is Some,
        r matches Some(o) ==> spec_solved_copies(v@, o@),
{
    let mut out: Vec<(String, MorphismInstance<M>)> = Vec::new();
    let mut i: usize = 0;
    while i < v.len()
        invariant
            i <= v.len(),
            out@.len() == i,
            forall|j: int| 0 <= j < i ==> (#[trigger] v@[j]).1.spec_solution() is Some,
            forall|j: int| 0 <= j < i ==> (#[trigger] out@[j]).0@ == v@[j].0@
                && (v@[j].1.spec_solution() matches Some(sol) && spec_copied(sol, out@[j].1)),
        decreases v.len() - i,
    {
        match v[i].1.get_solution() {
            Some(m) => {
                out.push((v[i].0.clone(), m));
            },
            None => {
                return None;
            },
        }
        i += 1;
    }
    Some(out)
}

/// The instance of one step under halo `psi`; `Ok(None)` for the start of a path, `Err`
/// where a search of the step is unsolved.
fn step_instance<M: Morphism + Clone>(step: &Step<M>, psi: &TypeTerm) -> (r: Result<Option<MorphismInstance<M>>, ()>)
    ensures
        r is Ok <==> spec_step_ready(*step),
        r matches Ok(None) ==> step is Id,
        r matches Ok(Some(x)) ==> !(step is Id) && spec_step_inst(*step, psi@, x),
{
    let inst = match step {
        Step::Id { .. } => {
            return Ok(None);
        },
        Step::Prim { sigmas, m } => MorphismInstance::Primitive { sigmas: copy_subst(sigmas), m: m.clone() },
        Step::MapSeq { seq_repr, item } => match item.get_solution() {
            Some(sol) => MorphismInstance::MapSeq { seq_repr: copy_opt(seq_repr), item_morph: Box::new(sol) },
            None => {
                return Err(());
            },
        },
        Step::MapStruct { struct_repr, members } => match solved_all(members) {
            Some(ms) => MorphismInstance::MapStruct { struct_repr: copy_opt(struct_repr), member_morph: ms },
            None => {
                return Err(());
            },
        },
        Step::MapEnum { enum_repr, variants } => match solved_all(variants) {
            Some(vs) => MorphismInstance::MapEnum { enum_repr: copy_opt(enum_repr), variant_morph: vs },
            None => {
                return Err(());
            },
        },
    };
    if !psi.is_empty() {
        Ok(Some(MorphismInstance::Sub { psi: psi.copy(), m: Box::new(inst) }))
    } else {
        Ok(Some(inst))
    }
}

impl<M: Morphism + Clone> GraphSearch<M> {
    /// The indices of the path that ends in node `i`, from `i` back to its start.
    fn chain_rev(&self, i: usize) -> (r: Vec<usize>)
        requires
            i < self.nodes@.len(),
        ensures
            r@ == spec_chain_rev(self.nodes@, i as int),
    {
        let mut out: Vec<usize> = Vec::new();
        out.push(i);
        let mut cur: usize = i;
        assert(self.nodes@.len() == self.nodes.len());
        assert(spec_chain_rev(self.nodes@, i as int) =~= out@ + spec_chain_rev(self.nodes@, cur as int).drop_first());
        loop
            invariant
                cur < self.nodes@.len(),
                self.nodes@.len() <= usize::MAX,
                spec_chain_rev(self.nodes@, i as int) == out@ + spec_chain_rev(self.nodes@, cur as int).drop_first(),
            ensures
                spec_chain_rev(self.nodes@, i as int) == out@,
            decreases cur,
        {
            match self.nodes[cur].pred {
                Some(p) => {
                    if p < cur {
                        let ghost old_cur = cur;
                        out.push(p);
                        cur = p;
                        proof {
                            assert(spec_chain_rev(self.nodes@, old_cur as int) == seq![old_cur as usize] + spec_chain_rev(self.nodes@, p as int));
                            assert(spec_chain_rev(self.nodes@, old_cur as int).drop_first() =~= spec_chain_rev(self.nodes@, p as int));
                            lemma_chain_rev_valid(self.nodes@, p as int);
                            assert(spec_chain_rev(self.nodes@, p as int) =~= seq![p] + spec_chain_rev(self.nodes@, p as int).drop_first());
                        }
                    } else {
                        assert(spec_chain_rev(self.nodes@, cur as int).drop_first() =~= Seq::<usize>::empty());
                        assert(out@ + Seq::<usize>::empty() =~= out@);
                        break;
                    }
                },
                None => {
                    assert(spec_chain_rev(self.nodes@, cur as int).drop_first() =~= Seq::<usize>::empty());
                    assert(out@ + Seq::<usize>::empty() =~= out@);
                    break;
                },
            }
        }
        out
    }

    /// The instance of the path that ends in node `i`: the chain of its steps from the
    /// start type, each under its halo, specialized to the bindings of the nodes'
    /// contexts where there are any; `None` where a search of the path is unsolved or the
    /// bindings do not saturate within the step budget.
    pub fn to_morphism_instance(&self, i: usize) -> (r: Option<MorphismInstance<M>>)
        requires
            i < self.spec_nodes().len(),
        ensures
            r is Some <==> spec_instance_ok(self.spec_nodes(), i as int),
            r matches Some(x) ==> spec_chain_inst(self.spec_nodes(), i as int, self.spec_gamma(), x),
    {
        broadcast use vstd::std_specs::hash::group_hash_axioms;
        let chain = self.chain_rev(i);
        let ghost nodes = self.nodes@;
        let ghost f = spec_chain_fwd(chain@);
        assert(nodes.len() == self.nodes.len());
        proof { lemma_chain_rev_valid(nodes, i as int); }
        let mut begin = TypeTerm::unit();
        let mut path: Vec<MorphismInstance<M>> = Vec::new();
        let mut sigma: HashMapSubst = HashMapSubst::new();
        assert(subst_view(sigma) =~= Map::<u64, TermV>::empty());
        let n = chain.len();
        let mut k: usize = 0;
        assert(f.subrange(0, 0) =~= Seq::<usize>::empty());
        while k < n
            invariant
                k <= n,
                n == chain@.len(),
                nodes == self.nodes@,
                chain@ == spec_chain_rev(nodes, i as int),
                f == spec_chain_fwd(chain@),
                forall|j: int| 0 <= j < chain@.len() ==> (#[trigger] chain@[j]) <= i,
                i < nodes.len(),
                spec_sigma_fold(nodes, chain@, k as int) == Some(subst_view(sigma)),
                forall|j: int| n - k <= j < n ==> spec_step_ready(nodes[#[trigger] chain@[j] as int].step),
                begin@ == spec_begin(nodes, f.subrange(0, k as int)),
                path@.len() == spec_path_nodes(nodes, f.subrange(0, k as int)).len(),
                forall|j: int| 0 <= j < path@.len() ==> spec_step_inst(
                    nodes[spec_path_nodes(nodes, f.subrange(0, k as int))[j] as int].step,
                    nodes[spec_path_nodes(nodes, f.subrange(0, k as int))[j] as int].psi@,
                    #[trigger] path@[j]),
            decreases n - k,
        {
            let idx = chain[n - 1 - k];
            let ghost pk = spec_path_nodes(nodes, f.subrange(0, k as int));
            proof {
                assert(f[k as int] == idx);
                assert(f.subrange(0, k + 1).drop_last() =~= f.subrange(0, k as int));
                assert(f.subrange(0, k + 1).last() == idx);
            }
            let node = &self.nodes[idx];
            append_subst(&mut sigma, node.ctx.get_sigma());
            match saturate_f(&sigma, STEP_BUDGET) {
                Some(s) => {
                    sigma = s;
                },
                None => {
                    proof { lemma_sigma_fold_none(nodes, chain@, k as int + 1); }
                    return None;
                },
            }
            match step_instance(&node.step, &node.psi) {
                Ok(Some(m)) => {
                    path.push(m);
                    proof {
                        let pk1 = spec_path_nodes(nodes, f.subrange(0, k + 1));
                        assert(pk1 == pk.push(idx));
                        assert forall|j: int| 0 <= j < path@.len() implies spec_step_inst(
                            nodes[pk1[j] as int].step, nodes[pk1[j] as int].psi@, #[trigger] path@[j]) by {
                            if j < pk.len() {
                                assert(pk1[j] == pk[j]);
                            }
                        }
                    }
                },
                Ok(None) => {
                    match &node.step {
                        Step::Id { tau } => {
                            begin = tau.copy();
                        },
                        _ => {},
                    }
                    proof {
                        assert(spec_path_nodes(nodes, f.subrange(0, k + 1)) == pk);
                    }
                },
                Err(()) => {
                    return None;
                },
            }
            k += 1;
        }
        assert(f.subrange(0, n as int) =~= f);
        let ghost pn = spec_path_nodes(nodes, f);
        let m = MorphismInstance::from_chain(begin, &path);
        assert(spec_inner_inst(nodes, pn, spec_begin(nodes, f), m)) by {
            assert(path@.len() == pn.len());
        }
        let ghost sv = subst_view(sigma);
        assert(sv.dom() =~= sigma@.dom());
        if sigma.len() > 0 {
            let mut g = self.gamma.copy();
            g.bind_all(&sigma);
            Some(MorphismInstance::Specialize { gamma: g, m: Box::new(m) })
        } else {
            Some(m)
        }
    }
}

proof fn lemma_sigma_fold_none<M: Morphism + Clone>(nodes: Seq<SearchNode<M>>, chain: Seq<usize>, k: int)
    requires
        0 < k <= chain.len(),
        spec_sigma_fold(nodes, chain, k) is None,
    ensures
        spec_sigma_fold(nodes, chain, chain.len() as int) is None,
    decreases chain.len() - k,
{
    if k < chain.len() {
        lemma_sigma_fold_none(nodes, chain, k + 1);
    }
}

//------------------------------------------------------------------
// Advancing a search
//------------------------------------------------------------------

/// A placeholder node, held in a slot while the node there is worked on.
fn placeholder<M: Morphism + Clone>() -> (r: SearchNode<M>) {
    let unit = TypeTerm::unit();
    SearchNode {
        id: 0,
        pred: None,
        weight: 0,
        est_remain: 0,
        ctx: crate::context::Context::new(0),
        ty: MorphismType { gamma: Vec::new(), bounds: Vec::new(), src_type: TypeTerm::unit(), dst_type: TypeTerm::unit() },
        step: Step::Id { tau: unit },
        psi: TypeTerm::unit(),
    }
}

/// Whether every search of `v` is solved, with a solution whose type has a normal form
/// within the step budget.
pub open spec fn spec_all_typed<M: Morphism + Clone>(v: Seq<(String, GraphSearch<M>)>) -> bool {
    forall|j: int| 0 <= j < v.len() ==> ((#[trigger] v[j]).1.spec_solution() matches Some(m) && spec_inst_type(m) is Some)
}

/// The members (or variants) of a map's source and destination types: each symbol with
/// the source (destination) type of its search's solution.
pub open spec fn spec_solved_fields<M: Morphism + Clone>(v: Seq<(String, GraphSearch<M>)>, dst: bool) -> Seq<FieldV> {
    Seq::new(v.len(), |j: int| FieldV {
        symbol: v[j].0@,
        ty: if dst {
            spec_inst_type(v[j].1.spec_solution().unwrap()).unwrap().dst
        } else {
            spec_inst_type(v[j].1.spec_solution().unwrap()).unwrap().src
        },
    })
}

/// The members (or variants) of a map's source and destination types: each symbol with
/// the source (destination) type of its search's solution; `None` where a search is
/// unsolved or a solution's type exceeds the step budget.
fn solved_members<M: Morphism + Clone>(v: &Vec<(String, GraphSearch<M>)>) -> (r: Option<(Vec<StructMember>, Vec<StructMember>)>)
    ensures
        match r {
            Some((s, d)) => spec_all_typed(v@) && members_view(s@) == spec_solved_fields(v@, false)
                && members_view(d@) == spec_solved_fields(v@, true),
            None => !spec_all_typed(v@),
        },
{
    let mut srcs: Vec<StructMember> = Vec::new();
    let mut dsts: Vec<StructMember> = Vec::new();
    let mut i: usize = 0;
    proof {
        crate::term::lemma_members_view(srcs@);
        crate::term::lemma_members_view(dsts@);
        assert(members_view(srcs@) =~= spec_solved_fields(v@, false).subrange(0, 0));
        assert(members_view(dsts@) =~= spec_solved_fields(v@, true).subrange(0, 0));
    }
    while i < v.len()
        invariant
            i <= v.len(),
            forall|j: int| 0 <= j < i ==> ((#[trigger] v@[j]).1.spec_solution() matches Some(m) && spec_inst_type(m) is Some),
            members_view(srcs@) == spec_solved_fields(v@, false).subrange(0, i as int),
            members_view(dsts@) == spec_solved_fields(v@, true).subrange(0, i as int),
        decreases v.len() - i,
    {
        let t = match &v[i].1.solution {
            Some(m) => match m.try_get_type() {
                Some(t) => t,
                None => {
                    assert(!(v@[i as int].1.spec_solution() matches Some(m) && spec_inst_type(m) is Some));
                    return None;
                },
            },
            None => {
                assert(!(v@[i as int].1.spec_solution() matches Some(m) && spec_inst_type(m) is Some));
                return None;
            },
        };
        let s = StructMember { symbol: v[i].0.clone(), ty: t.src_type };
        let d = StructMember { symbol: v[i].0.clone(), ty: t.dst_type };
        proof {
            lemma_members_view_push(srcs@, s);
            lemma_members_view_push(dsts@, d);
            assert(spec_solved_fields(v@, false).subrange(0, i + 1) =~= spec_solved_fields(v@, false).subrange(0, i as int).push(FieldV { symbol: s.symbol@, ty: s.ty@ }));
            assert(spec_solved_fields(v@, true).subrange(0, i + 1) =~= spec_solved_fields(v@, true).subrange(0, i as int).push(FieldV { symbol: d.symbol@, ty: d.ty@ }));
        }
        srcs.push(s);
        dsts.push(d);
        i += 1;
    }
    assert(spec_solved_fields(v@, false).subrange(0, v.len() as int) =~= spec_solved_fields(v@, false));
    assert(spec_solved_fields(v@, true).subrange(0, v.len() as int) =~= spec_solved_fields(v@, true));
    Some((srcs, dsts))
}

fn to_variants(v: Vec<StructMember>) -> (r: Vec<EnumVariant>)
    ensures
        variants_view(r@) == members_view(v@),
{
    let mut r: Vec<EnumVariant> = Vec::new();
    let mut i: usize = 0;
    while i < v.len()
        invariant
            i <= v.len(),
            variants_view(r@) == members_view(v@.subrange(0, i as int)),
        decreases v.len() - i,
    {
        let e = EnumVariant { symbol: v[i].symbol.clone(), ty: v[i].ty.copy() };
        proof {
            lemma_variants_view_push(r@, e);
            crate::term::lemma_members_view(v@.subrange(0, i + 1));
            crate::term::lemma_members_view(v@.subrange(0, i as int));
            crate::term::lemma_variants_view(r@.push(e));
            assert(members_view(v@.subrange(0, i + 1)) =~= members_view(v@.subrange(0, i as int)).push(FieldV { symbol: e.symbol@, ty: e.ty@ }));
        }
        r.push(e);
        i += 1;
    }
    assert(v@.subrange(0, v.len() as int) =~= v@);
    r
}

/// Whether `k` is the first search of `v` without a solution.
pub open spec fn spec_first_unsolved<M: Morphism + Clone>(v: Seq<(String, GraphSearch<M>)>, k: int) -> bool {
    &&& 0 <= k < v.len()
    &&& v[k].1.spec_solution() is None
    &&& forall|j: int| 0 <= j < k ==> (#[trigger] v[j]).1.spec_solution() is Some
}

/// Advances the searches of a step: for a map over items, its search by one step; for
/// a map over members or variants, the first unsolved search by one step.  `Ok(true)`
/// where all searches of the step are solved (then `ty` becomes the mapped type between
/// the solutions' types), `Ok(false)` where one needs more steps, and the error of a
/// search that failed.
fn advance_step<M: Morphism + Clone>(step: &mut Step<M>, ty: &mut MorphismType, base: &MorphismBase<M>) -> (r: Result<bool, GraphSearchError>)
    ensures
        r matches Ok(true) ==> spec_step_ready(*final(step)),
        r matches Err(e) ==> e == GraphSearchError::NoMorphismFound,
        (*old(step) is Id || *old(step) is Prim) ==> r == Ok::<bool, GraphSearchError>(true) && *final(step) == *old(step) && *final(ty) == *old(ty),
        *old(step) matches Step::MapSeq { seq_repr, item } ==> {
            &&& *final(step) matches Step::MapSeq { seq_repr: s2, item: i2 } && s2 == seq_repr && i2.spec_goal() == item.spec_goal()
            &&& (r is Err) == (spec_best_pos(item, spec_queue_len(item)) is None)
            &&& r != Ok::<bool, GraphSearchError>(true) ==> *final(ty) == *old(ty)
        },
        *old(step) matches Step::MapStruct { struct_repr, members } ==> {
            &&& forall|k: int| spec_first_unsolved(members@, k) ==> {
                &&& *final(ty) == *old(ty)
                &&& r != Ok::<bool, GraphSearchError>(true)
                &&& (r is Err) == (spec_best_pos(members@[k].1, spec_queue_len(members@[k].1)) is None)
                &&& *final(step) matches Step::MapStruct { struct_repr: r2, members: m2 } && r2 == struct_repr
                    && m2@.len() == members@.len() && m2@[k].0 == members@[k].0
                    && m2@[k].1.spec_goal() == members@[k].1.spec_goal()
                    && forall|j: int| 0 <= j < members@.len() && j != k ==> m2@[j] == members@[j]
            }
            &&& (forall|j: int| 0 <= j < members@.len() ==> (#[trigger] members@[j]).1.spec_solution() is Some) ==> {
                &&& r == Ok::<bool, GraphSearchError>(true)
                &&& *final(step) == *old(step)
                &&& final(ty)@ == if spec_all_typed(members@) {
                        MorphTypeV {
                            gamma: Seq::empty(),
                            bounds: Seq::empty(),
                            src: TermV::Struct { repr: opt_view(struct_repr), members: spec_solved_fields(members@, false) },
                            dst: TermV::Struct { repr: opt_view(struct_repr), members: spec_solved_fields(members@, true) },
                        }
                    } else {
                        old(ty)@
                    }
            }
        },
        *old(step) matches Step::MapEnum { enum_repr, variants } ==> {
            &&& forall|k: int| spec_first_unsolved(variants@, k) ==> {
                &&& *final(ty) == *old(ty)
                &&& r != Ok::<bool, GraphSearchError>(true)
                &&& (r is Err) == (spec_best_pos(variants@[k].1, spec_queue_len(variants@[k].1)) is None)
                &&& *final(step) matches Step::MapEnum { enum_repr: r2, variants: m2 } && r2 == enum_repr
                    && m2@.len() == variants@.len() && m2@[k].0 == variants@[k].0
                    && m2@[k].1.spec_goal() == variants@[k].1.spec_goal()
                    && forall|j: int| 0 <= j < variants@.len() && j != k ==> m2@[j] == variants@[j]
            }
            &&& (forall|j: int| 0 <= j < variants@.len() ==> (#[trigger] variants@[j]).1.spec_solution() is Some) ==> {
                &&& r == Ok::<bool, GraphSearchError>(true)
                &&& *final(step) == *old(step)
                &&& final(ty)@ == if spec_all_typed(variants@) {
                        MorphTypeV {
                            gamma: Seq::empty(),
                            bounds: Seq::empty(),
                            src: TermV::Enum { repr: opt_view(enum_repr), variants: spec_solved_fields(variants@, false) },
                            dst: TermV::Enum { repr: opt_view(enum_repr), variants: spec_solved_fields(variants@, true) },
                        }
                    } else {
                        old(ty)@
                    }
            }
        },
    decreases *old(step),
{
    match step {
        Step::MapSeq { seq_repr, item } => {
            match item.advance(base) {
                GraphSearchState::Solved(m) => {
                    match m.try_get_type() {
                        Some(t) => {
                            *ty = MorphismType {
                                gamma: Vec::new(),
                                bounds: Vec::new(),
                                src_type: TypeTerm::Sequence { seq_repr: copy_opt(seq_repr), item: Box::new(t.src_type) },
                                dst_type: TypeTerm::Sequence { seq_repr: copy_opt(seq_repr), item: Box::new(t.dst_type) },
                            };
                        },
                        None => {},
                    }
                    Ok(true)
                },
                GraphSearchState::Continue => Ok(false),
                GraphSearchState::Failed(e) => Err(e),
            }
        },
        Step::MapStruct { struct_repr, members } => {
            let ghost m0 = *members;
            assert(*old(step) matches Step::MapStruct { members: mm, .. } && mm == m0);
            let mut k: usize = 0;
            while k < members.len()
                invariant
                    k <= members.len(),
                    *members == m0,
                    *old(step) matches Step::MapStruct { members: mm, .. } && mm == m0,
                    forall|j: int| 0 <= j < k ==> (#[trigger] members@[j]).1.spec_solution() is Some,
                ensures
                    k <= members.len(),
                    *members == m0,
                    forall|j: int| 0 <= j < k ==> (#[trigger] members@[j]).1.spec_solution() is Some,
                    k < members.len() ==> members@[k as int].1.spec_solution() is None,
                decreases members.len() - k,
            {
                if members[k].1.solution.is_none() {
                    break;
                }
                k += 1;
            }
            if k < members.len() {
                    proof {
                    assert(decreases_to!(*old(step) => m0));
                    assert(decreases_to!(m0 => m0@));
                    assert(decreases_to!(m0@ => m0@[k as int]));
                    assert(decreases_to!(m0@[k as int] => m0@[k as int].1));
                }
                proof {
                    assert(spec_first_unsolved(m0@, k as int));
                    assert forall|k2: int| spec_first_unsolved(m0@, k2) implies k2 == k by {
                        if k2 < k {
                            assert(m0@[k2].1.spec_solution() is Some);
                        }
                        if k2 > k {
                            assert(m0@[k as int].1.spec_solution() is Some);
                        }
                    }
                }
                let ghost before_k = members@[k as int].1;
                let res = members[k].1.advance(base);
                proof {
                    assert(members@.len() == m0@.len());
                    assert(members@[k as int].0 == m0@[k as int].0);
                    assert(members@[k as int].1.spec_goal() == before_k.spec_goal());
                    assert((res is Failed) == (spec_best_pos(before_k, spec_queue_len(before_k)) is None));
                    assert forall|j: int| 0 <= j < m0@.len() && j != k implies members@[j] == m0@[j] by {}
                }
                return match res {
                    GraphSearchState::Failed(e) => Err(e),
                    _ => Ok(false),
                };
            }
            match solved_members(members) {
                Some((s, d)) => {
                    *ty = MorphismType {
                        gamma: Vec::new(),
                        bounds: Vec::new(),
                        src_type: TypeTerm::Struct { struct_repr: copy_opt(struct_repr), members: s },
                        dst_type: TypeTerm::Struct { struct_repr: copy_opt(struct_repr), members: d },
                    };
                },
                None => {},
            }
            Ok(true)
        },
        Step::MapEnum { enum_repr, variants } => {
            let ghost m0 = *variants;
            assert(*old(step) matches Step::MapEnum { variants: mm, .. } && mm == m0);
            let mut k: usize = 0;
            while k < variants.len()
                invariant
                    k <= variants.len(),
                    *variants == m0,
                    *old(step) matches Step::MapEnum { variants: mm, .. } && mm == m0,
                    forall|j: int| 0 <= j < k ==> (#[trigger] variants@[j]).1.spec_solution() is Some,
                ensures
                    k <= variants.len(),
                    *variants == m0,
                    forall|j: int| 0 <= j < k ==> (#[trigger] variants@[j]).1.spec_solution() is Some,
                    k < variants.len() ==> variants@[k as int].1.spec_solution() is None,
                decreases variants.len() - k,
            {
                if variants[k].1.solution.is_none() {
                    break;
                }
                k += 1;
            }
            if k < variants.len() {
                    proof {
                    assert(decreases_to!(*old(step) => m0));
                    assert(decreases_to!(m0 => m0@));
                    assert(decreases_to!(m0@ => m0@[k as int]));
                    assert(decreases_to!(m0@[k as int] => m0@[k as int].1));
                }
                proof {
                    assert(spec_first_unsolved(m0@, k as int));
                    assert forall|k2: int| spec_first_unsolved(m0@, k2) implies k2 == k by {
                        if k2 < k {
                            assert(m0@[k2].1.spec_solution() is Some);
                        }
                        if k2 > k {
                            assert(m0@[k as int].1.spec_solution() is Some);
                        }
                    }
                }
                let ghost before_k = variants@[k as int].1;
                let res = variants[k].1.advance(base);
                proof {
                    assert(variants@.len() == m0@.len());
                    assert(variants@[k as int].0 == m0@[k as int].0);
                    assert(variants@[k as int].1.spec_goal() == before_k.spec_goal());
                    assert((res is Failed) == (spec_best_pos(before_k, spec_queue_len(before_k)) is None));
                    assert forall|j: int| 0 <= j < m0@.len() && j != k implies variants@[j] == m0@[j] by {}
                }
                return match res {
                    GraphSearchState::Failed(e) => Err(e),
                    _ => Ok(false),
                };
            }
            match solved_members(variants) {
                Some((s, d)) => {
                    *ty = MorphismType {
                        gamma: Vec::new(),
                        bounds: Vec::new(),
                        src_type: TypeTerm::Enum { enum_repr: copy_opt(enum_repr), variants: to_variants(s) },
                        dst_type: TypeTerm::Enum { enum_repr: copy_opt(enum_repr), variants: to_variants(d) },
                    };
                },
                None => {},
            }
            Ok(true)
        },
        _ => Ok(true),
    }
}

/// How a search `g2` grew out of `g1` while node `i` was expanded: the nodes before stay
/// (node `i` keeps its step, halo, type and predecessor), at most `most` nodes are added,
/// all successors of node `i`, and they are queued in order; the rest is unchanged.
pub open spec fn spec_grown<M: Morphism + Clone>(g1: GraphSearch<M>, g2: GraphSearch<M>, i: usize, most: nat) -> bool {
    let n1 = g1.spec_nodes();
    let n2 = g2.spec_nodes();
    &&& (i as int) < n1.len() <= n2.len() <= n1.len() + most
    &&& forall|j: int| 0 <= j < n1.len() && j != i ==> n2[j] == n1[j]
    &&& n2[i as int].step == n1[i as int].step
    &&& n2[i as int].psi == n1[i as int].psi
    &&& n2[i as int].ty == n1[i as int].ty
    &&& n2[i as int].pred == n1[i as int].pred
    &&& n2[i as int].weight == n1[i as int].weight
    &&& forall|j: int| n1.len() <= j < n2.len() ==> (#[trigger] n2[j]).pred == Some(i)
    &&& g2.spec_queue() == g1.spec_queue() + spec_range(n1.len(), n2.len())
    &&& g2.spec_solution() == g1.spec_solution()
    &&& g2.spec_goal() == g1.spec_goal()
    &&& g2.spec_gamma() == g1.spec_gamma()
    &&& g2.spec_history() == g1.spec_history()
    &&& g2.spec_id_count() >= g1.spec_id_count()
    &&& spec_preds_below(n1) ==> spec_preds_below(n2)
}

proof fn lemma_grown_trans<M: Morphism + Clone>(a: GraphSearch<M>, b: GraphSearch<M>, c: GraphSearch<M>, i: usize, m1: nat, m2: nat)
    requires
        spec_grown(a, b, i, m1),
        spec_grown(b, c, i, m2),
    ensures
        spec_grown(a, c, i, m1 + m2),
{
    let la = a.spec_nodes().len();
    let lb = b.spec_nodes().len();
    let lc = c.spec_nodes().len();
    assert(a.spec_queue() + spec_range(la, lb) + spec_range(lb, lc) =~= a.spec_queue() + spec_range(la, lc));
    assert forall|j: int| la <= j < lc implies (#[trigger] c.spec_nodes()[j]).pred == Some(i) by {
        if j < lb {
            assert(c.spec_nodes()[j] == b.spec_nodes()[j]);
        }
    }
    assert forall|j: int| 0 <= j < la && j != i implies c.spec_nodes()[j] == a.spec_nodes()[j] by {
        assert(c.spec_nodes()[j] == b.spec_nodes()[j]);
    }
}

impl<M: Morphism + Clone> GraphSearch<M> {
    /// Queues `n`, a successor of node `i`, as `add_search_node` does.
    #[verifier::spinoff_prover]
    #[verifier::rlimit(60)]
    fn push_successor(&mut self, i: usize, n: SearchNode<M>)
        requires
            i < old(self).spec_nodes().len(),
            n.pred == Some(i),
        ensures
            spec_grown(*old(self), *final(self), i, 1),
            final(self).spec_nodes() == old(self).spec_nodes() + spec_step_added(old(self).spec_nodes(), old(self).spec_goal(), Some(n)),
            final(self).spec_id_count() == old(self).spec_id_count(),
    {
        let ghost lb = self.nodes@.len();
        let ghost n1 = self.spec_nodes();
        let ghost q1 = self.spec_queue();
        let ghost nn = n;
        self.add_search_node(n);
        proof {
            let n2 = self.spec_nodes();
            if n2.len() > lb {
                assert forall|j: int| 0 <= j < lb implies n2[j] == n1[j] by {
                    assert(n2.drop_last()[j] == n2[j]);
                }
                assert(n2[lb as int].pred == Some(i));
                assert(q1 + spec_range(lb, lb + 1) =~= q1.push(lb as usize));
                assert forall|j: int| lb <= j < n2.len() implies (#[trigger] n2[j]).pred == Some(i) by {
                    assert(j == lb);
                }
                assert(n2 =~= n1 + seq![spec_queued(nn, old(self).spec_goal())]);
            } else {
                assert(q1 + spec_range(lb, lb) =~= q1);
                assert(n2 =~= n1 + Seq::<SearchNode<M>>::empty());
            }
        }
    }

    /// Sets the context of node `i`.
    #[verifier::spinoff_prover]
    fn set_node_ctx(&mut self, i: usize, ctx: ContextPtr)
        requires
            i < old(self).spec_nodes().len(),
        ensures
            spec_grown(*old(self), *final(self), i, 0),
            final(self).spec_nodes() == old(self).spec_nodes().update(i as int, SearchNode { ctx: ctx, ..old(self).spec_nodes()[i as int] }),
            final(self).spec_id_count() == old(self).spec_id_count(),
    {
        self.nodes[i].ctx = ctx;
        proof {
            let l = old(self).spec_nodes().len();
            assert(old(self).spec_queue() + spec_range(l, l) =~= old(self).spec_queue());
            assert forall|j: int| 0 <= j < l implies (#[trigger] self.spec_nodes()[j]).pred == old(self).spec_nodes()[j].pred by {}
            assert(self.spec_nodes() =~= old(self).spec_nodes().update(i as int, SearchNode { ctx: ctx, ..old(self).spec_nodes()[i as int] }));
        }
    }

    /// Queues a map for decomposition `e` of the destination of node `i`, unless it is
    /// trivial or already in `done`; `false` where the node ids are used up.  At most one
    /// node is added, as a successor of node `i`, and queued; the ghost result is the
    /// candidate node where the decomposition was tried.
    #[verifier::spinoff_prover]
    #[verifier::rlimit(40)]
    fn queue_decomposition(&mut self, i: usize, e: &(TypeTerm, ContextPtr, HashMapSubst, DecomposedMorphismType),
        done: &mut Vec<(TypeTerm, HashMapSubst, DecomposedMorphismType)>) -> (r: (bool, Ghost<Option<Option<SearchNode<M>>>>))
        requires
            i < old(self).spec_nodes().len(),
        ensures
            spec_grown(*old(self), *final(self), i, if r.0 { 1 } else { 0 }),
            !r.0 ==> final(self).spec_nodes() == old(self).spec_nodes() && final(self).spec_id_count() == old(self).spec_id_count()
                && final(done)@ == old(done)@,
            ({
                let ek = (e.0@, subst_view(e.2), e.3@);
                let att = !spec_decomp_trivial(e.3@) && !spec_has_key(spec_done_keys(old(done)@), ek);
                &&& (!att ==> r.0 && r.1@ is None && final(self).spec_nodes() == old(self).spec_nodes()
                    && final(self).spec_id_count() == old(self).spec_id_count() && final(done)@ == old(done)@)
                &&& (att && old(self).spec_id_count() < u64::MAX ==> r.0 && (r.1@ matches Some(c)
                    && spec_map_cand(old(self).spec_nodes()[i as int], i, old(self).spec_nodes()[i as int].ctx@.sub_count,
                        old(self).spec_id_count(), spec_dview(*e), c)
                    && final(self).spec_nodes() == old(self).spec_nodes() + spec_step_added(old(self).spec_nodes(), old(self).spec_goal(), c))
                    && final(self).spec_id_count() == old(self).spec_id_count() + 1
                    && spec_done_keys(final(done)@) == spec_done_keys(old(done)@).push(ek))
                &&& (att && old(self).spec_id_count() == u64::MAX ==> !r.0)
            }),
    {
        proof {
            let l = old(self).spec_nodes().len();
            assert(old(self).spec_queue() + spec_range(l, l) =~= old(self).spec_queue());
        }
        if !e.3.is_trivial() && !contains_decomposition(done, &e.0, &e.2, &e.3) {
            if self.id_count == u64::MAX {
                return (false, Ghost(None));
            }
            let id = self.id_count;
            self.id_count = self.id_count + 1;
            let ghost mid = *self;
            assert(spec_grown(*old(self), mid, i, 0));
            let ghost mut gsg: Seq<(String, MorphismType)> = Seq::empty();
            let made = match &e.3 {
                DecomposedMorphismType::SeqMap { item } => self.map_seq(i, id, item.copy()),
                DecomposedMorphismType::StructMap { members } => {
                    let gs = copy_named_types(members);
                    proof { gsg = gs@; }
                    self.map_struct(i, id, gs)
                },
                DecomposedMorphismType::EnumMap { variants } => {
                    let gs = copy_named_types(variants);
                    proof { gsg = gs@; }
                    self.map_enum(i, id, gs)
                },
            };
            let ghost mut cand: Option<SearchNode<M>> = None;
            match made {
                Some(n) => {
                    let mut n = n;
                    n.set_sub(e.0.copy());
                    n.ctx = e.1.copy();
                    proof {
                        cand = Some(n);
                        if e.3 is StructMap || e.3 is EnumMap {
                            assert(named_types_view(gsg) == named_types_view(gsg));
                        }
                    }
                    self.push_successor(i, n);
                    proof { lemma_grown_trans(*old(self), mid, *self, i, 0, 1); }
                },
                None => {
                    assert(self.spec_nodes() =~= old(self).spec_nodes() + Seq::<SearchNode<M>>::empty());
                },
            }
            done.push((e.0.copy(), copy_subst(&e.2), e.3.copy()));
            proof {
                assert(spec_done_keys(done@) =~= spec_done_keys(old(done)@).push((e.0@, subst_view(e.2), e.3@)));
            }
            return (true, Ghost(Some(cand)));
        }
        (true, Ghost(None))
    }

    /// Queues a chain of node `i` with morphism `e` of the base; `false` where the node
    /// ids are used up.  At most one node is added, as a successor of node `i`, and
    /// queued; the ghost result is the candidate node.
    #[verifier::spinoff_prover]
    #[verifier::rlimit(40)]
    fn queue_chain(&mut self, i: usize, e: &(TypeTerm, ContextPtr, HashMapSubst, M)) -> (r: (bool, Ghost<Option<SearchNode<M>>>))
        requires
            i < old(self).spec_nodes().len(),
        ensures
            spec_grown(*old(self), *final(self), i, if r.0 { 1 } else { 0 }),
            !r.0 == (old(self).spec_id_count() == u64::MAX),
            !r.0 ==> final(self).spec_nodes() == old(self).spec_nodes() && final(self).spec_id_count() == old(self).spec_id_count(),
            r.0 ==> spec_chain_node(old(self).spec_nodes()[i as int], i, old(self).spec_id_count(), (e.0@, e.1@, subst_view(e.2)), e.3, r.1@)
                && final(self).spec_id_count() == old(self).spec_id_count() + 1
                && final(self).spec_nodes() == old(self).spec_nodes() + spec_step_added(old(self).spec_nodes(), old(self).spec_goal(), r.1@),
    {
        proof {
            let l = old(self).spec_nodes().len();
            assert(old(self).spec_queue() + spec_range(l, l) =~= old(self).spec_queue());
        }
        if self.id_count == u64::MAX {
            return (false, Ghost(None));
        }
        let id = self.id_count;
        self.id_count = self.id_count + 1;
        let ghost mid = *self;
        assert(spec_grown(*old(self), mid, i, 0));
        let ghost mut cand: Option<SearchNode<M>> = None;
        match e.0.try_normalize() {
            Some(psi) => {
                let m = e.3.clone();
                match self.chain(i, id, psi, &e.1, copy_subst(&e.2), m) {
                    Some(n) => {
                        proof { cand = Some(n); }
                        self.push_successor(i, n);
                        proof { lemma_grown_trans(*old(self), mid, *self, i, 0, 1); }
                    },
                    None => {},
                }
            },
            None => {},
        }
        proof {
            if cand is None {
                assert(self.spec_nodes() =~= old(self).spec_nodes() + Seq::<SearchNode<M>>::empty());
            }
        }
        (true, Ghost(cand))
    }

    /// Queues a map for each decomposition of `decompositions` (plain values `ds`) that is
    /// mapped, as `queue_decomposition` does, until the node ids are used up; the ghost
    /// results are the candidate nodes and whether the ids ran out.
    #[verifier::spinoff_prover]
    #[verifier::rlimit(60)]
    fn queue_decompositions(&mut self, i: usize, decompositions: &Vec<(TypeTerm, ContextPtr, HashMapSubst, DecomposedMorphismType)>,
        Ghost(ds): Ghost<Seq<(TermV, CtxV, Map<u64, TermV>, DecompV)>>) -> (r: (Ghost<Seq<Option<SearchNode<M>>>>, Ghost<bool>))
        requires
            i < old(self).spec_nodes().len(),
            decompositions@.len() == ds.len(),
            forall|j: int| 0 <= j < ds.len() ==> spec_dview(#[trigger] decompositions@[j]) == ds[j],
        ensures
            spec_grown(*old(self), *final(self), i, ds.len()),
            final(self).spec_nodes() == old(self).spec_nodes() + spec_added(old(self).spec_nodes(), old(self).spec_goal(), r.0@),
            final(self).spec_id_count() == old(self).spec_id_count() + r.0@.len(),
            r.1@ ==> old(self).spec_id_count() + spec_kept(ds).len() > u64::MAX,
            !r.1@ ==> r.0@.len() == spec_kept(ds).len() && forall|m: int| 0 <= m < r.0@.len() ==> spec_map_cand(
                old(self).spec_nodes()[i as int], i, old(self).spec_nodes()[i as int].ctx@.sub_count,
                (old(self).spec_id_count() + m) as u64, spec_kept(ds)[m], #[trigger] r.0@[m]),
    {
        let ghost g0 = *self;
        let ghost n1s = self.spec_nodes();
        let ghost goal = self.spec_goal();
        let ghost id0 = self.spec_id_count();
        let ghost c1 = n1s[i as int].ctx@;
        let ghost dl = ds.len();
        let mut done: Vec<(TypeTerm, HashMapSubst, DecomposedMorphismType)> = Vec::new();
        let ghost mut cm: Seq<Option<SearchNode<M>>> = Seq::empty();
        let ghost mut stopped = false;
        proof {
            let l = n1s.len();
            assert(g0.spec_queue() + spec_range(l, l) =~= g0.spec_queue());
            assert(ds.subrange(0, 0) =~= Seq::<(TermV, CtxV, Map<u64, TermV>, DecompV)>::empty());
            assert(spec_done_keys(done@) =~= spec_keys(spec_kept(ds.subrange(0, 0))));
            assert(self.spec_nodes() =~= n1s + spec_added(n1s, goal, cm));
        }
        let mut k: usize = 0;
        while k < decompositions.len()
            invariant
                k <= decompositions.len(),
                dl == decompositions@.len(),
                dl == ds.len(),
                forall|j: int| 0 <= j < dl ==> spec_dview(#[trigger] decompositions@[j]) == ds[j],
                spec_grown(g0, *self, i, k as nat),
                (i as int) < n1s.len(),
                n1s == g0.spec_nodes(),
                c1 == n1s[i as int].ctx@,
                goal == g0.spec_goal(),
                id0 == g0.spec_id_count(),
                self.spec_nodes() == n1s + spec_added(n1s, goal, cm),
                cm.len() == spec_kept(ds.subrange(0, k as int)).len(),
                forall|m: int| 0 <= m < cm.len() ==> spec_map_cand(n1s[i as int], i, c1.sub_count, (id0 + m) as u64,
                    spec_kept(ds.subrange(0, k as int))[m], #[trigger] cm[m]),
                spec_done_keys(done@) == spec_keys(spec_kept(ds.subrange(0, k as int))),
                self.spec_id_count() == id0 + cm.len(),
                stopped ==> id0 + spec_kept(ds).len() > u64::MAX,
            ensures
                stopped || k >= dl,
            decreases decompositions.len() - k,
        {
            let ghost before = *self;
            let ghost kp = spec_kept(ds.subrange(0, k as int));
            let ghost bd = done@;
            let (ok, gc) = self.queue_decomposition(i, &decompositions[k], &mut done);
            proof {
                lemma_grown_trans(g0, before, *self, i, k as nat, if ok { 1 } else { 0 });
                let e = ds[k as int];
                assert(spec_dview(decompositions@[k as int]) == e);
                assert(ds.subrange(0, k + 1).drop_last() =~= ds.subrange(0, k as int));
                assert(ds.subrange(0, k + 1).last() == e);
                assert(before.spec_nodes()[i as int] == n1s[i as int]);
                assert(spec_done_keys(bd) == spec_keys(kp));
                if ok {
                    if let Some(c) = gc@ {
                        assert(spec_kept(ds.subrange(0, k + 1)) == kp.push(e));
                        let cm0 = cm;
                        cm = cm.push(c);
                        assert(cm.drop_last() =~= cm0);
                        assert(spec_added(n1s, goal, cm) == spec_added(n1s, goal, cm0) + spec_step_added(n1s + spec_added(n1s, goal, cm0), goal, c));
                        assert(self.spec_nodes() =~= n1s + spec_added(n1s, goal, cm));
                        assert(spec_keys(kp.push(e)) =~= spec_keys(kp).push((e.0, e.2, e.3)));
                        assert forall|m: int| 0 <= m < cm.len() implies spec_map_cand(n1s[i as int], i, c1.sub_count, (id0 + m) as u64,
                            spec_kept(ds.subrange(0, k + 1))[m], #[trigger] cm[m]) by {
                            if m < cm0.len() {
                                assert(cm[m] == cm0[m]);
                                assert(spec_kept(ds.subrange(0, k + 1))[m] == kp[m]);
                            }
                        }
                    } else {
                        assert(spec_kept(ds.subrange(0, k + 1)) == kp);
                    }
                } else {
                    stopped = true;
                    assert(spec_kept(ds.subrange(0, k + 1)) == kp.push(e));
                    lemma_kept_mono(ds, k + 1);
                }
            }
            if !ok {
                break;
            }
            k += 1;
        }
        proof {
            if !stopped {
                assert(ds.subrange(0, dl as int) =~= ds);
            }
        }
        (Ghost(cm), Ghost(stopped))
    }

    /// Queues a chain for each morphism entry of `found` (plain values `fnd`, indices
    /// into `ms`), as `queue_chain` does, until the node ids are used up; the ghost results
    /// are the candidate nodes and whether the ids ran out.
    #[verifier::spinoff_prover]
    #[verifier::rlimit(60)]
    fn queue_chains(&mut self, i: usize, found: &Vec<(TypeTerm, ContextPtr, HashMapSubst, M)>,
        Ghost(fnd): Ghost<Seq<(TermV, CtxV, Map<u64, TermV>, int)>>, Ghost(ms): Ghost<Seq<M>>)
        -> (r: (Ghost<Seq<Option<SearchNode<M>>>>, Ghost<bool>))
        requires
            i < old(self).spec_nodes().len(),
            found@.len() == fnd.len(),
            forall|l: int| 0 <= l < fnd.len() ==> (#[trigger] found@[l]).0@ == fnd[l].0 && found@[l].1@ == fnd[l].1
                && subst_view(found@[l].2) == fnd[l].2 && cloned(ms[fnd[l].3], found@[l].3),
        ensures
            spec_grown(*old(self), *final(self), i, fnd.len()),
            final(self).spec_nodes() == old(self).spec_nodes() + spec_added(old(self).spec_nodes(), old(self).spec_goal(), r.0@),
            final(self).spec_id_count() == old(self).spec_id_count() + r.0@.len(),
            r.1@ ==> old(self).spec_id_count() + fnd.len() > u64::MAX,
            !r.1@ ==> r.0@.len() == fnd.len() && forall|l: int| 0 <= l < r.0@.len() ==> spec_chain_cand(
                old(self).spec_nodes()[i as int], i, (old(self).spec_id_count() + l) as u64, fnd[l], ms, #[trigger] r.0@[l]),
    {
        let ghost g0 = *self;
        let ghost n2s = self.spec_nodes();
        let ghost goal = self.spec_goal();
        let ghost id1 = self.spec_id_count();
        let ghost fl = fnd.len();
        let ghost mut cc: Seq<Option<SearchNode<M>>> = Seq::empty();
        let ghost mut stopped2 = false;
        proof {
            let l = n2s.len();
            assert(g0.spec_queue() + spec_range(l, l) =~= g0.spec_queue());
            assert(self.spec_nodes() =~= n2s + spec_added(n2s, goal, cc));
        }
        let mut j: usize = 0;
        while j < found.len()
            invariant
                j <= found.len(),
                fl == found@.len(),
                fl == fnd.len(),
                forall|l: int| 0 <= l < fl ==> (#[trigger] found@[l]).0@ == fnd[l].0 && found@[l].1@ == fnd[l].1
                    && subst_view(found@[l].2) == fnd[l].2 && cloned(ms[fnd[l].3], found@[l].3),
                spec_grown(g0, *self, i, j as nat),
                (i as int) < n2s.len(),
                n2s == g0.spec_nodes(),
                goal == g0.spec_goal(),
                id1 == g0.spec_id_count(),
                self.spec_nodes() == n2s + spec_added(n2s, goal, cc),
                cc.len() == j,
                forall|l: int| 0 <= l < j ==> spec_chain_cand(n2s[i as int], i, (id1 + l) as u64, fnd[l], ms, #[trigger] cc[l]),
                self.spec_id_count() == id1 + j,
                stopped2 ==> id1 + fl > u64::MAX,
            ensures
                stopped2 || j >= fl,
            decreases found.len() - j,
        {
            let ghost before = *self;
            let (ok, gc) = self.queue_chain(i, &found[j]);
            proof {
                lemma_grown_trans(g0, before, *self, i, j as nat, if ok { 1 } else { 0 });
                assert(before.spec_nodes()[i as int] == n2s[i as int]);
                if ok {
                    let c = gc@;
                    let e = fnd[j as int];
                    assert(found@[j as int].0@ == e.0 && found@[j as int].1@ == e.1 && subst_view(found@[j as int].2) == e.2);
                    assert(spec_chain_node(n2s[i as int], i, (id1 + j) as u64, (e.0, e.1, e.2), found@[j as int].3, c));
                    assert(cloned(ms[e.3], found@[j as int].3));
                    assert(spec_chain_cand(n2s[i as int], i, (id1 + j) as u64, e, ms, c));
                    let cc0 = cc;
                    cc = cc.push(c);
                    assert(cc.drop_last() =~= cc0);
                    assert(spec_added(n2s, goal, cc) == spec_added(n2s, goal, cc0) + spec_step_added(n2s + spec_added(n2s, goal, cc0), goal, c));
                    assert(self.spec_nodes() =~= n2s + spec_added(n2s, goal, cc));
                    assert forall|l: int| 0 <= l < cc.len() implies spec_chain_cand(n2s[i as int], i, (id1 + l) as u64, fnd[l], ms, #[trigger] cc[l]) by {
                        if l < cc0.len() {
                            assert(cc[l] == cc0[l]);
                        }
                    }
                } else {
                    stopped2 = true;
                }
            }
            if !ok {
                break;
            }
            j += 1;
        }
        (Ghost(cc), Ghost(stopped2))
    }

    /// Queues the successors of node `i`, whose path has type `ty`: a map for each
    /// decomposition of its destination (by the complex morphisms of the base, then
    /// against the goal's destination) that is mapped, then a chain for each morphism of
    /// the base that applies to it.  The node's context takes what the enumerations bound.
    #[verifier::spinoff_prover]
    #[verifier::rlimit(100)]
    fn queue_successors(&mut self, i: usize, ty: &MorphismType, base: &MorphismBase<M>)
        requires
            i < old(self).spec_nodes().len(),
            spec_node_type(old(self).spec_nodes()[i as int]) == Some(ty@),
        ensures
            spec_grown(*old(self), *final(self), i,
                2 * base.spec_morphisms().len() + spec_decomp_bonus(old(self).spec_nodes()[i as int], old(self).spec_goal())),
            spec_expansion(old(self).spec_nodes(), i, old(self).spec_nodes()[i as int].weight, old(self).spec_goal(),
                base.spec_morphisms(), old(self).spec_id_count(),
                final(self).spec_nodes().subrange(old(self).spec_nodes().len() as int, final(self).spec_nodes().len() as int)),
    {
        let ghost g0 = *self;
        let ghost ms = base.spec_morphisms();
        let ghost bonus = spec_decomp_bonus(g0.spec_nodes()[i as int], g0.spec_goal());
        let ghost n0 = g0.spec_nodes()[i as int];
        let ghost goal = g0.spec_goal();
        let ghost dd = spec_decomps(n0.ctx@, ty@.dst, goal.dst, ms);
        let ghost c1 = dd.0;
        let ghost ds = dd.1;
        let ghost id0 = g0.spec_id_count();
        proof {
            lemma_enum_complex_ctx(n0.ctx@, ty@.dst, ms);
            lemma_enum_from_ctx(c1, ty@.dst, ms);
        }

        // maps over the components of the destination
        let mut nctx = self.nodes[i].ctx.copy();
        let mut decompositions = match base.try_enum_complex_morphisms(&mut nctx, &ty.dst_type) {
            Some(v) => v,
            None => {
                nctx = self.nodes[i].ctx.copy();
                Vec::new()
            },
        };
        proof { lemma_enum_complex_len(n0.ctx@, ty@.dst, ms); }
        assert(nctx@ == c1);
        self.set_node_ctx(i, nctx);
        let ghost n1s = self.spec_nodes();
        let ghost g1 = *self;
        proof {
            lemma_node_types_same(n0, n1s[i as int]);
            assert forall|j: int| 0 <= j < n1s.len() implies (#[trigger] g0.spec_nodes()[j]).pred == n1s[j].pred
                && spec_prev_type(g0.spec_nodes()[j]) == spec_prev_type(n1s[j]) by {}
            assert(spec_same_paths(g0.spec_nodes(), n1s));
        }
        match base.try_morphism_decomposition(&ty.dst_type, &self.goal.dst_type) {
            Some(Some((psi, d))) => {
                let gc = self.nodes[i].ctx.copy();
                let es = HashMapSubst::new();
                proof { assert(subst_view(es) =~= Map::<u64, TermV>::empty()); }
                decompositions.push((psi, gc, es, d));
            },
            _ => {},
        }
        let ghost dl = decompositions@.len();
        assert(dl == ds.len());
        assert(forall|j: int| 0 <= j < dl ==> spec_dview(#[trigger] decompositions@[j]) == ds[j]);
        assert(dl <= ms.len() + bonus);
        let (Ghost(cm), Ghost(stopped)) = self.queue_decompositions(i, &decompositions, Ghost(ds));
        let ghost a1 = spec_added(n1s, goal, cm);
        let ghost id1 = self.spec_id_count();

        // chains with the morphisms of the base that apply
        let mut nctx = self.nodes[i].ctx.copy();
        assert(nctx@ == c1);
        let ghost cs = spec_chains(c1, ty@.dst, ms);
        let ghost fnd = cs.1;
        let found = match base.try_enum_morphisms_from(&mut nctx, &ty.dst_type) {
            Some(v) => v,
            None => {
                nctx = self.nodes[i].ctx.copy();
                Vec::new()
            },
        };
        proof { lemma_enum_from_len(c1, ty@.dst, ms); }
        assert(found@.len() == fnd.len());
        assert(fnd.len() <= ms.len());
        assert(nctx@ == cs.0);
        let ghost before_ctx = *self;
        assert(before_ctx.spec_nodes()[i as int] == n1s[i as int]);
        self.set_node_ctx(i, nctx);
        proof { lemma_grown_trans(g0, before_ctx, *self, i, dl, 0); }
        let ghost n2s = self.spec_nodes();
        let ghost g2 = *self;
        let (Ghost(cc), Ghost(stopped2)) = self.queue_chains(i, &found, Ghost(fnd), Ghost(ms));
        proof {
            lemma_grown_trans(g0, g2, *self, i, dl, fnd.len());
            assert(spec_grown(g0, *self, i, 2 * ms.len() + bonus));
            lemma_successors_expansion(g0.spec_nodes(), n1s, n2s, self.spec_nodes(), i, ty@, goal, ms, id0, cm, cc, stopped, stopped2);
        }
    }

    /// Takes the most promising queued node and advances its path by one step: where its
    /// step holds unsolved searches, those are advanced first (and the node is queued
    /// again while they need more steps); where the path reaches a subtype of the goal's
    /// destination, the search is solved; otherwise the node's successors are queued: a
    /// map for each decomposition of its destination (by the base's complex morphisms and
    /// against the goal), and a chain for each morphism of the base that applies.
    /// `Failed(NoMorphismFound)` where nothing is queued.
    #[verifier::spinoff_prover]
    #[verifier::rlimit(40)]
    pub fn advance(&mut self, base: &MorphismBase<M>) -> (r: GraphSearchState<M>)
        ensures
            spec_best_pos(*old(self), spec_queue_len(*old(self))) is None ==> {
                &&& r == GraphSearchState::<M>::Failed(GraphSearchError::NoMorphismFound)
                &&& final(self).spec_nodes() == old(self).spec_nodes()
                &&& final(self).spec_queue() == old(self).spec_queue()
                &&& final(self).spec_history() == old(self).spec_history()
            },
            spec_best_pos(*old(self), spec_queue_len(*old(self))) matches Some(k)
                ==> final(self).spec_history() == old(self).spec_history().push(old(self).spec_queue()[k]),
            (r is Failed) == (spec_best_pos(*old(self), spec_queue_len(*old(self))) is None),
            r matches GraphSearchState::Solved(m) ==> final(self).spec_solution() matches Some(s) && spec_copied(s, m),
            !(r is Solved) ==> final(self).spec_solution() == old(self).spec_solution(),
            spec_best_pos(*old(self), spec_queue_len(*old(self))) matches Some(k) ==> spec_advanced(
                old(self).spec_nodes(), old(self).spec_queue(), old(self).spec_goal(), k, base.spec_morphisms(), old(self).spec_id_count(),
                final(self).spec_nodes(), final(self).spec_queue(), final(self).spec_gamma(), final(self).spec_solution(), r),
            final(self).spec_goal() == old(self).spec_goal(),
            final(self).spec_gamma() == old(self).spec_gamma(),
            final(self).spec_nodes().len() >= old(self).spec_nodes().len(),
            final(self).spec_id_count() >= old(self).spec_id_count(),
            spec_preds_below(old(self).spec_nodes()) ==> spec_preds_below(final(self).spec_nodes()),
        decreases *old(self),
    {
        proof { reveal(spec_advanced); }
        let i = match self.choose_next_node() {
            Some(i) => i,
            None => {
                return GraphSearchState::Failed(GraphSearchError::NoMorphismFound);
            },
        };
        proof { lemma_best_pos_valid(*old(self), spec_queue_len(*old(self))); }
        self.history.push(SearchNodePtr(i));
        assert(self.spec_history() =~= old(self).spec_history().push(i));
        let ghost k0 = spec_best_pos(*old(self), spec_queue_len(*old(self))).unwrap();
        let ghost q1 = self.spec_queue();
        let ghost n0 = old(self).spec_nodes()[i as int];
        let ghost len0 = self.nodes@.len();
        assert(q1 == old(self).spec_queue().remove(k0));

        let mut node = placeholder();
        std::mem::swap(&mut self.nodes[i], &mut node);
        let res = advance_step(&mut node.step, &mut node.ty, base);
        std::mem::swap(&mut self.nodes[i], &mut node);
        assert(self.spec_queue() == q1);
        assert(forall|j: int| 0 <= j < len0 && j != i ==> self.nodes@[j] == old(self).nodes@[j]);
        match res {
            Ok(true) => {
                match self.to_morphism_instance(i) {
                    Some(m) => match m.try_get_weight() {
                        Some(w) => {
                            self.nodes[i].weight = w;
                        },
                        None => {},
                    },
                    None => {},
                }
            },
            Ok(false) => {
                let w = node_weight(&self.nodes[i]);
                self.nodes[i].weight = w;
                self.explore_queue.push(SearchNodePtr(i));
                assert(self.spec_queue() =~= q1.push(i));
                return GraphSearchState::Continue;
            },
            Err(_) => {
                return GraphSearchState::Continue;
            },
        }
        let ghost n1 = self.nodes@[i as int];
        assert((n0.step is Id || n0.step is Prim) ==> n1.step == n0.step && n1.psi == n0.psi && n1.ty == n0.ty
            && n1.ctx == n0.ctx && n1.pred == n0.pred);
        assert(q1 + spec_range(len0, len0) =~= q1);
        let ty = match node_type(&self.nodes[i]) {
            Some(t) => t,
            None => {
                return GraphSearchState::Continue;
            },
        };

        // the goal is reached by the path of this node
        match subtype_unify_f(&ty.dst_type, &self.goal.dst_type, STEP_BUDGET) {
            Some(Ok((_psi, sigma))) => {
                self.nodes[i].ctx.bind_all(&sigma);
                match self.to_morphism_instance(i) {
                    Some(m) => {
                        let c = m.copy();
                        self.solution = Some(m);
                        return GraphSearchState::Solved(c);
                    },
                    None => {
                        return GraphSearchState::Continue;
                    },
                }
            },
            _ => {},
        }

        let ghost g_mid = *self;
        assert(g_mid.spec_nodes()[i as int] == n1);
        assert(g_mid.spec_id_count() == old(self).spec_id_count());
        self.queue_successors(i, &ty, base);
        proof {
            if n0.step is Id || n0.step is Prim {
                assert(spec_node_type(n1) == spec_node_type(n0));
                let a = g_mid.spec_nodes();
                let b = old(self).spec_nodes();
                assert(spec_prev_type(n1) == spec_prev_type(n0));
                assert forall|j: int| 0 <= j < a.len() implies (#[trigger] a[j]).pred == b[j].pred
                    && spec_prev_type(a[j]) == spec_prev_type(b[j]) by {
                    if j != i {
                        assert(a[j] == b[j]);
                    }
                }
                assert(spec_same_paths(a, b));
                let w = self.spec_nodes()[i as int].weight;
                assert((SearchNode { weight: w, ..a[i as int] }) == (SearchNode { weight: w, ..b[i as int] }));
                lemma_expansion_base(a, b, i, w, g_mid.spec_goal(), base.spec_morphisms(), g_mid.spec_id_count(),
                    self.spec_nodes().subrange(a.len() as int, self.spec_nodes().len() as int));
            }
            assert(q1 + spec_range(len0, self.spec_nodes().len()) == self.spec_queue());
        }
        GraphSearchState::Continue
    }
}

/// Whether `done` holds the halo, substitution and decomposition given.
fn contains_decomposition(done: &Vec<(TypeTerm, HashMapSubst, DecomposedMorphismType)>, psi: &TypeTerm, sigmas: &HashMapSubst, d: &DecomposedMorphismType) -> (r: bool)
    ensures
        r == spec_has_key(spec_done_keys(done@), (psi@, subst_view(*sigmas), d@)),
{
    let ghost keys = spec_done_keys(done@);
    let ghost x = (psi@, subst_view(*sigmas), d@);
    let mut j: usize = 0;
    while j < done.len()
        invariant
            j <= done.len(),
            keys == spec_done_keys(done@),
            x == (psi@, subst_view(*sigmas), d@),
            forall|l: int| 0 <= l < j ==> #[trigger] keys[l] != x,
        decreases done.len() - j,
    {
        if done[j].0.same(psi) && same_subst(&done[j].1, sigmas) && done[j].2.same(d) {
            assert(keys[j as int] == x);
            return true;
        }
        assert(keys[j as int] != x);
        j += 1;
    }
    false
}

/// The bindings under which the empty path of a search for `goal` in context `g` reaches
/// a subtype of the goal's destination: the goal's source in normal form, under the
/// context's bindings, unified as a subtype with the goal's destination; `None` where it
/// does not (or a step exceeds the step budget).
pub open spec fn spec_start_binding(g: crate::context::CtxV, goal: MorphTypeV) -> Option<Map<u64, TermV>> {
    match spec_normalize(ladder2(spec_unit(), goal.src), STEP_BUDGET as nat) {
        Some(d) => match spec_subtype_unify(spec_apply(d, ctx_subst(g)), goal.dst, STEP_BUDGET as nat) {
            Some(Ok((_, s))) => Some(s),
            _ => None,
        },
        None => None,
    }
}

/// Whether a search for `goal` in context `g` is solved by its first step: the empty path
/// reaches a subtype of the goal's destination, and the context's bindings together with
/// those this finds saturate within the step budget.
pub open spec fn spec_solved_at_start(g: crate::context::CtxV, goal: MorphTypeV) -> bool {
    match spec_start_binding(g, goal) {
        Some(s) => spec_saturate(Map::<u64, TermV>::empty().union_prefer_right(g.sigma.union_prefer_right(s)), STEP_BUDGET as nat) is Some,
        None => false,
    }
}

/// A search for `goal` in context `g` as it starts: the empty path at the goal's source,
/// queued and explored.
pub open spec fn spec_fresh<M: Morphism + Clone>(s: GraphSearch<M>, g: crate::context::CtxV, goal: MorphTypeV) -> bool {
    &&& s.spec_goal() == goal
    &&& s.spec_gamma() == g
    &&& s.spec_solution() is None
    &&& s.spec_queue() == seq![0usize]
    &&& s.spec_history() == seq![0usize]
    &&& s.spec_nodes().len() == 1
    &&& s.spec_nodes()[0].pred is None
    &&& s.spec_nodes()[0].ctx@ == g
    &&& s.spec_nodes()[0].ty@.src == goal.src
    &&& s.spec_nodes()[0].ty@.dst == goal.src
    &&& s.spec_nodes()[0].step is Id
    &&& s.spec_nodes()[0].psi@ == spec_unit()
}

proof fn lemma_fresh_best<M: Morphism + Clone>(s: GraphSearch<M>, g: crate::context::CtxV, goal: MorphTypeV)
    requires
        spec_fresh(s, g, goal),
    ensures
        spec_best_pos(s, spec_queue_len(s)) == Some(0int),
{
    assert(s.spec_queue().len() == 1);
    assert(s.explore_queue@.len() == 1);
    assert(s.spec_queue()[0] == s.explore_queue@[0].0);
    assert(spec_valid_entry(s, 0));
    assert(spec_best_pos(s, 0) is None);
}

/// A solved step leaves as solution the instance of the path of the node it explored.
proof fn lemma_solved_step<M: Morphism + Clone>(before: GraphSearch<M>, after: GraphSearch<M>, r: GraphSearchState<M>,
    ms: Seq<M>, id0: u64, k: int)
    requires
        spec_advanced(before.spec_nodes(), before.spec_queue(), before.spec_goal(), k, ms, id0, after.spec_nodes(),
            after.spec_queue(), after.spec_gamma(), after.spec_solution(), r),
        after.spec_history() == before.spec_history().push(before.spec_queue()[k]),
        r is Solved,
    ensures
        after.spec_solution() matches Some(s)
            && spec_chain_inst(after.spec_nodes(), after.spec_history().last() as int, after.spec_gamma(), s),
{
    reveal(spec_advanced);
}

/// The first step of a fresh search is solved where the search is solved at its start.
proof fn lemma_first_step<M: Morphism + Clone>(s0: GraphSearch<M>, s1: GraphSearch<M>, r: GraphSearchState<M>, ms: Seq<M>, id0: u64,
    g: crate::context::CtxV, goal: MorphTypeV)
    requires
        spec_fresh(s0, g, goal),
        spec_advanced(s0.spec_nodes(), s0.spec_queue(), goal, 0, ms, id0, s1.spec_nodes(), s1.spec_queue(),
            s1.spec_gamma(), s1.spec_solution(), r),
        spec_solved_at_start(g, goal),
    ensures
        r is Solved,
{
    reveal(spec_advanced);
    let n = s0.spec_nodes()[0];
    assert(s0.spec_queue()[0] == 0);
    assert(spec_goal_binding(n, goal) == spec_start_binding(g, goal));
    let n2 = s1.spec_nodes();
    assert(n2[0].pred is None);
    assert(spec_chain_rev(n2, 0) == seq![0usize]);
    assert(spec_sigma_fold(n2, seq![0usize], 0) == Some(Map::<u64, TermV>::empty()));
    assert(spec_sigma_fold(n2, seq![0usize], 1) is Some);
    assert(spec_step_ready(n2[0].step));
    assert(spec_instance_ok(n2, 0));
}

//------------------------------------------------------------------
// The graph of morphisms
//------------------------------------------------------------------

/// The graph whose edges are the morphisms of a base.
#[verifier::reject_recursive_types(M)]
pub struct MorphismGraph<M: Morphism + Clone> {
    solved_paths: Vec<(MorphismType, MorphismInstance<M>)>,
    base: MorphismBase<M>,
}

impl<M: Morphism + Clone> MorphismGraph<M> {
    /// The base of the graph.
    pub closed spec fn spec_base(&self) -> MorphismBase<M> {
        self.base
    }

    /// The graph of the morphisms of `base`.
    pub fn new(base: MorphismBase<M>) -> (r: MorphismGraph<M>)
        ensures
            r.spec_base() == base,
    {
        MorphismGraph { solved_paths: Vec::new(), base }
    }

    /// Searches for a morphism of type `goal`, in a new scope of the base's context, step
    /// by step until the search is solved or nothing is left to explore; the result comes
    /// with the search itself.  The result is `Ok` exactly where a step solved the search,
    /// with the instance of the path of the node explored last; where the goal's source
    /// already reaches a subtype of its destination, the first step does so.
    #[verifier::spinoff_prover]
    #[verifier::rlimit(40)]
    pub fn search(&self, goal: MorphismType) -> (r: (Result<MorphismInstance<M>, GraphSearchError>, GraphSearch<M>))
        ensures
            r.1.spec_goal() == goal@,
            (r.0 is Ok) == (r.1.spec_solution() is Some),
            r.0 matches Ok(m) ==> r.1.spec_solution() matches Some(s) && spec_copied(s, m)
                && r.1.spec_history().len() > 0
                && spec_chain_inst(r.1.spec_nodes(), r.1.spec_history().last() as int, r.1.spec_gamma(), s),
            r.0 matches Err(e) ==> e == GraphSearchError::NoMorphismFound,
            spec_solved_at_start(r.1.spec_gamma(), goal@) ==> r.0 is Ok && r.1.spec_history() == seq![0usize, 0usize],
    {
        let mut c = self.base.ctx();
        let gamma = if c.can_scope() { c.scope() } else { c };
        let ghost gv = gamma@;
        let ghost g = goal@;
        let mut search = GraphSearch::new(gamma, goal);
        let ghost g0 = search;
        assert(spec_fresh(g0, gv, g));
        proof { lemma_fresh_best(g0, gv, g); }
        let mut steps: u64 = 0;
        while steps < STEP_BUDGET
            invariant
                g == goal@,
                spec_fresh(g0, gv, g),
                spec_best_pos(g0, spec_queue_len(g0)) == Some(0int),
                search.spec_goal() == g,
                search.spec_gamma() == gv,
                search.spec_solution() is None,
                steps == 0 ==> search == g0,
                steps > 0 ==> !spec_solved_at_start(gv, g),
            decreases STEP_BUDGET - steps,
        {
            let ghost before = search;
            let st = search.advance(&self.base);
            proof {
                if st is Solved {
                    let k = spec_best_pos(before, spec_queue_len(before)).unwrap();
                    lemma_solved_step(before, search, st, self.base.spec_morphisms(), before.spec_id_count(), k);
                }
                if steps == 0 {
                    assert(search.spec_history() =~= seq![0usize, 0usize]);
                    if spec_solved_at_start(gv, g) {
                        lemma_first_step(g0, search, st, self.base.spec_morphisms(), g0.spec_id_count(), gv, g);
                    }
                }
            }
            match st {
                GraphSearchState::Solved(m) => {
                    return (Ok(m), search);
                },
                GraphSearchState::Continue => {},
                GraphSearchState::Failed(err) => {
                    return (Err(err), search);
                },
            }
            steps = steps + 1;
        }
        (Err(GraphSearchError::NoMorphismFound), search)
    }
}

} // verus!
