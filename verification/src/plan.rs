//! Placement of the network boundary in a physical plan: the first
//! `CoalescePartitionsExec` met top-down gets a `DistributedCoalesceExec`
//! between itself and its child, so that the child runs on remote workers.

use vstd::prelude::*;

use crate::error::{decimal_text, u64_string};

verus! {

/// A node of a physical plan, as far as the distributed planner reads it.
/// `id` is the position of the underlying plan node in the caller's table.
pub enum PlanNode {
    /// A `CoalescePartitionsExec` over its single child.
    Coalesce { id: usize, child: Box<PlanNode> },
    /// A `DistributedCoalesceExec` that runs its child as stage `stage_id`.
    Distributed { stage_id: usize, child: Box<PlanNode> },
    /// Any other operator, with the one-line text it is displayed with.
    Other { id: usize, label: String, children: Vec<PlanNode> },
}

/// Mathematical model of a [`PlanNode`].
pub enum PlanView {
    Coalesce { id: usize, child: Box<PlanView> },
    Distributed { stage_id: usize, child: Box<PlanView> },
    Other { id: usize, label: Seq<char>, children: Seq<PlanView> },
}

/// The models of a list of plan nodes.
pub open spec fn plan_views(cs: Seq<PlanNode>) -> Seq<PlanView>
    decreases cs,
{
    if cs.len() == 0 {
        Seq::empty()
    } else {
        seq![plan_view(cs[0])] + plan_views(cs.drop_first())
    }
}

/// The model of a plan node.
pub open spec fn plan_view(t: PlanNode) -> PlanView
    decreases t,
{
    match t {
        PlanNode::Coalesce { id, child } => PlanView::Coalesce { id, child: Box::new(plan_view(*child)) },
        PlanNode::Distributed { stage_id, child } => PlanView::Distributed {
            stage_id,
            child: Box::new(plan_view(*child)),
        },
        PlanNode::Other { id, label, children } => PlanView::Other {
            id,
            label: label@,
            children: plan_views(children@),
        },
    }
}

/// Whether a list of plans holds a `CoalescePartitionsExec` anywhere.
pub open spec fn any_coalesce(cs: Seq<PlanView>) -> bool
    decreases cs,
{
    if cs.len() == 0 {
        false
    } else {
        has_coalesce(cs[0]) || any_coalesce(cs.drop_first())
    }
}

/// Whether a plan holds a `CoalescePartitionsExec` anywhere.
pub open spec fn has_coalesce(t: PlanView) -> bool
    decreases t,
{
    match t {
        PlanView::Coalesce { .. } => true,
        PlanView::Distributed { child, .. } => has_coalesce(*child),
        PlanView::Other { children, .. } => any_coalesce(children),
    }
}

/// The list of plans with the boundary placed in the first one that holds a
/// `CoalescePartitionsExec`; the others are left as they are.
pub open spec fn place_in_first(cs: Seq<PlanView>) -> Seq<PlanView>
    decreases cs,
{
    if cs.len() == 0 {
        cs
    } else if has_coalesce(cs[0]) {
        seq![place_boundary(cs[0])] + cs.drop_first()
    } else {
        seq![cs[0]] + place_in_first(cs.drop_first())
    }
}

/// The plan with a `DistributedCoalesceExec` of stage 0 placed under the first
/// `CoalescePartitionsExec` of a top-down, left-to-right walk; no other node
/// changes.
pub open spec fn place_boundary(t: PlanView) -> PlanView
    decreases t,
{
    match t {
        PlanView::Coalesce { id, child } => PlanView::Coalesce {
            id,
            child: Box::new(PlanView::Distributed { stage_id: 0, child }),
        },
        PlanView::Distributed { stage_id, child } => PlanView::Distributed {
            stage_id,
            child: Box::new(place_boundary(*child)),
        },
        PlanView::Other { id, label, children } => PlanView::Other {
            id,
            label,
            children: place_in_first(children),
        },
    }
}

/// The number of nodes of a list of plans.
pub open spec fn plans_size(cs: Seq<PlanView>) -> nat
    decreases cs,
{
    if cs.len() == 0 {
        0
    } else {
        plan_size(cs[0]) + plans_size(cs.drop_first())
    }
}

/// The number of nodes of a plan.
pub open spec fn plan_size(t: PlanView) -> nat
    decreases t,
{
    match t {
        PlanView::Coalesce { child, .. } => 1 + plan_size(*child),
        PlanView::Distributed { child, .. } => 1 + plan_size(*child),
        PlanView::Other { children, .. } => 1 + plans_size(children),
    }
}

/// Each plan of a list is no larger than the list.
proof fn lemma_size_of_element(cs: Seq<PlanView>, i: int)
    requires
        0 <= i < cs.len(),
    ensures
        plan_size(cs[i]) <= plans_size(cs),
    decreases cs.len(),
{
    if i > 0 {
        lemma_size_of_element(cs.drop_first(), i - 1);
        assert(cs.drop_first()[i - 1] == cs[i]);
    }
}

/// The models of a list of nodes are the models of its elements, in order.
proof fn lemma_plan_views_index(cs: Seq<PlanNode>)
    ensures
        plan_views(cs).len() == cs.len(),
        forall|i: int| 0 <= i < cs.len() ==> #[trigger] plan_views(cs)[i] == plan_view(cs[i]),
    decreases cs.len(),
{
    if cs.len() > 0 {
        lemma_plan_views_index(cs.drop_first());
        assert forall|i: int| 0 <= i < cs.len() implies #[trigger] plan_views(cs)[i] == plan_view(
            cs[i],
        ) by {
            if i > 0 {
                assert(cs.drop_first()[i - 1] == cs[i]);
            }
        }
    }
}

/// A list holds a coalesce exactly when one of its elements does.
proof fn lemma_any_coalesce(cs: Seq<PlanView>)
    ensures
        any_coalesce(cs) <==> exists|i: int| 0 <= i < cs.len() && #[trigger] has_coalesce(cs[i]),
    decreases cs.len(),
{
    if cs.len() > 0 {
        lemma_any_coalesce(cs.drop_first());
        if has_coalesce(cs[0]) {
            assert(any_coalesce(cs));
        }
        if any_coalesce(cs.drop_first()) {
            let j = choose|j: int| 0 <= j < cs.drop_first().len() && #[trigger] has_coalesce(
                cs.drop_first()[j],
            );
            assert(has_coalesce(cs[j + 1]));
        }
        if exists|i: int| 0 <= i < cs.len() && #[trigger] has_coalesce(cs[i]) {
            let i = choose|i: int| 0 <= i < cs.len() && #[trigger] has_coalesce(cs[i]);
            if i > 0 {
                assert(has_coalesce(cs.drop_first()[i - 1]));
            }
            assert(any_coalesce(cs));
        }
    }
}

/// Whether a plan holds a `CoalescePartitionsExec` anywhere.
pub fn contains_coalesce(t: &PlanNode) -> (b: bool)
    ensures
        b == has_coalesce(plan_view(*t)),
    decreases plan_size(plan_view(*t)),
{
    match t {
        PlanNode::Coalesce { .. } => true,
        PlanNode::Distributed { child, .. } => contains_coalesce(child),
        PlanNode::Other { children, .. } => {
            proof {
                lemma_plan_views_index(children@);
                lemma_any_coalesce(plan_views(children@));
            }
            let mut i: usize = 0;
            while i < children.len()
                invariant
                    i <= children@.len(),
                    *t == (PlanNode::Other { id: t->Other_id, label: t->Other_label, children: *children }),
                    plan_views(children@).len() == children@.len(),
                    forall|k: int| 0 <= k < children@.len() ==> #[trigger] plan_views(children@)[k] == plan_view(children@[k]),
                    forall|k: int| 0 <= k < i ==> !has_coalesce(#[trigger] plan_views(children@)[k]),
                decreases children@.len() - i,
            {
                assert(plan_views(children@)[i as int] == plan_view(children@[i as int]));
                proof {
                    lemma_size_of_element(plan_views(children@), i as int);
                }
                if contains_coalesce(&children[i]) {
                    proof {
                        lemma_any_coalesce(plan_views(children@));
                    }
                    return true;
                }
                i = i + 1;
            }
            proof {
                lemma_any_coalesce(plan_views(children@));
            }
            false
        },
    }
}

/// The models of a list that starts with `first` are the model of `first`
/// followed by the models of the rest.
proof fn lemma_plan_views_cons(first: PlanNode, rest: Seq<PlanNode>)
    ensures
        plan_views(seq![first] + rest) == seq![plan_view(first)] + plan_views(rest),
{
    let cs = seq![first] + rest;
    assert(cs[0] == first);
    assert(cs.drop_first() =~= rest);
}

/// Place the boundary in the first plan of the list that holds a coalesce.
fn place_in_children(children: Vec<PlanNode>) -> (out: Vec<PlanNode>)
    ensures
        plan_views(out@) == place_in_first(plan_views(children@)),
    decreases plans_size(plan_views(children@)), 1nat,
{
    let ghost cs = children@;
    let mut rest = children;
    if rest.len() == 0 {
        return rest;
    }
    let first = rest.remove(0);
    proof {
        assert(rest@ =~= cs.drop_first());
        assert(cs =~= seq![first] + rest@);
        lemma_plan_views_cons(first, rest@);
        assert((seq![plan_view(first)] + plan_views(rest@)).drop_first() =~= plan_views(rest@));
        assert(plan_size(plan_view(first)) >= 1);
    }
    let mut out: Vec<PlanNode> = Vec::new();
    if contains_coalesce(&first) {
        let placed = apply_network_boundaries(first);
        out.push(placed);
        proof {
            lemma_plan_views_cons(placed, rest@);
            assert(out@ + rest@ =~= seq![placed] + rest@);
        }
        out.append(&mut rest);
    } else {
        let mut tail = place_in_children(rest);
        out.push(first);
        proof {
            lemma_plan_views_cons(first, tail@);
            assert(out@ + tail@ =~= seq![first] + tail@);
        }
        out.append(&mut tail);
    }
    out
}

/// Insert a `DistributedCoalesceExec` (stage 0) between the first
/// `CoalescePartitionsExec` met top-down, left to right, and its child. A plan
/// without a coalesce comes back unchanged.
pub fn apply_network_boundaries(plan: PlanNode) -> (out: PlanNode)
    ensures
        plan_view(out) == place_boundary(plan_view(plan)),
    decreases plan_size(plan_view(plan)), 0nat,
{
    match plan {
        PlanNode::Coalesce { id, child } => {
            let boundary = PlanNode::Distributed { stage_id: 0, child };
            assert(plan_view(boundary) == PlanView::Distributed {
                stage_id: 0,
                child: Box::new(plan_view(*child)),
            });
            PlanNode::Coalesce { id, child: Box::new(boundary) }
        },
        PlanNode::Distributed { stage_id, child } => {
            let placed = apply_network_boundaries(*child);
            PlanNode::Distributed { stage_id, child: Box::new(placed) }
        },
        PlanNode::Other { id, label, children } => {
            let placed = place_in_children(children);
            PlanNode::Other { id, label, children: placed }
        },
    }
}

/// The worker that runs a partition of a distributed stage: partitions are
/// dealt to the `n_workers` workers round-robin.
pub fn worker_for_partition(partition: usize, n_workers: usize) -> (worker: usize)
    requires
        n_workers > 0,
    ensures
        worker == partition % n_workers,
{
    partition % n_workers
}

/// At a `CoalescePartitionsExec`, the boundary goes directly under it and
/// directly above its original child, whatever that child is.
pub proof fn lemma_boundary_sits_under_the_coalesce(id: usize, child: PlanView)
    ensures
        place_boundary(PlanView::Coalesce { id, child: Box::new(child) }) == (PlanView::Coalesce {
            id,
            child: Box::new(PlanView::Distributed { stage_id: 0, child: Box::new(child) }),
        }),
{
}

/// Placing the boundary never changes the top node of a plan: its kind, its
/// identity and (for other operators) its text and number of inputs stay.
pub proof fn lemma_placement_keeps_the_top(t: PlanView)
    ensures
        match (t, place_boundary(t)) {
            (PlanView::Coalesce { id: a, .. }, PlanView::Coalesce { id: b, .. }) => a == b,
            (PlanView::Distributed { stage_id: a, .. }, PlanView::Distributed { stage_id: b, .. }) => a
                == b,
            (PlanView::Other { id: a, label: la, children: ca }, PlanView::Other {
                id: b,
                label: lb,
                children: cb,
            }) => a == b && la == lb && ca.len() == cb.len(),
            _ => false,
        },
{
    if let PlanView::Other { children, .. } = t {
        lemma_place_in_first_len(children);
    }
}

/// Placing the boundary in a list of plans keeps its length.
proof fn lemma_place_in_first_len(cs: Seq<PlanView>)
    ensures
        place_in_first(cs).len() == cs.len(),
    decreases cs.len(),
{
    if cs.len() > 0 && !has_coalesce(cs[0]) {
        lemma_place_in_first_len(cs.drop_first());
    }
}

// ---------------------------------------------------------------------------
// What the placement keeps
// ---------------------------------------------------------------------------

/// The number of `DistributedCoalesceExec` nodes of a list of plans.
pub open spec fn distributed_count_all(cs: Seq<PlanView>) -> nat
    decreases cs,
{
    if cs.len() == 0 {
        0
    } else {
        distributed_count(cs[0]) + distributed_count_all(cs.drop_first())
    }
}

/// The number of `DistributedCoalesceExec` nodes of a plan.
pub open spec fn distributed_count(t: PlanView) -> nat
    decreases t,
{
    match t {
        PlanView::Coalesce { child, .. } => distributed_count(*child),
        PlanView::Distributed { child, .. } => 1 + distributed_count(*child),
        PlanView::Other { children, .. } => distributed_count_all(children),
    }
}

/// The number of `CoalescePartitionsExec` nodes of a list of plans.
pub open spec fn coalesce_count_all(cs: Seq<PlanView>) -> nat
    decreases cs,
{
    if cs.len() == 0 {
        0
    } else {
        coalesce_count(cs[0]) + coalesce_count_all(cs.drop_first())
    }
}

/// The number of `CoalescePartitionsExec` nodes of a plan.
pub open spec fn coalesce_count(t: PlanView) -> nat
    decreases t,
{
    match t {
        PlanView::Coalesce { child, .. } => 1 + coalesce_count(*child),
        PlanView::Distributed { child, .. } => coalesce_count(*child),
        PlanView::Other { children, .. } => coalesce_count_all(children),
    }
}

/// Placing the boundary in a list of plans changes nothing when none holds a
/// coalesce, and otherwise adds exactly one distributed node and keeps every
/// coalesce.
proof fn lemma_place_in_first_counts(cs: Seq<PlanView>)
    ensures
        !any_coalesce(cs) ==> place_in_first(cs) == cs,
        distributed_count_all(place_in_first(cs)) == distributed_count_all(cs) + if any_coalesce(
            cs,
        ) {
            1int
        } else {
            0int
        },
        coalesce_count_all(place_in_first(cs)) == coalesce_count_all(cs),
    decreases plans_size(cs), 1nat,
{
    if cs.len() > 0 {
        let rest = cs.drop_first();
        assert(plan_size(cs[0]) >= 1);
        lemma_size_of_element(cs, 0);
        if has_coalesce(cs[0]) {
            lemma_place_boundary_counts(cs[0]);
            let out = seq![place_boundary(cs[0])] + rest;
            assert(out[0] == place_boundary(cs[0]));
            assert(out.drop_first() =~= rest);
        } else {
            lemma_place_in_first_counts(rest);
            lemma_place_boundary_counts(cs[0]);
            let out = seq![cs[0]] + place_in_first(rest);
            assert(out[0] == cs[0]);
            assert(out.drop_first() =~= place_in_first(rest));
            if !any_coalesce(cs) {
                assert(out =~= cs);
            }
        }
    }
}

/// Placing the boundary in a plan changes nothing when the plan holds no
/// coalesce, and otherwise adds exactly one distributed node and keeps every
/// coalesce.
pub proof fn lemma_place_boundary_counts(t: PlanView)
    ensures
        !has_coalesce(t) ==> place_boundary(t) == t,
        distributed_count(place_boundary(t)) == distributed_count(t) + if has_coalesce(t) {
            1int
        } else {
            0int
        },
        coalesce_count(place_boundary(t)) == coalesce_count(t),
    decreases plan_size(t), 0nat,
{
    match t {
        PlanView::Coalesce { id, child } => {
            let d = PlanView::Distributed { stage_id: 0, child };
            assert(distributed_count(d) == 1 + distributed_count(*child));
            assert(coalesce_count(d) == coalesce_count(*child));
        },
        PlanView::Distributed { child, .. } => {
            lemma_place_boundary_counts(*child);
        },
        PlanView::Other { children, .. } => {
            lemma_place_in_first_counts(children);
        },
    }
}

// ---------------------------------------------------------------------------
// Text form
// ---------------------------------------------------------------------------

/// The one-line text of a node.
pub open spec fn node_text(t: PlanView) -> Seq<char> {
    match t {
        PlanView::Coalesce { .. } => "CoalescePartitionsExec"@,
        PlanView::Distributed { stage_id, .. } => "DistributedCoalesceExec: stage_id="@
            + decimal_text(stage_id as nat),
        PlanView::Other { label, .. } => label,
    }
}

/// The text of a list of plans, each indented by `prefix`.
pub open spec fn render_all(cs: Seq<PlanView>, prefix: Seq<char>) -> Seq<char>
    decreases cs,
{
    if cs.len() == 0 {
        Seq::empty()
    } else {
        render_all(cs.drop_last(), prefix) + render(cs.last(), prefix)
    }
}

/// The text of a plan: one line per node, top-down, each child indented two
/// spaces more than its parent, and every line ended by a newline.
pub open spec fn render(t: PlanView, prefix: Seq<char>) -> Seq<char>
    decreases t,
{
    let line = prefix + node_text(t) + "\n"@;
    match t {
        PlanView::Coalesce { child, .. } => line + render(*child, prefix + "  "@),
        PlanView::Distributed { child, .. } => line + render(*child, prefix + "  "@),
        PlanView::Other { children, .. } => line + render_all(children, prefix + "  "@),
    }
}

/// Append the one-line text of a node.
fn write_node_text(t: &PlanNode, out: &mut String)
    ensures
        final(out)@ == old(out)@ + node_text(plan_view(*t)),
{
    match t {
        PlanNode::Coalesce { .. } => out.append("CoalescePartitionsExec"),
        PlanNode::Distributed { stage_id, .. } => {
            out.append("DistributedCoalesceExec: stage_id=");
            let digits = u64_string(*stage_id as u64);
            out.append(digits.as_str());
        },
        PlanNode::Other { label, .. } => out.append(label.as_str()),
    }
}

/// Append the text of `t`, indented by `prefix`.
fn render_into(t: &PlanNode, prefix: &str, out: &mut String)
    ensures
        final(out)@ == old(out)@ + render(plan_view(*t), prefix@),
    decreases plan_size(plan_view(*t)),
{
    let ghost start = out@;
    out.append(prefix);
    write_node_text(t, out);
    out.append("\n");
    let inner = String::from_str(prefix).concat("  ");
    match t {
        PlanNode::Coalesce { child, .. } => render_into(child, inner.as_str(), out),
        PlanNode::Distributed { child, .. } => render_into(child, inner.as_str(), out),
        PlanNode::Other { children, .. } => {
            let ghost line = out@;
            let ghost cs = plan_views(children@);
            proof {
                lemma_plan_views_index(children@);
            }
            let mut i: usize = 0;
            while i < children.len()
                invariant
                    i <= children@.len(),
                    *t == (PlanNode::Other { id: t->Other_id, label: t->Other_label, children: *children }),
                    cs == plan_views(children@),
                    cs.len() == children@.len(),
                    forall|k: int| 0 <= k < children@.len() ==> #[trigger] cs[k] == plan_view(children@[k]),
                    out@ == line + render_all(cs.take(i as int), inner@),
                decreases children@.len() - i,
            {
                proof {
                    lemma_size_of_element(cs, i as int);
                }
                render_into(&children[i], inner.as_str(), out);
                proof {
                    assert(cs.take(i + 1).drop_last() =~= cs.take(i as int));
                    assert(cs.take(i + 1).last() == cs[i as int]);
                }
                i = i + 1;
            }
            assert(cs.take(i as int) =~= cs);
        },
    }
}

/// The text of a plan, as [`render`] lays it out with no indentation at the top.
pub fn display_plan(plan: &PlanNode) -> (text: String)
    ensures
        text@ == render(plan_view(*plan), Seq::empty()),
{
    let mut out = String::new();
    render_into(plan, "", &mut out);
    proof {
        reveal_strlit("");
    }
    out
}

} // verus!
