use vstd::prelude::*;

verus! {

/// The two kinds of constraint between a pair of vertices.
#[derive(Clone, Copy, Debug, PartialEq, Eq, Structural)]
pub enum ConstraintKind {
    /// A spring: it pulls its vertices toward its resting length and breaks
    /// when the force it applies exceeds its breaking force.
    Elastic,
    /// A rigid link; it takes no part in the force step.
    Static,
}

/// Which vertices of a constraint the spring force is applied to.
#[derive(Clone, Copy, Debug, PartialEq, Eq, Structural)]
pub enum ForceShare {
    /// No vertex moves.
    NoForce,
    /// The first vertex takes the whole force, pushed away from the second.
    FirstOnly,
    /// The second vertex takes the whole force, pushed away from the first.
    SecondOnly,
    /// Each vertex takes half the force, pushed away from the other.
    Split,
}

/// What one update step does to a constraint.
#[derive(Clone, Copy, Debug, PartialEq, Eq, Structural)]
pub struct ConstraintUpdate {
    pub share: ForceShare,
    /// The constraint is removed from the constraint list afterwards.
    pub remove: bool,
}

/// The update step of a constraint, from its kind, which of its vertices are fixed,
/// and whether the force it applies exceeds its breaking force.
pub open spec fn constraint_update_spec(
    kind: ConstraintKind,
    first_fixed: bool,
    second_fixed: bool,
    over_limit: bool,
) -> ConstraintUpdate {
    match kind {
        ConstraintKind::Static => ConstraintUpdate { share: ForceShare::NoForce, remove: false },
        ConstraintKind::Elastic => if first_fixed && second_fixed {
            ConstraintUpdate { share: ForceShare::NoForce, remove: false }
        } else if first_fixed {
            ConstraintUpdate { share: ForceShare::SecondOnly, remove: over_limit }
        } else if second_fixed {
            ConstraintUpdate { share: ForceShare::FirstOnly, remove: over_limit }
        } else {
            ConstraintUpdate { share: ForceShare::Split, remove: over_limit }
        },
    }
}

/// Decides one update step of a constraint: a spring whose vertices are both fixed
/// does nothing at all; otherwise its force goes to the free vertices, shared
/// equally when both are free, and the spring is removed when the force exceeds
/// its breaking force. A static constraint does nothing.
pub fn plan_constraint_update(
    kind: ConstraintKind,
    first_fixed: bool,
    second_fixed: bool,
    over_limit: bool,
) -> (u: ConstraintUpdate)
    ensures
        u == constraint_update_spec(kind, first_fixed, second_fixed, over_limit),
        u.remove <==> (kind == ConstraintKind::Elastic && over_limit && !(first_fixed
            && second_fixed)),
        u.share == ForceShare::NoForce <==> (kind == ConstraintKind::Static || (first_fixed
            && second_fixed)),
{
    let mut do_break = false;
    match kind {
        ConstraintKind::Elastic => {
            if over_limit {
                do_break = true;
            }
            if first_fixed {
                if second_fixed {
                    return ConstraintUpdate { share: ForceShare::NoForce, remove: false };
                } else {
                    return ConstraintUpdate { share: ForceShare::SecondOnly, remove: do_break };
                }
            } else if second_fixed {
                ConstraintUpdate { share: ForceShare::FirstOnly, remove: do_break }
            } else {
                ConstraintUpdate { share: ForceShare::Split, remove: do_break }
            }
        },
        ConstraintKind::Static => ConstraintUpdate { share: ForceShare::NoForce, remove: do_break },
    }
}

/// `m` is the first position at which `marks` holds `true`.
pub open spec fn first_marked(marks: Seq<bool>, m: int) -> bool {
    &&& 0 <= m < marks.len()
    &&& marks[m]
    &&& forall|k: int| 0 <= k < m ==> !marks[k]
}

/// Removes from `constraints` the first one that equals the constraint being broken,
/// `equal[k]` telling whether `constraints[k]` does; the list is left as it was
/// when none does.
pub fn break_constraint<T>(constraints: &mut Vec<T>, equal: &Vec<bool>)
    requires
        equal@.len() == old(constraints)@.len(),
    ensures
        (forall|k: int| 0 <= k < equal@.len() ==> !equal@[k]) ==> final(constraints)@ == old(
            constraints,
        )@,
        forall|m: int| first_marked(equal@, m) ==> final(constraints)@ == old(constraints)@.remove(m),
{
    let n = constraints.len();
    let mut i: usize = 0;
    while i < n
        invariant
            n == constraints@.len(),
            n == equal@.len(),
            0 <= i <= n,
            constraints@ == old(constraints)@,
            forall|k: int| 0 <= k < i ==> !equal@[k],
        decreases n - i,
    {
        if equal[i] {
            constraints.remove(i);
            proof {
                assert forall|m: int| first_marked(equal@, m) implies m == i by {
                    if m < i {
                    } else if m > i {
                        assert(!equal@[i as int]);
                    }
                }
            }
            return;
        }
        i += 1;
    }
    proof {
        assert forall|m: int| first_marked(equal@, m) implies false by {}
    }
}


/// The rules of a constraint's update step. A spring breaks exactly when its force
/// exceeds its breaking force and at least one of its vertices is free, whichever
/// one that is; a fixed vertex never takes force; each free vertex of a spring takes
/// force, the whole of it when it is the only free one and half of it when both are
/// free; a static constraint, or a spring between fixed vertices, does nothing.
pub proof fn lemma_constraint_update_rules(
    kind: ConstraintKind,
    first_fixed: bool,
    second_fixed: bool,
    over_limit: bool,
)
    ensures
        ({
            let u = constraint_update_spec(kind, first_fixed, second_fixed, over_limit);
            &&& u.remove == (kind == ConstraintKind::Elastic && over_limit && !(first_fixed
                && second_fixed))
            &&& first_fixed ==> u.share != ForceShare::FirstOnly && u.share != ForceShare::Split
            &&& second_fixed ==> u.share != ForceShare::SecondOnly && u.share != ForceShare::Split
            &&& (kind == ConstraintKind::Elastic && !first_fixed && !second_fixed) ==> u.share
                == ForceShare::Split
            &&& (kind == ConstraintKind::Elastic && first_fixed && !second_fixed) ==> u.share
                == ForceShare::SecondOnly
            &&& (kind == ConstraintKind::Elastic && !first_fixed && second_fixed) ==> u.share
                == ForceShare::FirstOnly
            &&& (kind == ConstraintKind::Static || (first_fixed && second_fixed)) ==> u
                == ConstraintUpdate { share: ForceShare::NoForce, remove: false }
        }),
{
}

/// The break decision does not depend on which single vertex of a spring is fixed.
pub proof fn lemma_break_independent_of_anchor(over_limit: bool)
    ensures
        constraint_update_spec(ConstraintKind::Elastic, true, false, over_limit).remove
            == constraint_update_spec(ConstraintKind::Elastic, false, true, over_limit).remove,
        constraint_update_spec(ConstraintKind::Elastic, true, false, over_limit).remove
            == constraint_update_spec(ConstraintKind::Elastic, false, false, over_limit).remove,
        constraint_update_spec(ConstraintKind::Elastic, false, false, over_limit).remove
            == over_limit,
{
}
} // verus!
