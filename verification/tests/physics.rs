use phys_3d::physics::{
    break_constraint, plan_constraint_update, ConstraintKind, ConstraintUpdate, ForceShare,
};

fn plan(k: ConstraintKind, a: bool, b: bool, over: bool) -> ConstraintUpdate {
    plan_constraint_update(k, a, b, over)
}

#[test]
fn both_fixed_does_nothing() {
    for over in [false, true] {
        let u = plan(ConstraintKind::Elastic, true, true, over);
        assert_eq!(u, ConstraintUpdate { share: ForceShare::NoForce, remove: false });
    }
}

#[test]
fn one_fixed_pushes_the_other() {
    assert_eq!(
        plan(ConstraintKind::Elastic, true, false, false),
        ConstraintUpdate { share: ForceShare::SecondOnly, remove: false }
    );
    assert_eq!(
        plan(ConstraintKind::Elastic, false, true, true),
        ConstraintUpdate { share: ForceShare::FirstOnly, remove: true }
    );
}

#[test]
fn both_free_share_and_break_over_limit() {
    assert_eq!(
        plan(ConstraintKind::Elastic, false, false, true),
        ConstraintUpdate { share: ForceShare::Split, remove: true }
    );
    assert_eq!(
        plan(ConstraintKind::Elastic, false, false, false),
        ConstraintUpdate { share: ForceShare::Split, remove: false }
    );
}

#[test]
fn static_constraint_does_nothing() {
    for (a, b, over) in [(false, false, true), (true, false, true), (false, false, false)] {
        assert_eq!(
            plan(ConstraintKind::Static, a, b, over),
            ConstraintUpdate { share: ForceShare::NoForce, remove: false }
        );
    }
}

#[test]
fn break_constraint_removes_first_equal() {
    let mut v = vec![1, 2, 3, 2];
    break_constraint(&mut v, &vec![false, true, false, true]);
    assert_eq!(v, vec![1, 3, 2]);
}

#[test]
fn break_constraint_without_match_keeps_list() {
    let mut v = vec![1, 2, 3];
    break_constraint(&mut v, &vec![false, false, false]);
    assert_eq!(v, vec![1, 2, 3]);
    let mut e: Vec<u8> = vec![];
    break_constraint(&mut e, &vec![]);
    assert!(e.is_empty());
}
