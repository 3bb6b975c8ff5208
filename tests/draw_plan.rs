use credit_portfolio_model::draw_plan::DrawPlan;

#[test]
fn draws_follow_factor_group_member_order() {
    // two factors, groups of 2, 0 and 3 borrowers
    let plan = DrawPlan::new(2, vec![2, 0, 3]).unwrap();
    assert_eq!(plan.num_draws(), 2 + 3 + 1 + 4);
    assert_eq!(plan.num_borrowers(), 5);
    assert_eq!(plan.group_draw(0), 2);
    assert_eq!(plan.borrower_draw(0, 0), 3);
    assert_eq!(plan.borrower_draw(0, 1), 4);
    assert_eq!(plan.group_draw(1), 5);
    assert_eq!(plan.group_draw(2), 6);
    assert_eq!(plan.borrower_draw(2, 0), 7);
    assert_eq!(plan.borrower_draw(2, 2), 9);
    assert_eq!(plan.borrower_slot(0, 1), 1);
    assert_eq!(plan.borrower_slot(2, 0), 2);
    assert_eq!(plan.borrower_slot(2, 2), 4);
    assert_eq!(plan.num_groups(), 3);
    assert_eq!(plan.group_size(2), 3);
    assert_eq!(plan.num_factors(), 2);
}

#[test]
fn empty_portfolio_takes_factor_draws_only() {
    let plan = DrawPlan::new(4, Vec::new()).unwrap();
    assert_eq!(plan.num_draws(), 4);
    assert_eq!(plan.num_borrowers(), 0);
}

#[test]
fn oversized_layout_is_refused() {
    assert!(DrawPlan::new(usize::MAX, vec![0]).is_none());
    assert!(DrawPlan::new(1, vec![usize::MAX - 1]).is_none());
    assert!(DrawPlan::new(1, vec![usize::MAX - 2]).is_some());
}

#[test]
fn idiosyncratic_draws_by_slot() {
    let plan = DrawPlan::new(1, vec![2, 1]).unwrap();
    // stream: factor, group 0, b0, b1, group 1, b0
    let draws = [10, 20, 21, 22, 30, 31];
    let pairs = plan.idiosyncratic_draws(&draws);
    assert_eq!(pairs, vec![(21, 20), (22, 20), (31, 30)]);
}

#[test]
fn idiosyncratic_draws_skip_empty_groups() {
    let plan = DrawPlan::new(0, vec![0, 1, 0]).unwrap();
    let draws = [0.5_f64, -1.0, 2.0, 7.0];
    let pairs = plan.idiosyncratic_draws(&draws);
    assert_eq!(pairs, vec![(2.0, -1.0)]);
}
