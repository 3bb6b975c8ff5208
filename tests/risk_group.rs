use credit_portfolio_model::risk_group::RiskGroup;

#[test]
fn new_group_is_empty() {
    let g: RiskGroup<u32> = RiskGroup::new();
    assert_eq!(g.num_borrower(), 0);
    assert!(g.iter_borrower().is_empty());
}

#[test]
fn members_keep_insertion_order() {
    let mut g = RiskGroup::new();
    g.add_borrower("a");
    g.add_borrower("b");
    g.add_borrower("c");
    assert_eq!(g.num_borrower(), 3);
    assert_eq!(g.iter_borrower(), &["a", "b", "c"]);
    assert_eq!(g.into_borrowers(), vec!["a", "b", "c"]);
}
