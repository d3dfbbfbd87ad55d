use classic_sync::smokers::{Ingredient, Smoker, SmokerTable};

#[test]
fn ingredient_numbers() {
    assert_eq!(Ingredient::PAPER.as_usize(), 0);
    assert_eq!(Ingredient::TOBACCO.as_usize(), 1);
    assert_eq!(Ingredient::MATCH.as_usize(), 2);
}

#[test]
fn only_the_match_smoker_smokes_at_first() {
    let t = SmokerTable::new(vec![Ingredient::PAPER, Ingredient::TOBACCO]);
    assert!(!t.acquire_ingredients(Ingredient::PAPER));
    assert!(!t.acquire_ingredients(Ingredient::TOBACCO));
    assert!(t.acquire_ingredients(Ingredient::MATCH));
}

#[test]
fn replenish_with_leaves_out_one() {
    let mut t = SmokerTable::new(vec![]);
    t.replenish_with(0);
    assert_eq!(t.ingredients(), &vec![Ingredient::TOBACCO, Ingredient::MATCH]);
    t.replenish_with(1);
    assert_eq!(t.ingredients(), &vec![Ingredient::PAPER, Ingredient::MATCH]);
    t.replenish_with(2);
    assert_eq!(t.ingredients(), &vec![Ingredient::PAPER, Ingredient::TOBACCO]);
}

#[test]
fn replenish_lets_exactly_one_smoker_smoke() {
    let mut t = SmokerTable::new(vec![Ingredient::PAPER, Ingredient::TOBACCO]);
    for _ in 0..50 {
        t.replenish_ingredients();
        assert_eq!(t.ingredients().len(), 2);
        let smokers = [Ingredient::PAPER, Ingredient::TOBACCO, Ingredient::MATCH]
            .iter()
            .filter(|i| t.acquire_ingredients(**i))
            .count();
        assert_eq!(smokers, 1);
    }
}

#[test]
fn smoker_keeps_its_fields() {
    let s = Smoker::new(2, Ingredient::MATCH);
    assert_eq!(s.id, 2);
    assert_eq!(s.ingredient, Ingredient::MATCH);
}
