use classic_sync::car_bridge::{Admission, Bridge, Car, Direction, CARS_BEFORE_TURN};

fn on_bridge(b: &Bridge) -> Vec<(usize, Direction)> {
    b.cars_on_bridge().iter().copied().collect()
}

#[test]
fn opposite_swaps_directions() {
    assert_eq!(Direction::AtoB.opposite(), Direction::BtoA);
    assert_eq!(Direction::BtoA.opposite(), Direction::AtoB);
    assert_eq!(Direction::AtoB.opposite().opposite(), Direction::AtoB);
}

#[test]
fn new_bridge_is_empty() {
    let b = Bridge::new(Direction::BtoA);
    assert_eq!(b.direction(), Direction::BtoA);
    assert_eq!(b.cars_crossed(), 0);
    assert!(b.cars_on_bridge().is_empty());
}

#[test]
fn car_against_the_direction_waits() {
    let mut b = Bridge::new(Direction::AtoB);
    assert_eq!(b.acquire_bridge(Direction::BtoA, 101), Admission::Wait);
    assert!(b.cars_on_bridge().is_empty());
    assert_eq!(b.cars_crossed(), 0);
    assert_eq!(b.direction(), Direction::AtoB);
}

#[test]
fn bridge_turns_after_five_cars() {
    let mut b = Bridge::new(Direction::AtoB);
    for id in 1..CARS_BEFORE_TURN {
        assert_eq!(b.acquire_bridge(Direction::AtoB, id), Admission::Entered);
        assert_eq!(b.cars_crossed(), id);
        assert_eq!(b.direction(), Direction::AtoB);
    }
    assert_eq!(b.acquire_bridge(Direction::AtoB, 5), Admission::EnteredAndTurned);
    assert_eq!(b.direction(), Direction::BtoA);
    assert_eq!(b.cars_crossed(), 0);
    let a = Direction::AtoB;
    assert_eq!(on_bridge(&b), vec![(1, a), (2, a), (3, a), (4, a), (5, a)]);
    assert_eq!(b.acquire_bridge(Direction::AtoB, 6), Admission::Wait);
}

#[test]
fn other_direction_waits_until_the_bridge_is_empty() {
    let mut b = Bridge::new(Direction::AtoB);
    for id in 1..=CARS_BEFORE_TURN {
        b.acquire_bridge(Direction::AtoB, id);
    }
    assert_eq!(b.direction(), Direction::BtoA);
    for id in 1..CARS_BEFORE_TURN {
        assert_eq!(b.acquire_bridge(Direction::BtoA, 101), Admission::Wait);
        assert!(b.release_bridge(id));
    }
    assert_eq!(b.acquire_bridge(Direction::BtoA, 101), Admission::Wait);
    assert!(b.release_bridge(CARS_BEFORE_TURN));
    assert_eq!(b.acquire_bridge(Direction::BtoA, 101), Admission::Entered);
    assert_eq!(on_bridge(&b), vec![(101, Direction::BtoA)]);
}

#[test]
fn release_removes_first_occurrence_only() {
    let mut b = Bridge::new(Direction::AtoB);
    b.acquire_bridge(Direction::AtoB, 7);
    b.acquire_bridge(Direction::AtoB, 8);
    b.acquire_bridge(Direction::AtoB, 7);
    assert!(b.release_bridge(7));
    let a = Direction::AtoB;
    assert_eq!(on_bridge(&b), vec![(8, a), (7, a)]);
    assert!(!b.release_bridge(9));
    assert_eq!(on_bridge(&b), vec![(8, a), (7, a)]);
    assert_eq!(b.cars_crossed(), 3);
}

#[test]
fn release_undoes_admission() {
    let mut b = Bridge::new(Direction::BtoA);
    b.acquire_bridge(Direction::BtoA, 1);
    b.acquire_bridge(Direction::BtoA, 42);
    assert!(b.release_bridge(42));
    assert_eq!(on_bridge(&b), vec![(1, Direction::BtoA)]);
}

#[test]
fn car_keeps_its_fields() {
    let c = Car::new(101, Direction::BtoA);
    assert_eq!(c.id, 101);
    assert_eq!(c.direction, Direction::BtoA);
}
