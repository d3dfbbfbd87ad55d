use classic_sync::barber_shop::{Barber, BarberShop};

#[test]
fn customers_are_seated_until_the_room_is_full() {
    let mut s = BarberShop::new(3);
    assert!(s.enter_waiting_room(0));
    assert!(s.enter_waiting_room(1));
    assert!(s.enter_waiting_room(2));
    assert!(!s.enter_waiting_room(3));
    assert_eq!(s.waiting_room().iter().copied().collect::<Vec<_>>(), vec![0, 1, 2]);
}

#[test]
fn barber_serves_first_come_first() {
    let mut s = BarberShop::new(3);
    s.enter_waiting_room(5);
    s.enter_waiting_room(6);
    assert_eq!(s.exit_waiting_room(), Some(5));
    assert!(s.enter_waiting_room(7));
    assert_eq!(s.exit_waiting_room(), Some(6));
    assert_eq!(s.exit_waiting_room(), Some(7));
    assert_eq!(s.exit_waiting_room(), None);
}

#[test]
fn barber_sleeps_when_room_is_empty() {
    let mut s = BarberShop::new(1);
    assert_eq!(s.exit_waiting_room(), None);
    assert!(s.waiting_room().is_empty());
}

#[test]
fn shop_without_chairs_turns_everyone_away() {
    let mut s = BarberShop::new(0);
    assert!(!s.enter_waiting_room(1));
    assert_eq!(s.exit_waiting_room(), None);
    let _ = Barber::new();
}
