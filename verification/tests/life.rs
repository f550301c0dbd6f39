use kill_them_all::life::Life;

#[test]
fn new_life_is_full() {
    let life = Life::new(10);
    assert_eq!(life.life(), 10);
    assert_eq!(life.max_life(), 10);
    assert!(!life.is_dead());
}

#[test]
fn hit_takes_points_and_stops_at_zero() {
    let mut life = Life::new(10);
    life.hit(3);
    assert_eq!(life.life(), 7);
    assert_eq!(life.max_life(), 10);
    life.hit(20);
    assert_eq!(life.life(), 0);
    assert!(life.is_dead());
    life.hit(1);
    assert_eq!(life.life(), 0);
}

#[test]
fn regenerate_stops_at_max() {
    let mut life = Life::new(10);
    life.hit(5);
    life.regenerate(2);
    assert_eq!(life.life(), 7);
    life.regenerate(100);
    assert_eq!(life.life(), 10);
    assert_eq!(life.max_life(), 10);
}

#[test]
fn empty_life_is_dead() {
    let life = Life::new(0);
    assert!(life.is_dead());
}
