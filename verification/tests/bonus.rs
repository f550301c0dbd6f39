use kill_them_all::bonus::{bonus_drops, bonus_drops_for, spawn_bonus};

#[test]
fn one_roll_out_of_five_drops_a_bonus() {
    let drops = (0..100).filter(|roll| bonus_drops(*roll)).count();
    assert_eq!(drops, 20);
    assert!(bonus_drops(0));
    assert!(bonus_drops(19));
    assert!(!bonus_drops(20));
    assert!(!bonus_drops(99));
}

#[test]
fn one_draw_per_death() {
    assert_eq!(spawn_bonus(5).len(), 5);
    assert!(spawn_bonus(0).is_empty());
}

#[test]
fn bonuses_drop_sometimes() {
    let drops = spawn_bonus(2000);
    let count = drops.iter().filter(|d| **d).count();
    assert!(count > 0);
    assert!(count < 2000);
}

#[test]
fn each_roll_decides_its_drop() {
    assert_eq!(bonus_drops_for(&vec![0, 20, 19, 99, 5]), vec![true, false, true, false, true]);
    assert!(bonus_drops_for(&vec![]).is_empty());
}
