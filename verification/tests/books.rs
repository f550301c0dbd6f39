use kill_them_all::books::{
    activate_skill, equip_skill_book, BookSkill, EquipBook, PlayerBooks, SkillTimer,
};
use kill_them_all::player::PlayerAction;

#[test]
fn equipping_a_book_in_an_empty_slot() {
    let mut books = PlayerBooks::new();
    assert_eq!(
        equip_skill_book(true, &mut books, PlayerAction::Skill2, 40),
        EquipBook::Equipped { old_book: None }
    );
    assert_eq!(books.get(PlayerAction::Skill2), Some(40));
    assert_eq!(books.get(PlayerAction::Skill1), None);
}

#[test]
fn equipping_replaces_the_book_of_the_slot() {
    let mut books = PlayerBooks::new();
    equip_skill_book(true, &mut books, PlayerAction::Skill1, 40);
    equip_skill_book(true, &mut books, PlayerAction::Skill2, 41);
    assert_eq!(
        equip_skill_book(true, &mut books, PlayerAction::Skill1, 42),
        EquipBook::Equipped { old_book: Some(40) }
    );
    assert_eq!(books.get(PlayerAction::Skill1), Some(42));
    assert_eq!(books.get(PlayerAction::Skill2), Some(41));
}

#[test]
fn a_book_moves_between_slots() {
    let mut books = PlayerBooks::new();
    equip_skill_book(true, &mut books, PlayerAction::Skill1, 40);
    assert_eq!(
        equip_skill_book(true, &mut books, PlayerAction::Skill4, 40),
        EquipBook::Equipped { old_book: None }
    );
    assert_eq!(books.get(PlayerAction::Skill1), None);
    assert_eq!(books.get(PlayerAction::Skill4), Some(40));
}

#[test]
fn equipping_the_same_book_again_changes_nothing() {
    let mut books = PlayerBooks::new();
    equip_skill_book(true, &mut books, PlayerAction::Skill3, 40);
    assert_eq!(
        equip_skill_book(true, &mut books, PlayerAction::Skill3, 40),
        EquipBook::AlreadyEquipped
    );
    assert_eq!(books.get(PlayerAction::Skill3), Some(40));
}

#[test]
fn only_books_can_be_equipped() {
    let mut books = PlayerBooks::new();
    assert_eq!(
        equip_skill_book(false, &mut books, PlayerAction::Skill1, 40),
        EquipBook::NotABook
    );
    assert_eq!(books.get(PlayerAction::Skill1), None);
}

#[test]
fn removing_a_book_clears_its_slot() {
    let mut books = PlayerBooks::new();
    books.set_book(PlayerAction::Skill1, 40);
    books.set_book(PlayerAction::Skill2, 41);
    books.remove(40);
    assert_eq!(books.get(PlayerAction::Skill1), None);
    assert_eq!(books.get(PlayerAction::Skill2), Some(41));
}

#[test]
fn skills_with_finished_timers_are_activated_and_reset() {
    let mut books = PlayerBooks::new();
    books.set_book(PlayerAction::Skill1, 40);
    books.set_book(PlayerAction::Skill2, 41);
    books.set_book(PlayerAction::Skill3, 42);
    let book_skills = vec![
        BookSkill { book: 40, skill: 50 },
        BookSkill { book: 41, skill: 51 },
        BookSkill { book: 42, skill: 52 },
    ];
    let mut timers = vec![
        SkillTimer { skill: 50, finished: true },
        SkillTimer { skill: 51, finished: false },
        SkillTimer { skill: 52, finished: true },
    ];
    let activated = activate_skill(true, true, false, true, &books, &book_skills, &mut timers);
    assert_eq!(activated, vec![50]);
    assert_eq!(
        timers,
        vec![
            SkillTimer { skill: 50, finished: false },
            SkillTimer { skill: 51, finished: false },
            SkillTimer { skill: 52, finished: true },
        ]
    );
    let activated = activate_skill(false, false, true, false, &books, &book_skills, &mut timers);
    assert_eq!(activated, vec![52]);
    assert!(timers.iter().all(|t| !t.finished));
}

#[test]
fn one_skill_in_two_slots_fires_once() {
    let mut books = PlayerBooks::new();
    books.set_book(PlayerAction::Skill1, 40);
    books.set_book(PlayerAction::Skill2, 40);
    let book_skills = vec![BookSkill { book: 40, skill: 50 }];
    let mut timers = vec![SkillTimer { skill: 50, finished: true }];
    let activated = activate_skill(true, true, true, true, &books, &book_skills, &mut timers);
    assert_eq!(activated, vec![50]);
}
