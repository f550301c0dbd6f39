use crate::player::{skill_actions, spec_skill_actions, PlayerAction};
use vstd::prelude::*;

verus! {

/// The skill books the player has equipped, one slot per skill key.
pub struct PlayerBooks {
    pub skill1: Option<u64>,
    pub skill2: Option<u64>,
    pub skill3: Option<u64>,
    pub skill4: Option<u64>,
}

impl PlayerBooks {
    /// The book in the slot of `action`.
    pub open spec fn slot(self, action: PlayerAction) -> Option<u64> {
        match action {
            PlayerAction::Skill1 => self.skill1,
            PlayerAction::Skill2 => self.skill2,
            PlayerAction::Skill3 => self.skill3,
            PlayerAction::Skill4 => self.skill4,
        }
    }

    /// No book equipped.
    pub fn new() -> (books: Self)
        ensures
            forall|a: PlayerAction| #[trigger] books.slot(a) is None,
    {
        PlayerBooks { skill1: None, skill2: None, skill3: None, skill4: None }
    }

    /// The book in the slot of `action`.
    pub fn get(&self, action: PlayerAction) -> (book: Option<u64>)
        ensures
            book == self.slot(action),
    {
        match action {
            PlayerAction::Skill1 => self.skill1,
            PlayerAction::Skill2 => self.skill2,
            PlayerAction::Skill3 => self.skill3,
            PlayerAction::Skill4 => self.skill4,
        }
    }

    /// Unequips `book` from every slot that holds it.
    pub fn remove(&mut self, book: u64)
        ensures
            forall|a: PlayerAction|
                #[trigger] final(self).slot(a) == if old(self).slot(a) == Some(book) {
                    None
                } else {
                    old(self).slot(a)
                },
    {
        if self.skill1 == Some(book) {
            self.skill1 = None;
        }
        if self.skill2 == Some(book) {
            self.skill2 = None;
        }
        if self.skill3 == Some(book) {
            self.skill3 = None;
        }
        if self.skill4 == Some(book) {
            self.skill4 = None;
        }
    }

    /// Puts `book` in the slot of `action`.
    pub fn set_book(&mut self, action: PlayerAction, book: u64)
        ensures
            forall|a: PlayerAction|
                #[trigger] final(self).slot(a) == if a == action {
                    Some(book)
                } else {
                    old(self).slot(a)
                },
    {
        match action {
            PlayerAction::Skill1 => self.skill1 = Some(book),
            PlayerAction::Skill2 => self.skill2 = Some(book),
            PlayerAction::Skill3 => self.skill3 = Some(book),
            PlayerAction::Skill4 => self.skill4 = Some(book),
        }
    }
}

/// What equipping a skill book did.
#[derive(Clone, Copy, Debug, PartialEq, Eq, Structural)]
pub enum EquipBook {
    /// The entity is not a skill book: nothing changes.
    NotABook,
    /// The book already is in that slot: nothing changes.
    AlreadyEquipped,
    /// The book is equipped; the book that was in the slot, if any, goes
    /// back to the inventory.
    Equipped { old_book: Option<u64> },
}

/// Slot of `a` once `book` is equipped in the slot of `action`: the book
/// leaves any other slot, and so does the book it replaces.
pub open spec fn slot_after_equip(books: PlayerBooks, action: PlayerAction, book: u64, a: PlayerAction) -> Option<
    u64,
> {
    if a == action {
        Some(book)
    } else if books.slot(a) == Some(book) {
        None
    } else if books.slot(action) is Some && books.slot(a) == books.slot(action) {
        None
    } else {
        books.slot(a)
    }
}

/// Equipping `book` in the slot of `action`, when it is not already there:
/// the book that was in that slot is unequipped everywhere (it is in no slot
/// afterwards), a slot that held `book` is emptied, and every other slot
/// keeps its book.
pub proof fn lemma_equip_unequips_replaced_book(
    books: PlayerBooks,
    action: PlayerAction,
    book: u64,
    a: PlayerAction,
)
    requires
        books.slot(action) != Some(book),
    ensures
        slot_after_equip(books, action, book, action) == Some(book),
        books.slot(action) is Some ==> slot_after_equip(books, action, book, a) != books.slot(
            action,
        ),
        a != action && books.slot(a) == Some(book) ==> slot_after_equip(books, action, book, a) is None,
        a != action && books.slot(a) != Some(book) && (books.slot(action) is None || books.slot(a)
            != books.slot(action)) ==> slot_after_equip(books, action, book, a) == books.slot(a),
{
}

/// No book is equipped in two slots.
pub open spec fn books_distinct(books: PlayerBooks) -> bool {
    forall|a1: PlayerAction, a2: PlayerAction|
        a1 != a2 && #[trigger] books.slot(a1) is Some ==> books.slot(a1) != #[trigger] books.slot(
            a2,
        )
}

/// Equip the skill book `book` (when `is_book`) in the slot of `action`.
/// When another book is in that slot, it is unequipped and the book leaves
/// the slot it was in: afterwards the book is in the slot of `action` and
/// in no other one. Equipping never puts one book in two slots.
pub fn equip_skill_book(is_book: bool, books: &mut PlayerBooks, action: PlayerAction, book: u64) -> (res:
    EquipBook)
    ensures
        !is_book ==> res == EquipBook::NotABook && *final(books) == *old(books),
        is_book && old(books).slot(action) == Some(book) ==> res == EquipBook::AlreadyEquipped
            && *final(books) == *old(books),
        is_book && old(books).slot(action) != Some(book) ==> {
            &&& res == EquipBook::Equipped { old_book: old(books).slot(action) }
            &&& forall|a: PlayerAction| #[trigger]
                final(books).slot(a) == slot_after_equip(*old(books), action, book, a)
        },
        is_book ==> final(books).slot(action) == Some(book),
        is_book && old(books).slot(action) != Some(book) ==> forall|a: PlayerAction|
            a != action ==> #[trigger] final(books).slot(a) != Some(book),
        books_distinct(*old(books)) ==> books_distinct(*final(books)),
        is_book && old(books).slot(action) != Some(book) ==> forall|a: PlayerAction|
            {
                &&& old(books).slot(action) is Some ==> #[trigger] final(books).slot(a) != old(
                    books,
                ).slot(action)
                &&& a != action && old(books).slot(a) == Some(book) ==> final(books).slot(a) is None
                &&& a != action && old(books).slot(a) != Some(book) && (old(books).slot(action) is None
                    || old(books).slot(a) != old(books).slot(action)) ==> final(books).slot(a)
                    == old(books).slot(a)
            },
{
    if !is_book {
        return EquipBook::NotABook;
    }
    let old_book = match books.get(action) {
        Some(old_book) => {
            if old_book == book {
                return EquipBook::AlreadyEquipped;
            }
            books.remove(old_book);
            Some(old_book)
        },
        None => None,
    };
    books.remove(book);
    books.set_book(action, book);
    EquipBook::Equipped { old_book }
}

/// The skill associated with a skill book.
#[derive(Clone, Copy, Debug, PartialEq, Eq, Structural)]
pub struct BookSkill {
    pub book: u64,
    pub skill: u64,
}

/// The attack timer of a skill: whether it has finished.
#[derive(Clone, Copy, Debug, PartialEq, Eq, Structural)]
pub struct SkillTimer {
    pub skill: u64,
    pub finished: bool,
}

/// The skill of the first entry of `book_skills` for `book`.
pub open spec fn skill_of_book(book_skills: Seq<BookSkill>, book: u64) -> Option<u64>
    decreases book_skills.len(),
{
    if book_skills.len() == 0 {
        None
    } else {
        let prev = skill_of_book(book_skills.drop_last(), book);
        if prev is Some {
            prev
        } else if book_skills.last().book == book {
            Some(book_skills.last().skill)
        } else {
            None
        }
    }
}

/// The position of the first timer of `skill` in `timers`.
pub open spec fn timer_of_skill(timers: Seq<SkillTimer>, skill: u64) -> Option<int>
    decreases timers.len(),
{
    if timers.len() == 0 {
        None
    } else {
        let prev = timer_of_skill(timers.drop_last(), skill);
        if prev is Some {
            prev
        } else if timers.last().skill == skill {
            Some(timers.len() - 1)
        } else {
            None
        }
    }
}

/// The skill that `action` activates with the timers `timers`: the skill of
/// the book in the action's slot, when its timer has finished.
pub open spec fn activated_skill(
    books: PlayerBooks,
    book_skills: Seq<BookSkill>,
    timers: Seq<SkillTimer>,
    action: PlayerAction,
) -> Option<u64> {
    match books.slot(action) {
        Some(book) => match skill_of_book(book_skills, book) {
            Some(skill) => match timer_of_skill(timers, skill) {
                Some(i) => if timers[i].finished {
                    Some(skill)
                } else {
                    None
                },
                None => None,
            },
            None => None,
        },
        None => None,
    }
}

/// The timers once `skill`, just activated, has its timer reset.
pub open spec fn reset_timer(timers: Seq<SkillTimer>, skill: u64) -> Seq<SkillTimer> {
    match timer_of_skill(timers, skill) {
        Some(i) => timers.update(i, SkillTimer { skill, finished: false }),
        None => timers,
    }
}

/// The skills activated by `actions`, one after the other, and the timers
/// afterwards.
pub open spec fn activations(
    books: PlayerBooks,
    book_skills: Seq<BookSkill>,
    timers: Seq<SkillTimer>,
    actions: Seq<PlayerAction>,
) -> (Seq<u64>, Seq<SkillTimer>)
    decreases actions.len(),
{
    if actions.len() == 0 {
        (seq![], timers)
    } else {
        let (skills, t) = activations(books, book_skills, timers, actions.drop_last());
        match activated_skill(books, book_skills, t, actions.last()) {
            Some(skill) => (skills.push(skill), reset_timer(t, skill)),
            None => (skills, t),
        }
    }
}

proof fn lemma_timer_of_skill_bounds(timers: Seq<SkillTimer>, skill: u64)
    ensures
        timer_of_skill(timers, skill) matches Some(i) ==> 0 <= i < timers.len() && timers[i].skill
            == skill,
    decreases timers.len(),
{
    if timers.len() > 0 {
        lemma_timer_of_skill_bounds(timers.drop_last(), skill);
    }
}

/// Updating a timer without changing its skill moves no skill's first timer.
proof fn lemma_timer_of_skill_update(ts: Seq<SkillTimer>, i: int, v: SkillTimer, s: u64)
    requires
        0 <= i < ts.len(),
        v.skill == ts[i].skill,
    ensures
        timer_of_skill(ts.update(i, v), s) == timer_of_skill(ts, s),
    decreases ts.len(),
{
    let u = ts.update(i, v);
    if i == ts.len() - 1 {
        assert(u.drop_last() =~= ts.drop_last());
    } else {
        assert(u.drop_last() =~= ts.drop_last().update(i, v));
        lemma_timer_of_skill_update(ts.drop_last(), i, v, s);
    }
}

/// The timers `t`, after the skills `skills` were activated from the timers
/// `orig`: no skill's first timer moved, and the first timer of each skill
/// is finished exactly when it was finished at first and the skill has not
/// been activated; no skill was activated twice.
pub open spec fn timers_track(orig: Seq<SkillTimer>, t: Seq<SkillTimer>, skills: Seq<u64>) -> bool {
    &&& t.len() == orig.len()
    &&& forall|s: u64| #[trigger] timer_of_skill(t, s) == timer_of_skill(orig, s)
    &&& forall|s: u64|
        #[trigger] timer_of_skill(orig, s) matches Some(i) ==> t[i].finished == (orig[i].finished
            && !skills.contains(s))
    &&& skills.no_duplicates()
}

proof fn lemma_activations_track(
    books: PlayerBooks,
    book_skills: Seq<BookSkill>,
    timers: Seq<SkillTimer>,
    actions: Seq<PlayerAction>,
)
    ensures
        timers_track(
            timers,
            activations(books, book_skills, timers, actions).1,
            activations(books, book_skills, timers, actions).0,
        ),
    decreases actions.len(),
{
    if actions.len() == 0 {
        assert(timers_track(timers, timers, seq![]));
    } else {
        let prev = actions.drop_last();
        lemma_activations_track(books, book_skills, timers, prev);
        let (skills, t) = activations(books, book_skills, timers, prev);
        if let Some(s) = activated_skill(books, book_skills, t, actions.last()) {
            let i = timer_of_skill(t, s).unwrap();
            lemma_timer_of_skill_bounds(t, s);
            let t2 = reset_timer(t, s);
            let skills2 = skills.push(s);
            assert(timer_of_skill(timers, s) == Some(i));
            assert(!skills.contains(s));
            assert forall|s2: u64| #[trigger] timer_of_skill(t2, s2) == timer_of_skill(timers, s2) by {
                lemma_timer_of_skill_update(t, i, SkillTimer { skill: s, finished: false }, s2);
                assert(timer_of_skill(t, s2) == timer_of_skill(timers, s2));
            }
            assert forall|s2: u64|
                (#[trigger] timer_of_skill(timers, s2) matches Some(i2) ==> t2[i2].finished == (
                timers[i2].finished && !skills2.contains(s2))) by {
                if timer_of_skill(timers, s2) is Some {
                let i2 = timer_of_skill(timers, s2).unwrap();
                lemma_timer_of_skill_bounds(timers, s2);
                lemma_timer_of_skill_bounds(t, s2);
                assert(timer_of_skill(t, s2) == Some(i2));
                if s2 == s {
                    assert(skills2[skills.len() as int] == s);
                } else {
                    assert(i2 != i);
                    if skills2.contains(s2) {
                        let k = choose|k: int| 0 <= k < skills2.len() && skills2[k] == s2;
                        assert(skills[k] == s2);
                    }
                    if skills.contains(s2) {
                        let k = choose|k: int| 0 <= k < skills.len() && skills[k] == s2;
                        assert(skills2[k] == s2);
                    }
                }
                }
            }
            assert(skills2.no_duplicates());
        }
    }
}

/// The skill that the key `action` would fire with the timers as they are
/// at the start of the frame: the skill of the book in its slot, when that
/// skill has a timer and its first timer has finished.
pub open spec fn ready_at_start(
    books: PlayerBooks,
    book_skills: Seq<BookSkill>,
    timers: Seq<SkillTimer>,
    action: PlayerAction,
) -> Option<u64> {
    if let Some(book) = books.slot(action) {
        if let Some(s) = skill_of_book(book_skills, book) {
            if let Some(i) = timer_of_skill(timers, s) {
                if timers[i].finished {
                    Some(s)
                } else {
                    None
                }
            } else {
                None
            }
        } else {
            None
        }
    } else {
        None
    }
}

/// Every skill key pressed whose slot holds a book whose skill has a
/// finished attack timer fires that skill during the call, and the skill's
/// timer ends reset: however many such keys are pressed, each of their
/// skills fires. No skill fires twice.
pub proof fn lemma_pressed_ready_skills_fire(
    books: PlayerBooks,
    book_skills: Seq<BookSkill>,
    timers: Seq<SkillTimer>,
    actions: Seq<PlayerAction>,
)
    ensures
        forall|k: int|
            0 <= k < actions.len() ==> (#[trigger] ready_at_start(books, book_skills, timers, actions[k]) matches Some(
                s,
            ) ==> activations(books, book_skills, timers, actions).0.contains(s)),
        forall|k: int|
            0 <= k < actions.len() ==> (#[trigger] ready_at_start(books, book_skills, timers, actions[k]) matches Some(
                s,
            ) ==> (timer_of_skill(timers, s) matches Some(i) ==> !activations(
                books,
                book_skills,
                timers,
                actions,
            ).1[i].finished)),
        activations(books, book_skills, timers, actions).0.no_duplicates(),
    decreases actions.len(),
{
    lemma_activations_track(books, book_skills, timers, actions);
    let res = activations(books, book_skills, timers, actions);
    if actions.len() > 0 {
        let prev = actions.drop_last();
        lemma_pressed_ready_skills_fire(books, book_skills, timers, prev);
        lemma_activations_track(books, book_skills, timers, prev);
        let (skills, t) = activations(books, book_skills, timers, prev);
        assert forall|x: u64| skills.contains(x) implies res.0.contains(x) by {
            let j = choose|j: int| 0 <= j < skills.len() && skills[j] == x;
            assert(res.0[j] == x);
        }
        assert forall|k: int|
            0 <= k < actions.len() implies (#[trigger] ready_at_start(books, book_skills, timers, actions[k]) matches Some(
                s,
            ) ==> res.0.contains(s)) by {
            if let Some(s) = ready_at_start(books, book_skills, timers, actions[k]) {
                if k < actions.len() - 1 {
                    assert(prev[k] == actions[k]);
                } else if !skills.contains(s) {
                    let i = timer_of_skill(timers, s).unwrap();
                    assert(timer_of_skill(t, s) == Some(i));
                    assert(t[i].finished);
                    assert(activated_skill(books, book_skills, t, actions.last()) == Some(s));
                    assert(res.0[skills.len() as int] == s);
                }
            }
        }
    }
    assert forall|k: int|
        0 <= k < actions.len() implies (#[trigger] ready_at_start(books, book_skills, timers, actions[k]) matches Some(
            s,
        ) ==> (timer_of_skill(timers, s) matches Some(i) ==> !res.1[i].finished)) by {
        if let Some(s) = ready_at_start(books, book_skills, timers, actions[k]) {
            assert(res.0.contains(s));
            let i = timer_of_skill(timers, s).unwrap();
            assert(timer_of_skill(timers, s) matches Some(i2) ==> res.1[i2].finished == (timers[i2].finished
                && !res.0.contains(s)));
        }
    }
}

fn find_skill(book_skills: &Vec<BookSkill>, book: u64) -> (skill: Option<u64>)
    ensures
        skill == skill_of_book(book_skills@, book),
{
    let mut skill: Option<u64> = None;
    let mut i: usize = 0;
    while i < book_skills.len()
        invariant
            0 <= i <= book_skills.len(),
            skill == skill_of_book(book_skills@.take(i as int), book),
        decreases book_skills.len() - i,
    {
        proof {
            assert(book_skills@.take(i + 1).drop_last() =~= book_skills@.take(i as int));
        }
        if skill.is_none() && book_skills[i].book == book {
            skill = Some(book_skills[i].skill);
        }
        i = i + 1;
    }
    proof {
        assert(book_skills@.take(book_skills.len() as int) =~= book_skills@);
    }
    skill
}

fn find_timer(timers: &Vec<SkillTimer>, skill: u64) -> (index: Option<usize>)
    ensures
        index matches Some(i) ==> timer_of_skill(timers@, skill) == Some(i as int),
        index is None ==> timer_of_skill(timers@, skill) is None,
{
    let mut index: Option<usize> = None;
    let mut i: usize = 0;
    while i < timers.len()
        invariant
            0 <= i <= timers.len(),
            index matches Some(k) ==> timer_of_skill(timers@.take(i as int), skill) == Some(
                k as int,
            ),
            index is None ==> timer_of_skill(timers@.take(i as int), skill) is None,
        decreases timers.len() - i,
    {
        proof {
            assert(timers@.take(i + 1).drop_last() =~= timers@.take(i as int));
        }
        if index.is_none() && timers[i].skill == skill {
            index = Some(i);
        }
        i = i + 1;
    }
    proof {
        assert(timers@.take(timers.len() as int) =~= timers@);
    }
    index
}

/// Activate skills: for each skill key pressed (Q, W, E, R, in that
/// order), the skill of the book in its slot is activated when its attack
/// timer has finished, and the timer is reset. Returns the skills
/// activated, in order.
pub fn activate_skill(
    q: bool,
    w: bool,
    e: bool,
    r: bool,
    books: &PlayerBooks,
    book_skills: &Vec<BookSkill>,
    timers: &mut Vec<SkillTimer>,
) -> (activated: Vec<u64>)
    ensures
        activated@ == activations(*books, book_skills@, old(timers)@, spec_skill_actions(q, w, e, r)).0,
        final(timers)@ == activations(*books, book_skills@, old(timers)@, spec_skill_actions(q, w, e, r)).1,
        forall|k: int|
            0 <= k < spec_skill_actions(q, w, e, r).len() ==> (#[trigger] ready_at_start(
                *books,
                book_skills@,
                old(timers)@,
                spec_skill_actions(q, w, e, r)[k],
            ) matches Some(s) ==> activated@.contains(s)),
        activated@.no_duplicates(),
{
    proof {
        lemma_pressed_ready_skills_fire(*books, book_skills@, timers@, spec_skill_actions(q, w, e, r));
    }
    let actions = skill_actions(q, w, e, r);
    let ghost t0 = timers@;
    let mut activated: Vec<u64> = Vec::new();
    let mut k: usize = 0;
    while k < actions.len()
        invariant
            0 <= k <= actions.len(),
            t0 == old(timers)@,
            (activated@, timers@) == activations(*books, book_skills@, t0, actions@.take(k as int)),
        decreases actions.len() - k,
    {
        proof {
            assert(actions@.take(k + 1).drop_last() =~= actions@.take(k as int));
        }
        let action = actions[k];
        if let Some(book) = books.get(action) {
            if let Some(skill) = find_skill(book_skills, book) {
                if let Some(i) = find_timer(timers, skill) {
                    proof {
                        lemma_timer_of_skill_bounds(timers@, skill);
                    }
                    if timers[i].finished {
                        activated.push(skill);
                        timers.set(i, SkillTimer { skill, finished: false });
                    }
                }
            }
        }
        k = k + 1;
    }
    proof {
        assert(actions@.take(actions.len() as int) =~= actions@);
    }
    activated
}

} // verus!
