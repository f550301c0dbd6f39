use vstd::prelude::*;

verus! {

/// Life points left after a hit of `damage`: never below zero.
pub open spec fn points_after_hit(points: nat, damage: u16) -> nat {
    if damage >= points {
        0
    } else {
        (points - damage) as nat
    }
}

/// Life points after regenerating `amount`: never above `max`.
pub open spec fn points_after_regen(points: nat, amount: u16, max: nat) -> nat {
    if points + amount >= max {
        max
    } else {
        (points + amount) as nat
    }
}

/// The life of a character: its current life points and its maximum.
/// The current points never exceed the maximum.
#[derive(Clone, Copy)]
pub struct Life {
    life: u16,
    max_life: u16,
}

impl Life {
    #[verifier::type_invariant]
    spec fn inv(self) -> bool {
        self.life <= self.max_life
    }

    /// Current life points.
    pub closed spec fn points(self) -> nat {
        self.life as nat
    }

    /// Maximum life points.
    pub closed spec fn max_points(self) -> nat {
        self.max_life as nat
    }

    /// A full life of `life` points.
    pub fn new(life: u16) -> (res: Self)
        ensures
            res.points() == life,
            res.max_points() == life,
    {
        Life { life, max_life: life }
    }

    /// Current life points.
    pub fn life(&self) -> (res: u16)
        ensures
            res == self.points(),
            res <= self.max_points(),
    {
        proof {
            use_type_invariant(self);
        }
        self.life
    }

    /// Maximum life points.
    pub fn max_life(&self) -> (res: u16)
        ensures
            res == self.max_points(),
    {
        self.max_life
    }

    /// Takes a hit of `damage` points; life does not go below zero.
    pub fn hit(&mut self, damage: u16)
        ensures
            final(self).points() == points_after_hit(old(self).points(), damage),
            final(self).max_points() == old(self).max_points(),
            final(self).points() <= final(self).max_points(),
    {
        proof {
            use_type_invariant(&*self);
        }
        if damage >= self.life {
            self.life = 0;
        } else {
            self.life = self.life - damage;
        }
    }

    /// The character is dead when it has no life point left.
    pub fn is_dead(&self) -> (res: bool)
        ensures
            res == (self.points() == 0),
            self.points() <= self.max_points(),
    {
        proof {
            use_type_invariant(self);
        }
        self.life == 0
    }

    /// Regenerates `amount` life points, up to the maximum.
    pub fn regenerate(&mut self, amount: u16)
        ensures
            final(self).points() == points_after_regen(
                old(self).points(),
                amount,
                old(self).max_points(),
            ),
            final(self).max_points() == old(self).max_points(),
            final(self).points() <= final(self).max_points(),
    {
        proof {
            use_type_invariant(&*self);
        }
        if amount >= self.max_life - self.life {
            self.life = self.max_life;
        } else {
            self.life = self.life + amount;
        }
    }
}

} // verus!
