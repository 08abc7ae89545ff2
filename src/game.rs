use vstd::prelude::*;

use crate::dice::draw_below;

verus! {

/// How a finished game ended.
#[derive(Debug, Clone, Copy, PartialEq, Eq, Structural, PartialOrd, Ord, Hash)]
pub enum Outcome {
    Won,
    Lost,
}

/// One face of the six-sided die. The four colours harvest from their own
/// pile, the basket harvests from the fullest pile, the bird advances.
#[derive(Debug, Clone, Copy, PartialEq, Eq, Structural)]
pub enum RollFace {
    Red,
    Green,
    Blue,
    Yellow,
    Basket,
    Bird,
}

/// Fruit in each pile when a game starts.
pub const PILE_START: u8 = 4;

/// The face numbered `index` in the order red, green, blue, yellow, basket, bird.
pub open spec fn face_numbered(index: int) -> RollFace {
    if index == 0 {
        RollFace::Red
    } else if index == 1 {
        RollFace::Green
    } else if index == 2 {
        RollFace::Blue
    } else if index == 3 {
        RollFace::Yellow
    } else if index == 4 {
        RollFace::Basket
    } else {
        RollFace::Bird
    }
}

impl RollFace {
    /// The face numbered `index` in the order red, green, blue, yellow,
    /// basket, bird.
    pub fn from_index(index: u8) -> (r: RollFace)
        requires
            index < 6,
        ensures
            r == face_numbered(index as int),
    {
        match index {
            0 => RollFace::Red,
            1 => RollFace::Green,
            2 => RollFace::Blue,
            3 => RollFace::Yellow,
            4 => RollFace::Basket,
            _ => RollFace::Bird,
        }
    }

    /// A roll of the die: each of the six faces equally likely.
    pub fn random(rng: &mut rand::rngs::ThreadRng) -> (r: RollFace) {
        let index = draw_below(rng, 6);
        RollFace::from_index(index)
    }
}

/// The number of `face` in the order red, green, blue, yellow, basket, bird.
pub open spec fn face_index(face: RollFace) -> int {
    match face {
        RollFace::Red => 0,
        RollFace::Green => 1,
        RollFace::Blue => 2,
        RollFace::Yellow => 3,
        RollFace::Basket => 4,
        RollFace::Bird => 5,
    }
}

/// Subtraction of one that stops at zero.
pub open spec fn saturating_dec(x: u8) -> u8 {
    if x == 0 {
        0
    } else {
        (x - 1) as u8
    }
}

/// Fruit left over all four piles.
pub open spec fn pile_total(piles: Seq<u8>) -> int {
    piles[0] + piles[1] + piles[2] + piles[3]
}

/// Pile `i` holds the largest count, and no earlier pile holds as many.
pub open spec fn is_fullest_pile(piles: Seq<u8>, i: int) -> bool {
    &&& 0 <= i < 4
    &&& forall|j: int| 0 <= j < 4 ==> piles[j] <= piles[i]
    &&& forall|j: int| 0 <= j < i ==> piles[j] < piles[i]
}

/// The pile a basket roll harvests from: the first one holding the maximum.
/// Taking from the fullest pile is a strategy this model assumes, not a rule
/// of the board game.
pub open spec fn fullest_pile(piles: Seq<u8>) -> int {
    choose|i: int| is_fullest_pile(piles, i)
}

/// The piles after one fruit is taken from pile `i`, if it has any.
pub open spec fn harvest(piles: Seq<u8>, i: int) -> Seq<u8> {
    piles.update(i, saturating_dec(piles[i]))
}

/// The piles after a roll of `roll`.
pub open spec fn piles_after(piles: Seq<u8>, roll: RollFace) -> Seq<u8> {
    match roll {
        RollFace::Red => harvest(piles, 0),
        RollFace::Green => harvest(piles, 1),
        RollFace::Blue => harvest(piles, 2),
        RollFace::Yellow => harvest(piles, 3),
        RollFace::Basket => harvest(piles, fullest_pile(piles)),
        RollFace::Bird => piles,
    }
}

/// The bird's distance to the orchard after a roll of `roll`.
pub open spec fn guard_after(guard: u8, roll: RollFace) -> u8 {
    if roll is Bird {
        saturating_dec(guard)
    } else {
        guard
    }
}

/// The terminal check: the bird arriving loses, and is checked first; all
/// piles empty wins; anything else goes on.
pub open spec fn outcome_of(guard: u8, piles: Seq<u8>) -> Option<Outcome> {
    if guard == 0 {
        Some(Outcome::Lost)
    } else if pile_total(piles) == 0 {
        Some(Outcome::Won)
    } else {
        None
    }
}

/// The state of one game: how far the bird still is from the orchard, and
/// the fruit left in the red, green, blue and yellow piles.
#[derive(Debug, Clone, Copy)]
pub struct GameState {
    pub guard_position: u8,
    pub resource_piles: [u8; 4],
}

impl GameState {
    /// No pile holds more than it started with.
    pub open spec fn wf(self) -> bool {
        forall|i: int| 0 <= i < 4 ==> self.resource_piles@[i] <= PILE_START
    }

    pub open spec fn terminal(self) -> Option<Outcome> {
        outcome_of(self.guard_position, self.resource_piles@)
    }

    /// The bird's distance plus the fruit left: no game lasts more useful
    /// rolls than this.
    pub open spec fn remaining(self) -> int {
        self.guard_position + pile_total(self.resource_piles@)
    }

    /// `roll` changes this state.
    pub open spec fn moved_by(self, roll: RollFace) -> bool {
        match roll {
            RollFace::Red => self.resource_piles@[0] > 0,
            RollFace::Green => self.resource_piles@[1] > 0,
            RollFace::Blue => self.resource_piles@[2] > 0,
            RollFace::Yellow => self.resource_piles@[3] > 0,
            RollFace::Basket => pile_total(self.resource_piles@) > 0,
            RollFace::Bird => self.guard_position > 0,
        }
    }

    /// A game whose bird is `guard_position` steps away and whose four piles
    /// are full.
    pub fn new(guard_position: u8) -> (r: GameState)
        ensures
            r.guard_position == guard_position,
            r.resource_piles@ == seq![PILE_START, PILE_START, PILE_START, PILE_START],
            r.wf(),
    {
        let r = GameState { guard_position, resource_piles: [PILE_START, PILE_START, PILE_START, PILE_START] };
        assert(r.resource_piles@ =~= seq![PILE_START, PILE_START, PILE_START, PILE_START]);
        r
    }

    /// The terminal check: `Some` once the game is over.
    pub fn outcome(&self) -> (r: Option<Outcome>)
        ensures
            r == self.terminal(),
    {
        if self.guard_position == 0 {
            return Some(Outcome::Lost);
        }
        let p = &self.resource_piles;
        let total: u16 = p[0] as u16 + p[1] as u16 + p[2] as u16 + p[3] as u16;
        if total == 0 {
            Some(Outcome::Won)
        } else {
            None
        }
    }

    fn take_from(&mut self, i: usize)
        requires
            i < 4,
        ensures
            final(self).guard_position == old(self).guard_position,
            final(self).resource_piles@ == harvest(old(self).resource_piles@, i as int),
    {
        let left = self.resource_piles[i].saturating_sub(1);
        self.resource_piles[i] = left;
        assert(self.resource_piles@ =~= harvest(old(self).resource_piles@, i as int));
    }

    /// Whether `roll` would change this state.
    pub fn changes(&self, roll: RollFace) -> (r: bool)
        ensures
            r == self.moved_by(roll),
    {
        let p = &self.resource_piles;
        match roll {
            RollFace::Red => p[0] > 0,
            RollFace::Green => p[1] > 0,
            RollFace::Blue => p[2] > 0,
            RollFace::Yellow => p[3] > 0,
            RollFace::Basket => p[0] as u16 + p[1] as u16 + p[2] as u16 + p[3] as u16 > 0,
            RollFace::Bird => self.guard_position > 0,
        }
    }

    /// The faces that would change this state, each once, in face order.
    pub fn effective_rolls(&self) -> (v: Vec<RollFace>)
        ensures
            v@.len() <= 6,
            v@.no_duplicates(),
            forall|f: RollFace| v@.contains(f) <==> self.moved_by(f),
            forall|a: int, b: int|
                0 <= a < b < v@.len() ==> face_index(#[trigger] v@[a]) < face_index(#[trigger] v@[b]),
    {
        let mut v: Vec<RollFace> = Vec::new();
        let mut n: u8 = 0;
        while n < 6
            invariant
                n <= 6,
                v@.len() <= n,
                forall|a: int| 0 <= a < v@.len() ==> self.moved_by(#[trigger] v@[a]) && face_index(v@[a]) < n,
                forall|a: int, b: int|
                    0 <= a < b < v@.len() ==> face_index(#[trigger] v@[a]) < face_index(#[trigger] v@[b]),
                forall|k: int|
                    0 <= k < n && self.moved_by(face_numbered(k)) ==> v@.contains(#[trigger] face_numbered(k)),
            decreases 6 - n,
        {
            let f = RollFace::from_index(n);
            if self.changes(f) {
                let ghost before = v@;
                v.push(f);
                assert forall|k: int|
                    0 <= k < n && self.moved_by(face_numbered(k)) implies v@.contains(#[trigger] face_numbered(k)) by {
                    let i = choose|i: int| 0 <= i < before.len() && before[i] == face_numbered(k);
                    assert(v@[i] == face_numbered(k));
                }
                assert(v@[v@.len() - 1] == f);
            }
            n = n + 1;
        }
        assert forall|f: RollFace| v@.contains(f) <==> self.moved_by(f) by {
            assert(face_numbered(face_index(f)) == f);
        }
        assert forall|a: int, b: int| 0 <= a < v@.len() && 0 <= b < v@.len() && a != b implies v@[a] != v@[b] by {
            if a < b {
                assert(face_index(v@[a]) < face_index(v@[b]));
            } else {
                assert(face_index(v@[b]) < face_index(v@[a]));
            }
        }
        v
    }

    /// Rolls until the game is over; returns how it ended and how many rolls
    /// it took.
    ///
    /// A face whose pile is already empty changes nothing, so each roll is
    /// drawn among the faces that change the state, all equally likely. The
    /// games that follow are those of rolling all six faces with the rolls
    /// that change nothing left out; every roll counted here lowers
    /// `remaining()` by one.
    pub fn play_out(&mut self, rng: &mut rand::rngs::ThreadRng) -> (r: (Outcome, u16))
        ensures
            final(self).terminal() == Some(r.0),
            r.1 == old(self).remaining() - final(self).remaining(),
            r.1 <= old(self).remaining(),
            old(self).terminal() is Some ==> r.1 == 0 && *final(self) == *old(self),
            old(self).guard_position == 0 ==> r.0 == Outcome::Lost,
            old(self).wf() ==> final(self).wf(),
    {
        let mut rolls: u16 = 0;
        loop
            invariant
                rolls == old(self).remaining() - self.remaining(),
                old(self).terminal() is Some ==> rolls == 0 && *self == *old(self),
                old(self).guard_position == 0 ==> self.guard_position == 0,
                old(self).wf() ==> self.wf(),
            decreases self.remaining(),
        {
            if let Some(outcome) = self.outcome() {
                return (outcome, rolls);
            }
            let faces = self.effective_rolls();
            assert(self.moved_by(RollFace::Bird) && self.moved_by(RollFace::Basket));
            assert(faces@.contains(RollFace::Bird) && faces@.contains(RollFace::Basket));
            let k = draw_below(rng, faces.len() as u8);
            let roll = faces[k as usize];
            assert(self.moved_by(roll)) by {
                assert(faces@.contains(roll));
            }
            proof {
                lemma_roll_progress(*self, roll);
            }
            self.apply(roll);
            rolls = rolls + 1;
        }
    }

    /// Applies one roll and then the terminal check.
    pub fn apply(&mut self, roll: RollFace) -> (r: Option<Outcome>)
        ensures
            final(self).guard_position == guard_after(old(self).guard_position, roll),
            final(self).resource_piles@ == piles_after(old(self).resource_piles@, roll),
            r == final(self).terminal(),
            old(self).wf() ==> final(self).wf(),
    {
        match roll {
            RollFace::Red => self.take_from(0),
            RollFace::Green => self.take_from(1),
            RollFace::Blue => self.take_from(2),
            RollFace::Yellow => self.take_from(3),
            RollFace::Basket => {
                let i = fullest_pile_index(&self.resource_piles);
                proof {
                    lemma_fullest_pile_unique(self.resource_piles@, i as int);
                }
                self.take_from(i);
            },
            RollFace::Bird => {
                self.guard_position = self.guard_position.saturating_sub(1);
            },
        }
        self.outcome()
    }
}

/// A roll lowers the bird's distance plus the fruit left by exactly one when
/// it changes the state, and otherwise leaves the state as it was. So a game
/// ends after at most `remaining()` rolls that change it.
pub proof fn lemma_roll_progress(s: GameState, roll: RollFace)
    ensures
        s.moved_by(roll) ==> guard_after(s.guard_position, roll) + pile_total(
            piles_after(s.resource_piles@, roll),
        ) == s.remaining() - 1,
        !s.moved_by(roll) ==> guard_after(s.guard_position, roll) == s.guard_position
            && piles_after(s.resource_piles@, roll) == s.resource_piles@,
{
    let p = s.resource_piles@;
    lemma_fullest_pile_exists(p);
    let i = fullest_pile(p);
    if roll is Basket && pile_total(p) == 0 {
        assert(p[i] == 0);
        assert(harvest(p, i) =~= p);
    }
    if roll is Red && p[0] == 0 {
        assert(harvest(p, 0) =~= p);
    }
    if roll is Green && p[1] == 0 {
        assert(harvest(p, 1) =~= p);
    }
    if roll is Blue && p[2] == 0 {
        assert(harvest(p, 2) =~= p);
    }
    if roll is Yellow && p[3] == 0 {
        assert(harvest(p, 3) =~= p);
    }
}

/// A counter at zero stays at zero whatever is rolled: neither the bird's
/// distance nor any pile ever drops below zero.
pub proof fn lemma_saturation(s: GameState, roll: RollFace)
    ensures
        s.guard_position == 0 ==> guard_after(s.guard_position, roll) == 0,
        forall|i: int|
            0 <= i < 4 && s.resource_piles@[i] == 0 ==> #[trigger] piles_after(
                s.resource_piles@,
                roll,
            )[i] == 0,
{
    lemma_fullest_pile_exists(s.resource_piles@);
}

/// The bird arriving loses the game even when the same roll leaves every
/// pile empty: the loss is checked first.
pub proof fn lemma_arrival_loses(s: GameState, roll: RollFace)
    requires
        guard_after(s.guard_position, roll) == 0,
    ensures
        outcome_of(guard_after(s.guard_position, roll), piles_after(s.resource_piles@, roll))
            == Some(Outcome::Lost),
{
}

proof fn lemma_fullest_pile_exists(piles: Seq<u8>)
    ensures
        is_fullest_pile(piles, fullest_pile(piles)),
{
    let (a, b, c, d) = (piles[0], piles[1], piles[2], piles[3]);
    if a >= b && a >= c && a >= d {
        assert(is_fullest_pile(piles, 0));
    } else if b > a && b >= c && b >= d {
        assert(is_fullest_pile(piles, 1));
    } else if c > a && c > b && c >= d {
        assert(is_fullest_pile(piles, 2));
    } else {
        assert(is_fullest_pile(piles, 3));
    }
}

/// The first index holding the largest count.
fn fullest_pile_index(piles: &[u8; 4]) -> (i: usize)
    ensures
        is_fullest_pile(piles@, i as int),
{
    let mut best: usize = 0;
    let mut k: usize = 1;
    while k < 4
        invariant
            1 <= k <= 4,
            best < k,
            piles@.len() == 4,
            forall|j: int| 0 <= j < k ==> piles@[j] <= piles@[best as int],
            forall|j: int| 0 <= j < best ==> piles@[j] < piles@[best as int],
        decreases 4 - k,
    {
        if piles[k] > piles[best] {
            best = k;
        }
        k = k + 1;
    }
    best
}

proof fn lemma_fullest_pile_unique(piles: Seq<u8>, i: int)
    requires
        is_fullest_pile(piles, i),
    ensures
        fullest_pile(piles) == i,
{
    let k = fullest_pile(piles);
    assert(is_fullest_pile(piles, k));
    if k < i {
        assert(piles[k] < piles[i]);
    } else if i < k {
        assert(piles[i] < piles[k]);
    }
}

} // verus!
