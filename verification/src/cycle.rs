//! The turn cycle: a fixed-membership round-robin over players.
//!
//! The order is fixed once, by a random shuffle at construction — the only
//! point of randomness in the engine, so that who plays first is not
//! caller-controlled.  A cursor marks the current player; `next_player`
//! rotates it.  Advancing an empty cycle is a harmless no-op rather than a
//! panic; construction from an empty list is allowed but such a cycle has
//! no current player.

use vstd::prelude::*;

use rand::seq::SliceRandom;

verus! {

/// Relies on rand's `SliceRandom::shuffle` with `thread_rng`: an in-place
/// random permutation.  The elements are kept — only their order changes —
/// so nothing more than multiset equality can be promised of any outcome.
#[verifier::external_body]
fn shuffled<T>(v: Vec<T>) -> (r: Vec<T>)
    ensures
        r@.to_multiset() == v@.to_multiset(),
        r@.len() == v@.len(),
{
    let mut v = v;
    v.shuffle(&mut rand::thread_rng());
    v
}

/// An ordered player rotation with a current-player cursor.
#[derive(Debug, Clone, PartialEq, Eq)]
pub struct CycleVec<T> {
    /// The players, in the order fixed at creation.
    pub vec: Vec<T>,
    /// The current-player cursor.
    pub index: usize,
}

impl<T> CycleVec<T> {
    /// The players, in their fixed rotation order.
    pub open spec fn players(&self) -> Seq<T> {
        self.vec@
    }

    /// The cursor into `players`.
    pub open spec fn cursor(&self) -> int {
        self.index as int
    }

    /// The cursor stays inside the rotation (and is zero when empty).
    pub open spec fn wf(&self) -> bool {
        if self.vec@.len() == 0 {
            self.index == 0
        } else {
            (self.index as int) < self.vec@.len()
        }
    }

    /// Make a cycle of the given players in a randomly shuffled order.
    pub fn new(vec: Vec<T>) -> (r: Self)
        ensures
            r.wf(),
            r.cursor() == 0,
            r.players().to_multiset() == vec@.to_multiset(),
            r.players().len() == vec@.len(),
    {
        let shuffled_vec = shuffled(vec);
        CycleVec { vec: shuffled_vec, index: 0 }
    }

    /// Make a cycle that keeps the given order; decoding a state token
    /// restores the order the game was created with.
    pub fn from_parts(vec: Vec<T>, index: usize) -> (r: Self)
        requires
            vec@.len() == 0 ==> index == 0,
            vec@.len() > 0 ==> (index as int) < vec@.len(),
        ensures
            r.wf(),
            r.players() == vec@,
            r.cursor() == index as int,
    {
        CycleVec { vec, index }
    }

    /// Rotate the cursor to the next player; on an empty cycle this is a
    /// no-op instead of a panic.
    pub fn next_player(&mut self)
        requires
            old(self).wf(),
        ensures
            final(self).wf(),
            final(self).players() == old(self).players(),
            final(self).cursor() == advance_index(old(self).cursor(), old(self).players().len() as int),
    {
        if self.vec.len() > 0 {
            self.index = (self.index + 1) % self.vec.len();
        }
    }

    /// The player whose turn it is: always `Some` unless the cycle is empty.
    pub fn current(&self) -> (r: Option<&T>)
        requires
            self.wf(),
        ensures
            match r {
                Some(p) => self.players().len() > 0 && *p == self.players()[self.cursor()],
                None => self.players().len() == 0,
            },
    {
        if self.vec.len() > 0 {
            Some(&self.vec[self.index])
        } else {
            None
        }
    }

    /// All players in their stable rotation order.
    pub fn all(&self) -> (r: &Vec<T>)
        ensures
            r@ == self.players(),
    {
        &self.vec
    }

    /// The cursor's position.
    pub fn cursor_index(&self) -> (r: usize)
        ensures
            r as int == self.cursor(),
    {
        self.index
    }

    /// How many players are in the rotation.
    pub fn count(&self) -> (r: usize)
        ensures
            r == self.players().len(),
    {
        self.vec.len()
    }
}

/// Where the cursor lands after one `next_player`.
pub open spec fn advance_index(i: int, len: int) -> int {
    if len > 0 {
        (i + 1) % len
    } else {
        i
    }
}

/// Where the cursor lands after `n` calls of `next_player`.
pub open spec fn advance_n(i: int, len: int, n: nat) -> int
    decreases n,
{
    if n == 0 {
        i
    } else {
        advance_n(advance_index(i, len), len, (n - 1) as nat)
    }
}

proof fn lemma_advance_n_mod(i: int, len: int, n: nat)
    requires
        len > 0,
        0 <= i < len,
    ensures
        advance_n(i, len, n) == (i + n) % len,
    decreases n,
{
    if n == 0 {
        vstd::arithmetic::div_mod::lemma_small_mod(i as nat, len as nat);
    } else {
        let j = (i + 1) % len;
        vstd::arithmetic::div_mod::lemma_mod_bound(i + 1, len);
        lemma_advance_n_mod(j, len, (n - 1) as nat);
        assert(advance_n(i, len, n) == (j + (n - 1)) % len);
        vstd::arithmetic::div_mod::lemma_add_mod_noop_right((n - 1) as int, i + 1, len);
        assert(((n - 1) + (i + 1) % len) % len == ((n - 1) + (i + 1)) % len);
        assert(j + (n - 1) == (n - 1) + (i + 1) % len);
    }
}

/// Turn-cycle law: in a non-empty cycle, advancing once per player brings
/// the cursor back to the player it started on.  With `current`'s
/// contract, `current()` is `Some` at every step along the way.
pub proof fn lemma_full_rotation(i: int, len: int)
    requires
        len > 0,
        0 <= i < len,
    ensures
        advance_n(i, len, len as nat) == i,
{
    lemma_advance_n_mod(i, len, len as nat);
    vstd::arithmetic::div_mod::lemma_mod_multiples_vanish(1, i, len);
    vstd::arithmetic::div_mod::lemma_small_mod(i as nat, len as nat);
}

} // verus!
