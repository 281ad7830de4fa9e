//! The player registry: which user owns which snake.

use vstd::prelude::*;

verus! {

/// Some user of the registry owns the snake `id`.
pub open spec fn has_id(reg: Map<Seq<char>, u8>, id: u8) -> bool {
    exists|u: Seq<char>| reg.contains_key(u) && reg[u] == id
}

/// The user to whom the registry gives the snake `id`.
pub open spec fn owner_of(reg: Map<Seq<char>, u8>, id: u8) -> Seq<char> {
    choose|u: Seq<char>| reg.contains_key(u) && reg[u] == id
}

/// No snake is given to two users.
pub open spec fn one_owner_each(reg: Map<Seq<char>, u8>) -> bool {
    forall|u: Seq<char>, v: Seq<char>|
        reg.contains_key(u) && reg.contains_key(v) && reg[u] == reg[v] ==> u == v
}

/// The registry without the entry of the snake `id`, if it has one.
pub open spec fn without_id(reg: Map<Seq<char>, u8>, id: u8) -> Map<Seq<char>, u8> {
    if has_id(reg, id) {
        reg.remove(owner_of(reg, id))
    } else {
        reg
    }
}

/// One entry of the registry.
#[derive(Debug)]
struct Player {
    user: String,
    snake_id: u8,
}

/// Association between users and snake identifiers. A user has at most one
/// snake and a snake at most one user, so the association can be read in
/// both directions.
#[derive(Debug)]
pub struct PlayerRegistry {
    entries: Vec<Player>,
}

impl View for PlayerRegistry {
    type V = Map<Seq<char>, u8>;

    closed spec fn view(&self) -> Map<Seq<char>, u8> {
        Map::new(
            |u: Seq<char>| self.keys().contains(u),
            |u: Seq<char>| self.ids()[self.keys().index_of(u)],
        )
    }
}

impl PlayerRegistry {
    /// The users in storage order.
    closed spec fn keys(&self) -> Seq<Seq<char>> {
        Seq::new(self.entries@.len(), |i: int| self.entries@[i].user@)
    }

    /// The identifiers in storage order.
    closed spec fn ids(&self) -> Seq<u8> {
        Seq::new(self.entries@.len(), |i: int| self.entries@[i].snake_id)
    }

    /// No user and no identifier is held twice.
    pub closed spec fn wf(&self) -> bool {
        self.keys().no_duplicates() && self.ids().no_duplicates()
    }

    /// What the entry at index `i` contributes to the view.
    proof fn lemma_entry(&self, i: int)
        requires
            self.wf(),
            0 <= i < self.entries@.len(),
        ensures
            self@.contains_key(self.keys()[i]),
            self@[self.keys()[i]] == self.ids()[i],
            has_id(self@, self.ids()[i]),
    {
        let u = self.keys()[i];
        let j = self.keys().index_of(u);
    }

    /// Every key of the view stands at some index.
    proof fn lemma_key(&self, u: Seq<char>) -> (i: int)
        requires
            self.wf(),
            self@.contains_key(u),
        ensures
            0 <= i < self.entries@.len(),
            self.keys()[i] == u,
            self@[u] == self.ids()[i],
    {
        let i = self.keys().index_of(u);
        i
    }

    /// A well-formed registry gives no snake to two users, and holds
    /// finitely many.
    pub proof fn lemma_wf(&self)
        requires
            self.wf(),
        ensures
            one_owner_each(self@),
            self@.dom().finite(),
    {
        assert forall|u: Seq<char>, v: Seq<char>|
            self@.contains_key(u) && self@.contains_key(v) && self@[u] == self@[v] implies u
            == v by {
            let i = self.lemma_key(u);
            let j = self.lemma_key(v);
        }
        vstd::seq_lib::seq_to_set_is_finite(self.keys());
    }

    /// Creates the empty registry.
    pub fn new() -> (r: PlayerRegistry)
        ensures
            r.wf(),
            r@ == Map::<Seq<char>, u8>::empty(),
    {
        let r = PlayerRegistry { entries: Vec::new() };
        r
    }

    /// Returns the number of registered users.
    pub fn len(&self) -> (n: usize)
        requires
            self.wf(),
        ensures
            self@.dom().finite(),
            n == self@.dom().len(),
    {
        proof {
            self.keys().unique_seq_to_set();
            vstd::seq_lib::seq_to_set_is_finite(self.keys());
        }
        self.entries.len()
    }

    /// Looks for a user in storage.
    fn position_of_user(&self, user: &String) -> (r: Option<usize>)
        requires
            self.wf(),
        ensures
            match r {
                Some(i) => i < self.entries@.len() && self.keys()[i as int] == user@
                    && self@.contains_key(user@) && self@[user@] == self.ids()[i as int],
                None => !self@.contains_key(user@),
            },
    {
        let mut i: usize = 0;
        while i < self.entries.len()
            invariant
                self.wf(),
                i <= self.entries.len(),
                forall|k: int| 0 <= k < i ==> self.keys()[k] != user@,
            decreases self.entries.len() - i,
        {
            if self.entries[i].user == *user {
                proof {
                    self.lemma_entry(i as int);
                }
                return Some(i);
            }
            i += 1;
        }
        None
    }

    /// Looks for an identifier in storage.
    fn position_of_id(&self, snake_id: u8) -> (r: Option<usize>)
        requires
            self.wf(),
        ensures
            match r {
                Some(i) => i < self.entries@.len() && self.ids()[i as int] == snake_id
                    && has_id(self@, snake_id) && owner_of(self@, snake_id)
                    == self.keys()[i as int],
                None => !has_id(self@, snake_id),
            },
    {
        let mut i: usize = 0;
        while i < self.entries.len()
            invariant
                self.wf(),
                i <= self.entries.len(),
                forall|k: int| 0 <= k < i ==> self.ids()[k] != snake_id,
            decreases self.entries.len() - i,
        {
            if self.entries[i].snake_id == snake_id {
                proof {
                    self.lemma_entry(i as int);
                    self.lemma_wf();
                }
                return Some(i);
            }
            i += 1;
        }
        proof {
            if has_id(self@, snake_id) {
                let u = owner_of(self@, snake_id);
                let k = self.lemma_key(u);
            }
        }
        None
    }

    /// Tells whether `user` owns a snake.
    pub fn contains_key(&self, user: &String) -> (b: bool)
        requires
            self.wf(),
        ensures
            b == self@.contains_key(user@),
    {
        self.position_of_user(user).is_some()
    }

    /// Returns the identifier of the snake that `user` owns.
    pub fn get(&self, user: &String) -> (r: Option<u8>)
        requires
            self.wf(),
        ensures
            r == (if self@.contains_key(user@) {
                Some(self@[user@])
            } else {
                None
            }),
    {
        match self.position_of_user(user) {
            Some(i) => Some(self.entries[i].snake_id),
            None => None,
        }
    }

    /// Returns the user who owns the snake `snake_id`.
    pub fn owner(&self, snake_id: u8) -> (r: Option<String>)
        requires
            self.wf(),
        ensures
            match r {
                Some(u) => has_id(self@, snake_id) && u@ == owner_of(self@, snake_id)
                    && self@.contains_key(u@) && self@[u@] == snake_id,
                None => !has_id(self@, snake_id),
            },
    {
        match self.position_of_id(snake_id) {
            Some(i) => {
                proof {
                    self.lemma_entry(i as int);
                }
                Some(self.entries[i].user.clone())
            },
            None => None,
        }
    }

    /// Gives the snake `snake_id` to `user`. Nothing is stored, and `false`
    /// is returned, when the user already owns a snake or the snake already
    /// has an owner.
    pub fn insert(&mut self, user: String, snake_id: u8) -> (stored: bool)
        requires
            old(self).wf(),
        ensures
            final(self).wf(),
            stored == (!old(self)@.contains_key(user@) && !has_id(old(self)@, snake_id)),
            stored ==> final(self)@ == old(self)@.insert(user@, snake_id),
            !stored ==> final(self)@ == old(self)@,
    {
        if self.position_of_user(&user).is_some() {
            return false;
        }
        if self.position_of_id(snake_id).is_some() {
            return false;
        }
        let ghost before = *self;
        let ghost name = user@;
        self.entries.push(Player { user, snake_id });
        proof {
            assert(self.keys().no_duplicates()) by {
                assert forall|i: int, j: int|
                    0 <= i < self.keys().len() && 0 <= j < self.keys().len() && i
                        != j implies self.keys()[i] != self.keys()[j] by {
                    if i < before.keys().len() {
                        before.lemma_entry(i);
                    }
                    if j < before.keys().len() {
                        before.lemma_entry(j);
                    }
                }
            }
            assert(self.ids().no_duplicates()) by {
                assert forall|i: int, j: int|
                    0 <= i < self.ids().len() && 0 <= j < self.ids().len() && i
                        != j implies self.ids()[i] != self.ids()[j] by {
                    if i < before.ids().len() {
                        before.lemma_entry(i);
                    }
                    if j < before.ids().len() {
                        before.lemma_entry(j);
                    }
                }
            }
            let n = before.keys().len() as int;
            assert(self@ =~= before@.insert(name, snake_id)) by {
                assert forall|u: Seq<char>| #[trigger]
                    self@.contains_key(u) <==> before@.insert(name, snake_id).contains_key(
                        u,
                    ) by {
                    if self@.contains_key(u) {
                        let i = self.lemma_key(u);
                        if i < n {
                            before.lemma_entry(i);
                        }
                    }
                    if before@.contains_key(u) {
                        let i = before.lemma_key(u);
                        self.lemma_entry(i);
                    }
                    if u == name {
                        self.lemma_entry(n);
                    }
                }
                assert forall|u: Seq<char>| #[trigger] self@.contains_key(u) implies self@[u]
                    == before@.insert(name, snake_id)[u] by {
                    let i = self.lemma_key(u);
                    if i < n {
                        before.lemma_entry(i);
                    }
                }
            }
        }
        true
    }

    /// Drops the entry at index `i`.
    fn remove_at(&mut self, i: usize)
        requires
            old(self).wf(),
            i < old(self).entries@.len(),
        ensures
            final(self).wf(),
            final(self)@ == old(self)@.remove(old(self).keys()[i as int]),
    {
        let ghost before = *self;
        self.entries.remove(i);
        proof {
            let gone = before.keys()[i as int];
            assert(self.keys() =~= before.keys().remove(i as int));
            assert(self.ids() =~= before.ids().remove(i as int));
            assert(self@ =~= before@.remove(gone)) by {
                assert forall|u: Seq<char>| #[trigger]
                    self@.contains_key(u) <==> before@.remove(gone).contains_key(u) by {
                    if self@.contains_key(u) {
                        let k = self.lemma_key(u);
                        if k < i {
                            before.lemma_entry(k);
                        } else {
                            before.lemma_entry(k + 1);
                        }
                    }
                    if before@.contains_key(u) && u != gone {
                        let k = before.lemma_key(u);
                        if k < i {
                            self.lemma_entry(k);
                        } else {
                            self.lemma_entry(k - 1);
                        }
                    }
                }
                assert forall|u: Seq<char>| #[trigger] self@.contains_key(u) implies self@[u]
                    == before@.remove(gone)[u] by {
                    let k = self.lemma_key(u);
                    if k < i {
                        before.lemma_entry(k);
                    } else {
                        before.lemma_entry(k + 1);
                    }
                }
            }
        }
    }

    /// Drops the entry of `user`, if there is one.
    pub fn remove(&mut self, user: &String)
        requires
            old(self).wf(),
        ensures
            final(self).wf(),
            final(self)@ == old(self)@.remove(user@),
    {
        match self.position_of_user(user) {
            Some(i) => {
                self.remove_at(i);
            },
            None => {
                assert(self@ =~= old(self)@.remove(user@));
            },
        }
    }

    /// Drops every entry.
    pub fn clear(&mut self)
        ensures
            final(self).wf(),
            final(self)@ == Map::<Seq<char>, u8>::empty(),
    {
        self.entries.clear();
    }
}

/// Drops the registry entry of the snake `snake_id`, if it has an owner.
pub fn remove_player(snake_id: u8, player_snake_ids: &mut PlayerRegistry)
    requires
        old(player_snake_ids).wf(),
    ensures
        final(player_snake_ids).wf(),
        final(player_snake_ids)@ == without_id(old(player_snake_ids)@, snake_id),
{
    match player_snake_ids.position_of_id(snake_id) {
        Some(i) => {
            player_snake_ids.remove_at(i);
        },
        None => {},
    }
}

} // verus!
