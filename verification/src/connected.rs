//! The set of users that currently hold a connection.

use crate::identity::{lemma_bytes_le_total, lemma_bytes_le_transitive, lemma_user_le_antisymmetric, user_le, user_le_exec};
use vstd::prelude::*;
use vstd::utf8::encode_utf8;

verus! {

/// `u` is a member of `users` that comes no later than any other member.
pub open spec fn is_least(users: Set<Seq<char>>, u: Seq<char>) -> bool {
    users.contains(u) && forall|x: Seq<char>| users.contains(x) ==> user_le(u, x)
}

/// The member of a non-empty set of users that sorts first.
pub open spec fn least_user(users: Set<Seq<char>>) -> Seq<char> {
    choose|u: Seq<char>| is_least(users, u)
}

/// A set of users has at most one least member.
pub proof fn lemma_least_unique(users: Set<Seq<char>>, u: Seq<char>, v: Seq<char>)
    requires
        is_least(users, u),
        is_least(users, v),
    ensures
        u == v,
{
    lemma_user_le_antisymmetric(u, v);
}

/// A member that comes no later than any other is the one `least_user`
/// names.
pub proof fn lemma_least_is_least_user(users: Set<Seq<char>>, u: Seq<char>)
    requires
        is_least(users, u),
    ensures
        least_user(users) == u,
{
    lemma_least_unique(users, u, least_user(users));
}

/// A finite set of users that is not empty has a least member.
pub proof fn lemma_has_least(users: Set<Seq<char>>)
    requires
        users.finite(),
        users.len() > 0,
    ensures
        is_least(users, least_user(users)),
    decreases users.len(),
{
    let x = users.choose();
    let rest = users.remove(x);
    if rest.len() == 0 {
        assert forall|y: Seq<char>| users.contains(y) implies user_le(x, y) by {
            if y != x {
                assert(rest.contains(y));
            }
            crate::identity::lemma_bytes_le_reflexive(encode_utf8(x));
        }
        assert(is_least(users, x));
    } else {
        lemma_has_least(rest);
        let m = least_user(rest);
        lemma_bytes_le_total(encode_utf8(x), encode_utf8(m));
        if user_le(x, m) {
            assert forall|y: Seq<char>| users.contains(y) implies user_le(x, y) by {
                if y != x {
                    lemma_bytes_le_transitive(encode_utf8(x), encode_utf8(m), encode_utf8(y));
                } else {
                    crate::identity::lemma_bytes_le_reflexive(encode_utf8(x));
                }
            }
            assert(is_least(users, x));
        } else {
            assert forall|y: Seq<char>| users.contains(y) implies user_le(m, y) by {
                if y != x {
                    assert(rest.contains(y));
                }
            }
            assert(is_least(users, m));
        }
    }
}

/// The identities that a list of strings holds, in the same order.
pub open spec fn user_names(users: Seq<String>) -> Seq<Seq<char>> {
    Seq::new(users.len(), |i: int| users[i]@)
}

/// The users that are connected, each held once.
#[derive(Debug)]
pub struct ConnectedUsers {
    users: Vec<String>,
}

impl View for ConnectedUsers {
    type V = Set<Seq<char>>;

    closed spec fn view(&self) -> Set<Seq<char>> {
        self.names().to_set()
    }
}

impl ConnectedUsers {
    /// The identities in storage order.
    closed spec fn names(&self) -> Seq<Seq<char>> {
        user_names(self.users@)
    }

    /// No user is held twice.
    pub closed spec fn wf(&self) -> bool {
        self.names().no_duplicates()
    }

    /// Creates the empty set.
    pub fn new() -> (r: ConnectedUsers)
        ensures
            r.wf(),
            r@ == Set::<Seq<char>>::empty(),
    {
        let r = ConnectedUsers { users: Vec::new() };
        r
    }

    /// Looks for a user in storage.
    fn position(&self, user: &String) -> (r: Option<usize>)
        ensures
            match r {
                Some(i) => i < self.users.len() && self.names()[i as int] == user@,
                None => !self@.contains(user@),
            },
    {
        let mut i: usize = 0;
        while i < self.users.len()
            invariant
                i <= self.users.len(),
                forall|k: int| 0 <= k < i ==> self.names()[k] != user@,
            decreases self.users.len() - i,
        {
            if self.users[i] == *user {
                return Some(i);
            }
            i += 1;
        }
        None
    }

    /// Tells whether `user` is connected.
    pub fn contains(&self, user: &String) -> (b: bool)
        ensures
            b == self@.contains(user@),
    {
        match self.position(user) {
            Some(i) => {
                true
            },
            None => false,
        }
    }

    /// Tells whether nobody is connected.
    pub fn is_empty(&self) -> (b: bool)
        ensures
            b == (self@ == Set::<Seq<char>>::empty()),
    {
        let b = self.users.len() == 0;
        proof {
            if b {
                assert(self@ =~= Set::<Seq<char>>::empty());
            } else {
                assert(self@.contains(self.names()[0]));
            }
        }
        b
    }

    /// Returns the number of connected users.
    pub fn len(&self) -> (n: usize)
        requires
            self.wf(),
        ensures
            self@.finite(),
            n == self@.len(),
    {
        proof {
            self.names().unique_seq_to_set();
            vstd::seq_lib::seq_to_set_is_finite(self.names());
        }
        self.users.len()
    }

    /// Records `user` as connected. Connecting twice changes nothing.
    pub fn insert(&mut self, user: String)
        requires
            old(self).wf(),
        ensures
            final(self).wf(),
            final(self)@ == old(self)@.insert(user@),
    {
        if self.position(&user).is_none() {
            let ghost before = self.names();
            self.users.push(user);
            assert(self.names() =~= before.push(user@));
            assert(self@ =~= old(self)@.insert(user@)) by {
                assert forall|u: Seq<char>| self@.contains(u) <==> old(self)@.insert(
                    user@,
                ).contains(u) by {
                    if self@.contains(u) {
                        let i = choose|i: int| 0 <= i < self.names().len() && self.names()[i] == u;
                        if i < before.len() {
                            assert(before[i] == u);
                        }
                    }
                    if old(self)@.contains(u) {
                        let i = choose|i: int| 0 <= i < before.len() && before[i] == u;
                        assert(self.names()[i] == u);
                    }
                    if u == user@ {
                        assert(self.names()[before.len() as int] == u);
                    }
                }
            }
        }
    }

    /// Forgets `user`. Removing a user that is not connected changes nothing.
    pub fn remove(&mut self, user: &String)
        requires
            old(self).wf(),
        ensures
            final(self).wf(),
            final(self)@ == old(self)@.remove(user@),
    {
        match self.position(user) {
            Some(i) => {
                let ghost before = self.names();
                self.users.remove(i);
                assert(self.names() =~= before.remove(i as int));
                assert(self@ =~= old(self)@.remove(user@)) by {
                    assert forall|u: Seq<char>| self@.contains(u) <==> old(self)@.remove(
                        user@,
                    ).contains(u) by {
                        if self@.contains(u) {
                            let k = choose|k: int|
                                0 <= k < self.names().len() && self.names()[k] == u;
                            if k < i {
                                assert(before[k] == u);
                            }
                        }
                        if old(self)@.contains(u) && u != user@ {
                            let k = choose|k: int| 0 <= k < before.len() && before[k] == u;
                            if k < i {
                                assert(self.names()[k] == u);
                            } else {
                                assert(self.names()[k - 1] == u);
                            }
                        }
                    }
                }
            },
            None => {
                assert(self@ =~= old(self)@.remove(user@));
            },
        }
    }

    /// Returns the connected user that sorts first, if anybody is connected.
    pub fn least(&self) -> (r: Option<String>)
        ensures
            match r {
                Some(u) => is_least(self@, u@) && u@ == least_user(self@),
                None => self@ == Set::<Seq<char>>::empty(),
            },
    {
        if self.users.len() == 0 {
            return None;
        }
        let mut best: usize = 0;
        let mut i: usize = 1;
        proof {
            crate::identity::lemma_bytes_le_reflexive(encode_utf8(self.names()[0]));
        }
        while i < self.users.len()
            invariant
                1 <= i <= self.users.len(),
                best < i,
                forall|k: int| 0 <= k < i ==> user_le(self.names()[best as int], self.names()[k]),
            decreases self.users.len() - i,
        {
            if !user_le_exec(&self.users[best], &self.users[i]) {
                proof {
                    let c = self.names()[i as int];
                    let b = self.names()[best as int];
                    lemma_bytes_le_total(encode_utf8(b), encode_utf8(c));
                    assert forall|k: int| 0 <= k < i + 1 implies user_le(c, self.names()[k]) by {
                        if k < i {
                            lemma_bytes_le_transitive(
                                encode_utf8(c),
                                encode_utf8(b),
                                encode_utf8(self.names()[k]),
                            );
                        } else {
                            crate::identity::lemma_bytes_le_reflexive(encode_utf8(c));
                        }
                    }
                }
                best = i;
            }
            i += 1;
        }
        let u = self.users[best].clone();
        proof {
            lemma_least_is_least_user(self@, u@);
        }
        Some(u)
    }
}

} // verus!
