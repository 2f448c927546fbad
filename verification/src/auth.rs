//! The user directory: authentication principals stored in the replicated
//! cluster document and consulted by the client protocol layer.

use vstd::prelude::*;

verus! {

use crate::tables::assoc_map;
use crate::tables::assoc_unique;
use crate::tables::lemma_assoc_absent;
use crate::tables::lemma_assoc_contains;
use crate::tables::lemma_assoc_get;
use crate::tables::lemma_assoc_push;
use crate::tables::lemma_assoc_remove;

/// One authentication principal.
#[derive(Debug)]
pub struct User {
    pub username: String,
    pub password: String,
    /// Optional key for password-less authentication.
    pub api_key: Option<String>,
}

/// A user as the specifications see it.
#[verifier::ext_equal]
pub ghost struct UserV {
    pub username: Seq<char>,
    pub password: Seq<char>,
    pub api_key: Option<Seq<char>>,
}

impl View for User {
    type V = UserV;

    open spec fn view(&self) -> UserV {
        UserV {
            username: self.username@,
            password: self.password@,
            api_key: match self.api_key {
                Some(k) => Some(k@),
                None => None,
            },
        }
    }
}

impl User {
    /// A structural copy.
    pub fn duplicate(&self) -> (r: Self)
        ensures
            r@ == self@,
    {
        let api_key: Option<String> = match &self.api_key {
            Some(k) => Some(k.clone()),
            None => None,
        };
        let r = User { username: self.username.clone(), password: self.password.clone(), api_key };
        proof {
            assert(r@ == self@);
        }
        r
    }
}

/// The user directory: a table of users with unique usernames.
#[derive(Debug)]
pub struct UserTable {
    pub users: Vec<User>,
}

impl View for UserTable {
    type V = Map<Seq<char>, UserV>;

    open spec fn view(&self) -> Map<Seq<char>, UserV> {
        assoc_map(self.repr())
    }
}

impl UserTable {
    /// The users keyed by username, as the specifications see them.
    pub open spec fn repr(&self) -> Seq<(Seq<char>, UserV)> {
        self.users@.map(|i: int, u: User| (u.username@, u@))
    }

    /// Unique usernames: the table denotes its map faithfully.
    pub open spec fn wf(&self) -> bool {
        assoc_unique(self.repr())
    }

    pub fn new() -> (r: Self)
        ensures
            r@ == Map::<Seq<char>, UserV>::empty(),
            r.wf(),
            r.repr() == Seq::<(Seq<char>, UserV)>::empty(),
    {
        let r = UserTable { users: Vec::new() };
        proof {
            assert(r.repr() =~= Seq::<(Seq<char>, UserV)>::empty());
        }
        r
    }

    /// The index of the user named `name`, if any.
    fn find(&self, name: &String) -> (r: Option<usize>)
        ensures
            match r {
                Some(i) => i < self.repr().len() && self.repr()[i as int].0 == name@,
                None => forall|i: int|
                    0 <= i < self.repr().len() ==> (#[trigger] self.repr()[i]).0 != name@,
            },
    {
        let mut i: usize = 0;
        while i < self.users.len()
            invariant
                i <= self.users@.len(),
                self.repr().len() == self.users@.len(),
                forall|j: int| 0 <= j < i ==> (#[trigger] self.repr()[j]).0 != name@,
            decreases self.users@.len() - i,
        {
            if self.users[i].username == *name {
                return Some(i);
            }
            i = i + 1;
        }
        None
    }

    /// Whether a user named `name` exists.
    pub fn user_exists(&self, name: &str) -> (r: bool)
        ensures
            r == self@.contains_key(name@),
    {
        proof {
            lemma_assoc_contains(self.repr(), name@);
        }
        let owned: String = name.to_owned();
        self.find(&owned).is_some()
    }

    /// Whether the directory holds no user at all.
    pub fn is_empty(&self) -> (r: bool)
        ensures
            r == (self.repr().len() == 0),
            r == (self@ == Map::<Seq<char>, UserV>::empty()),
    {
        proof {
            if self.repr().len() > 0 {
                lemma_assoc_contains(self.repr(), self.repr()[0].0);
                assert(self@ != Map::<Seq<char>, UserV>::empty());
            } else {
                assert(self@ =~= Map::<Seq<char>, UserV>::empty());
            }
        }
        self.users.len() == 0
    }

    /// Adds a user; refuses when the username is taken.
    pub fn add_user(&mut self, user: User) -> (r: bool)
        requires
            old(self).wf(),
        ensures
            final(self).wf(),
            r == !old(self)@.contains_key(user@.username),
            r ==> final(self)@ == old(self)@.insert(user@.username, user@),
            !r ==> *final(self) == *old(self),
    {
        proof {
            lemma_assoc_contains(self.repr(), user@.username);
        }
        match self.find(&user.username) {
            Some(i) => {
                proof {
                    lemma_assoc_get(self.repr(), i as int);
                }
                false
            },
            None => {
                proof {
                    lemma_assoc_absent(self.repr(), user@.username);
                    lemma_assoc_push(self.repr(), user@.username, user@);
                    let pushed = self.users@.push(user).map(|i: int, u: User| (u.username@, u@));
                    assert(pushed =~= self.repr().push((user@.username, user@)));
                    assert(forall|a: int, b: int|
                        0 <= a < b < pushed.len() ==> (#[trigger] pushed[a]).0
                            != (#[trigger] pushed[b]).0);
                }
                self.users.push(user);
                true
            },
        }
    }

    /// Removes the user named `name`; refuses when there is none.
    pub fn remove_user(&mut self, name: &str) -> (r: bool)
        requires
            old(self).wf(),
        ensures
            final(self).wf(),
            r == old(self)@.contains_key(name@),
            r ==> final(self)@ == old(self)@.remove(name@),
            !r ==> *final(self) == *old(self),
    {
        proof {
            lemma_assoc_contains(self.repr(), name@);
        }
        let owned: String = name.to_owned();
        match self.find(&owned) {
            Some(i) => {
                proof {
                    lemma_assoc_remove(self.repr(), i as int);
                    let removed = self.users@.remove(i as int).map(
                        |j: int, u: User| (u.username@, u@),
                    );
                    assert(removed =~= self.repr().remove(i as int));
                }
                self.users.remove(i);
                true
            },
            None => {
                proof {
                    lemma_assoc_absent(self.repr(), name@);
                }
                false
            },
        }
    }

    /// Checks `name`/`password` and hands back a copy of the user on success.
    pub fn authenticate(&self, name: &str, password: &str) -> (r: Option<User>)
        requires
            self.wf(),
        ensures
            match r {
                Some(u) => self@.contains_key(name@) && self@[name@].password == password@ && u@
                    == self@[name@],
                None => !self@.contains_key(name@) || self@[name@].password != password@,
            },
    {
        proof {
            lemma_assoc_contains(self.repr(), name@);
        }
        let owned: String = name.to_owned();
        match self.find(&owned) {
            Some(i) => {
                proof {
                    lemma_assoc_get(self.repr(), i as int);
                }
                let pass: String = password.to_owned();
                if self.users[i].password == pass {
                    Some(self.users[i].duplicate())
                } else {
                    None
                }
            },
            None => {
                proof {
                    lemma_assoc_absent(self.repr(), name@);
                }
                None
            },
        }
    }

    /// Hands back a copy of some user holding this API key, if any does.
    pub fn authenticate_with_api_key(&self, api_key: &str) -> (r: Option<User>)
        ensures
            match r {
                Some(u) => exists|i: int|
                    0 <= i < self.repr().len() && (#[trigger] self.repr()[i]).1.api_key == Some(
                        api_key@,
                    ) && u@ == self.repr()[i].1,
                None => forall|i: int|
                    0 <= i < self.repr().len() ==> (#[trigger] self.repr()[i]).1.api_key != Some(
                        api_key@,
                    ),
            },
    {
        let key: String = api_key.to_owned();
        let mut i: usize = 0;
        while i < self.users.len()
            invariant
                i <= self.users@.len(),
                self.repr().len() == self.users@.len(),
                key@ == api_key@,
                forall|j: int|
                    0 <= j < i ==> (#[trigger] self.repr()[j]).1.api_key != Some(api_key@),
            decreases self.users@.len() - i,
        {
            let hit: bool = match &self.users[i].api_key {
                Some(k) => *k == key,
                None => false,
            };
            if hit {
                proof {
                    assert((#[trigger] self.repr()[i as int]).1 == self.users@[i as int]@);
                    assert(self.repr()[i as int].1.api_key == Some(api_key@));
                }
                return Some(self.users[i].duplicate());
            }
            i = i + 1;
        }
        None
    }

    /// A structural copy.
    pub fn duplicate(&self) -> (r: Self)
        ensures
            r.repr() == self.repr(),
            r@ == self@,
            r.wf() == self.wf(),
    {
        let mut v: Vec<User> = Vec::new();
        let mut i: usize = 0;
        while i < self.users.len()
            invariant
                i <= self.users@.len(),
                v@.len() == i,
                forall|j: int| 0 <= j < i ==> (#[trigger] v@[j])@ == self.users@[j]@,
            decreases self.users@.len() - i,
        {
            v.push(self.users[i].duplicate());
            i = i + 1;
        }
        let r = UserTable { users: v };
        proof {
            assert(r.repr() =~= self.repr());
        }
        r
    }
}

} // verus!
