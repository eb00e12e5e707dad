//! The users the server has seen before: loaded from the database at start
//! and grown as new users log in.

use vstd::prelude::*;

verus! {

/// Names of the users known to the server, in the order they became known.
pub struct UserRegistry {
    names: Vec<String>,
}

impl View for UserRegistry {
    type V = Seq<Seq<char>>;

    closed spec fn view(&self) -> Seq<Seq<char>> {
        self.names@.map_values(|s: String| s@)
    }
}

impl UserRegistry {
    /// A registry holding `names`, such as the users stored in the database.
    pub fn from_names(names: Vec<String>) -> (res: UserRegistry)
        ensures
            res@ == names@.map_values(|s: String| s@),
    {
        UserRegistry { names }
    }

    /// Whether `name` has never been seen before.
    pub fn is_new_user(&self, name: &String) -> (res: bool)
        ensures
            res == !self@.contains(name@),
    {
        let mut i: usize = 0;
        while i < self.names.len()
            invariant
                i <= self.names@.len(),
                forall|k: int| 0 <= k < i ==> self@[k] != name@,
            decreases self.names@.len() - i,
        {
            if self.names[i] == *name {
                assert(self@[i as int] == name@);
                return false;
            }
            i = i + 1;
        }
        true
    }

    /// Records `name` as a known user.
    pub fn register(&mut self, name: String)
        ensures
            final(self)@ == old(self)@.push(name@),
    {
        self.names.push(name);
        assert(self@ =~= old(self)@.push(name@));
    }
}

impl UserRegistry {
    /// Decides how a user who logs in under `name` is greeted: `true` for a
    /// user never seen before, who is then recorded as known; `false` for a
    /// returning user, who is already known.
    pub fn welcome(&mut self, name: &String) -> (is_new: bool)
        ensures
            is_new == !old(self)@.contains(name@),
            final(self)@ == if is_new { old(self)@.push(name@) } else { old(self)@ },
            final(self)@.contains(name@),
    {
        let is_new = self.is_new_user(name);
        if is_new {
            self.register(name.clone());
            proof {
                law_registered_user_is_known(old(self)@, name@);
            }
        }
        is_new
    }
}

/// Once registered, a user is no longer new.
pub proof fn law_registered_user_is_known(known: Seq<Seq<char>>, name: Seq<char>)
    ensures
        known.push(name).contains(name),
        forall|other: Seq<char>| known.contains(other) ==> #[trigger] known.push(name).contains(other),
{
    assert(known.push(name)[known.len() as int] == name);
    assert forall|other: Seq<char>| known.contains(other) implies #[trigger] known.push(name).contains(other) by {
        let k = choose|k: int| 0 <= k < known.len() && known[k] == other;
        assert(known.push(name)[k] == other);
    }
}

} // verus!
