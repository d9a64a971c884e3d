//! Per-user rate-limit bucket state: for one command, the time of each
//! user's last successful invocation. A bucket limits each user on their
//! own; one user's invocations never delay another's.

use vstd::prelude::*;

verus! {

/// The map denoted by an association list of (user, time); later entries win.
pub open spec fn user_map(s: Seq<(u64, u64)>) -> Map<u64, u64>
    decreases s.len(),
{
    if s.len() == 0 {
        Map::empty()
    } else {
        user_map(s.drop_last()).insert(s.last().0, s.last().1)
    }
}

/// No user occurs twice.
pub open spec fn unique_users(s: Seq<(u64, u64)>) -> bool {
    forall|i: int, j: int| 0 <= i < j < s.len() ==> (#[trigger] s[i].0) != (#[trigger] s[j].0)
}

/// A user is in the denoted map exactly when some entry carries it.
proof fn lemma_user_map_domain(s: Seq<(u64, u64)>, u: u64)
    ensures
        user_map(s).contains_key(u) <==> exists|i: int| 0 <= i < s.len() && (#[trigger] s[i].0)
            == u,
    decreases s.len(),
{
    if s.len() == 0 {
    } else {
        lemma_user_map_domain(s.drop_last(), u);
        if s.last().0 == u {
            assert(s[s.len() - 1].0 == u);
        } else if user_map(s).contains_key(u) {
            let i = choose|i: int| 0 <= i < s.drop_last().len() && (#[trigger] s.drop_last()[i].0)
                == u;
            assert(s[i].0 == u);
        } else {
            assert forall|i: int| 0 <= i < s.len() implies (#[trigger] s[i].0) != u by {
                if i < s.len() - 1 {
                    assert(s.drop_last()[i].0 == s[i].0);
                }
            }
        }
    }
}

/// Under unique users, each entry is in the denoted map with its own time.
proof fn lemma_user_map_index(s: Seq<(u64, u64)>, i: int)
    requires
        unique_users(s),
        0 <= i < s.len(),
    ensures
        user_map(s).contains_key(s[i].0),
        user_map(s)[s[i].0] == s[i].1,
    decreases s.len(),
{
    if i == s.len() - 1 {
    } else {
        let dl = s.drop_last();
        assert(unique_users(dl)) by {
            assert forall|a: int, b: int| 0 <= a < b < dl.len() implies (#[trigger] dl[a].0) != (
            #[trigger] dl[b].0) by {
                assert(s[a].0 != s[b].0);
            }
        }
        lemma_user_map_index(dl, i);
        assert(dl[i] == s[i]);
        assert(s[i].0 != s.last().0);
    }
}

/// Removing an entry removes exactly its user from the denoted map.
proof fn lemma_user_map_remove(s: Seq<(u64, u64)>, i: int)
    requires
        unique_users(s),
        0 <= i < s.len(),
    ensures
        user_map(s.remove(i)) == user_map(s).remove(s[i].0),
    decreases s.len(),
{
    let dl = s.drop_last();
    assert(unique_users(dl)) by {
        assert forall|a: int, b: int| 0 <= a < b < dl.len() implies (#[trigger] dl[a].0) != (
        #[trigger] dl[b].0) by {
            assert(s[a].0 != s[b].0);
        }
    }
    if i == s.len() - 1 {
        assert(s.remove(i) =~= dl);
        lemma_user_map_domain(dl, s[i].0);
        assert forall|j: int| 0 <= j < dl.len() implies (#[trigger] dl[j].0) != s[i].0 by {
            assert(s[j].0 != s[i].0);
        }
        assert(!user_map(dl).contains_key(s[i].0));
        assert(user_map(s.remove(i)) =~= user_map(s).remove(s[i].0));
    } else {
        assert(s.remove(i).drop_last() =~= dl.remove(i));
        assert(s.remove(i).last() == s.last());
        lemma_user_map_remove(dl, i);
        assert(dl[i] == s[i]);
        assert(s[i].0 != s.last().0);
        assert(user_map(s.remove(i)) =~= user_map(s).remove(s[i].0));
    }
}

/// One command's bucket: each user's last successful invocation time.
pub struct UserStamps {
    entries: Vec<(u64, u64)>,
}

impl View for UserStamps {
    type V = Map<u64, u64>;

    closed spec fn view(&self) -> Map<u64, u64> {
        user_map(self.entries@)
    }
}

impl UserStamps {
    /// Internal representation invariant: one entry per user.
    pub closed spec fn wf(&self) -> bool {
        unique_users(self.entries@)
    }

    /// A clear bucket: no user has invoked yet.
    pub fn new() -> (s: Self)
        ensures
            s.wf(),
            s@ == Map::<u64, u64>::empty(),
    {
        UserStamps { entries: Vec::new() }
    }

    /// Finds the position of the entry for `user`, if there is one.
    fn find(&self, user: u64) -> (r: Option<usize>)
        ensures
            match r {
                Some(i) => 0 <= i < self.entries@.len() && self.entries@[i as int].0 == user,
                None => forall|i: int|
                    0 <= i < self.entries@.len() ==> (#[trigger] self.entries@[i].0) != user,
            },
    {
        let n = self.entries.len();
        let mut i: usize = 0;
        while i < n
            invariant
                n == self.entries@.len(),
                0 <= i <= n,
                forall|j: int| 0 <= j < i ==> (#[trigger] self.entries@[j].0) != user,
            decreases n - i,
        {
            if self.entries[i].0 == user {
                return Some(i);
            }
            i += 1;
        }
        None
    }

    /// The time of this user's last successful invocation, if any.
    pub fn lookup(&self, user: u64) -> (r: Option<u64>)
        requires
            self.wf(),
        ensures
            match r {
                Some(t) => self@.contains_key(user) && t == self@[user],
                None => !self@.contains_key(user),
            },
    {
        match self.find(user) {
            Some(i) => {
                proof {
                    lemma_user_map_index(self.entries@, i as int);
                }
                Some(self.entries[i].1)
            },
            None => {
                proof {
                    lemma_user_map_domain(self.entries@, user);
                }
                None
            },
        }
    }

    /// Stamps this user's bucket with the time of a successful invocation.
    pub fn stamp(&mut self, user: u64, now: u64)
        requires
            old(self).wf(),
        ensures
            final(self).wf(),
            final(self)@ == old(self)@.insert(user, now),
    {
        let ghost pre = self.entries@;
        match self.find(user) {
            Some(i) => {
                let _ = self.entries.remove(i);
                proof {
                    lemma_user_map_remove(pre, i as int);
                    assert(unique_users(self.entries@)) by {
                        assert forall|a: int, b: int|
                            0 <= a < b < self.entries@.len() implies (
                        #[trigger] self.entries@[a].0) != (#[trigger] self.entries@[b].0) by {
                            let a0: int = if a < i { a } else { a + 1 };
                            let b0: int = if b < i { b } else { b + 1 };
                            assert(self.entries@[a] == pre[a0]);
                            assert(self.entries@[b] == pre[b0]);
                            assert(pre[a0].0 != pre[b0].0);
                        }
                    }
                }
                let ghost mid = self.entries@;
                self.entries.push((user, now));
                proof {
                    assert(self.entries@.drop_last() =~= mid);
                    assert forall|j: int| 0 <= j < mid.len() implies (#[trigger] mid[j].0)
                        != user by {
                        let j0: int = if j < i { j } else { j + 1 };
                        assert(mid[j] == pre[j0]);
                        if j0 != i {
                            assert(pre[j0].0 != pre[i as int].0);
                        }
                    }
                    assert(self@ =~= old(self)@.insert(user, now));
                }
            },
            None => {
                self.entries.push((user, now));
                proof {
                    assert(self.entries@.drop_last() =~= pre);
                }
            },
        }
    }
}

} // verus!
