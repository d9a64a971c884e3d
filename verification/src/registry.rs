//! Reaction-trigger registry: a mapping from (message id, user id) to a
//! one-shot trigger, fired when a matching reaction event arrives.
//!
//! Registering for a key that is already present overwrites the earlier
//! trigger (last write wins), so at most one trigger exists per key.

use vstd::prelude::*;

verus! {

/// The key a trigger listens on: a reaction by this user on this message.
#[derive(Clone, Copy, PartialEq, Eq, Structural, Debug)]
pub struct TriggerKey {
    pub message_id: u64,
    pub user_id: u64,
}

/// Whether a fired trigger stays registered for further matching events.
#[derive(Clone, Copy, PartialEq, Eq, Structural, Debug)]
pub enum ListenDecision {
    StopListening,
    KeepListening,
}

/// A registered trigger: a plain action value for the caller to perform on
/// a matching reaction, and whether to keep listening afterwards.
pub struct ReactionTrigger<C> {
    pub action: C,
    pub after: ListenDecision,
}

/// The map denoted by an association list; later entries win.
pub open spec fn entries_map<C>(s: Seq<(TriggerKey, ReactionTrigger<C>)>) -> Map<
    TriggerKey,
    ReactionTrigger<C>,
>
    decreases s.len(),
{
    if s.len() == 0 {
        Map::empty()
    } else {
        entries_map(s.drop_last()).insert(s.last().0, s.last().1)
    }
}

/// No key occurs twice.
pub open spec fn unique_keys<C>(s: Seq<(TriggerKey, ReactionTrigger<C>)>) -> bool {
    forall|i: int, j: int| 0 <= i < j < s.len() ==> (#[trigger] s[i].0) != (#[trigger] s[j].0)
}

/// A key is in the denoted map exactly when some entry carries it.
proof fn lemma_entries_map_domain<C>(s: Seq<(TriggerKey, ReactionTrigger<C>)>, k: TriggerKey)
    ensures
        entries_map(s).contains_key(k) <==> exists|i: int|
            0 <= i < s.len() && (#[trigger] s[i].0) == k,
    decreases s.len(),
{
    if s.len() == 0 {
    } else {
        lemma_entries_map_domain(s.drop_last(), k);
        if s.last().0 == k {
            assert(s[s.len() - 1].0 == k);
        } else if entries_map(s).contains_key(k) {
            let i = choose|i: int| 0 <= i < s.drop_last().len() && (#[trigger] s.drop_last()[i].0)
                == k;
            assert(s[i].0 == k);
        } else {
            assert forall|i: int| 0 <= i < s.len() implies (#[trigger] s[i].0) != k by {
                if i < s.len() - 1 {
                    assert(s.drop_last()[i].0 == s[i].0);
                }
            }
        }
    }
}

/// Under unique keys, each entry is in the denoted map with its own value.
proof fn lemma_entries_map_index<C>(s: Seq<(TriggerKey, ReactionTrigger<C>)>, i: int)
    requires
        unique_keys(s),
        0 <= i < s.len(),
    ensures
        entries_map(s).contains_key(s[i].0),
        entries_map(s)[s[i].0] == s[i].1,
    decreases s.len(),
{
    if i == s.len() - 1 {
    } else {
        let dl = s.drop_last();
        assert(unique_keys(dl)) by {
            assert forall|a: int, b: int| 0 <= a < b < dl.len() implies (#[trigger] dl[a].0) != (
            #[trigger] dl[b].0) by {
                assert(s[a].0 != s[b].0);
            }
        }
        lemma_entries_map_index(dl, i);
        assert(dl[i] == s[i]);
        assert(s[i].0 != s.last().0);
    }
}

/// Removing an entry removes exactly its key from the denoted map.
proof fn lemma_entries_map_remove<C>(s: Seq<(TriggerKey, ReactionTrigger<C>)>, i: int)
    requires
        unique_keys(s),
        0 <= i < s.len(),
    ensures
        entries_map(s.remove(i)) == entries_map(s).remove(s[i].0),
    decreases s.len(),
{
    let dl = s.drop_last();
    assert(unique_keys(dl)) by {
        assert forall|a: int, b: int| 0 <= a < b < dl.len() implies (#[trigger] dl[a].0) != (
        #[trigger] dl[b].0) by {
            assert(s[a].0 != s[b].0);
        }
    }
    if i == s.len() - 1 {
        assert(s.remove(i) =~= dl);
        lemma_entries_map_domain(dl, s[i].0);
        assert forall|j: int| 0 <= j < dl.len() implies (#[trigger] dl[j].0) != s[i].0 by {
            assert(s[j].0 != s[i].0);
        }
        assert(!entries_map(dl).contains_key(s[i].0));
        assert(entries_map(s.remove(i)) =~= entries_map(s).remove(s[i].0));
    } else {
        assert(s.remove(i).drop_last() =~= dl.remove(i));
        assert(s.remove(i).last() == s.last());
        lemma_entries_map_remove(dl, i);
        assert(dl[i] == s[i]);
        assert(s[i].0 != s.last().0);
        assert(entries_map(s.remove(i)) =~= entries_map(s).remove(s[i].0));
    }
}

/// The registry of pending reaction triggers.
pub struct ReactionRegistry<C> {
    entries: Vec<(TriggerKey, ReactionTrigger<C>)>,
}

impl<C> ReactionRegistry<C> {
    /// The registered triggers, as a map from key to trigger.
    pub closed spec fn triggers(&self) -> Map<TriggerKey, ReactionTrigger<C>> {
        entries_map(self.entries@)
    }

    /// Internal representation invariant: one entry per key.
    pub closed spec fn wf(&self) -> bool {
        unique_keys(self.entries@)
    }

    /// An empty registry.
    pub fn new() -> (r: Self)
        ensures
            r.wf(),
            r.triggers() == Map::<TriggerKey, ReactionTrigger<C>>::empty(),
    {
        ReactionRegistry { entries: Vec::new() }
    }

    /// Finds the position of the entry for `key`, if one is registered.
    fn find_key(&self, key: TriggerKey) -> (r: Option<usize>)
        ensures
            match r {
                Some(i) => 0 <= i < self.entries@.len() && self.entries@[i as int].0 == key,
                None => forall|i: int|
                    0 <= i < self.entries@.len() ==> (#[trigger] self.entries@[i].0) != key,
            },
    {
        let n = self.entries.len();
        let mut i: usize = 0;
        while i < n
            invariant
                n == self.entries@.len(),
                0 <= i <= n,
                forall|j: int| 0 <= j < i ==> (#[trigger] self.entries@[j].0) != key,
            decreases n - i,
        {
            let k = self.entries[i].0;
            if k.message_id == key.message_id && k.user_id == key.user_id {
                return Some(i);
            }
            i += 1;
        }
        None
    }

    /// Installs, or overwrites, the trigger for `key` (last write wins).
    pub fn register(&mut self, key: TriggerKey, trigger: ReactionTrigger<C>)
        requires
            old(self).wf(),
        ensures
            final(self).wf(),
            final(self).triggers() == old(self).triggers().insert(key, trigger),
    {
        let ghost pre = self.entries@;
        match self.find_key(key) {
            Some(i) => {
                let _ = self.entries.remove(i);
                proof {
                    lemma_entries_map_remove(pre, i as int);
                    assert(unique_keys(self.entries@)) by {
                        assert forall|a: int, b: int|
                            0 <= a < b < self.entries@.len() implies (
                        #[trigger] self.entries@[a].0) != (#[trigger] self.entries@[b].0) by {
                            let a0: int = if a < i { a } else { a + 1 };
                            let b0: int = if b < i { b } else { b + 1 };
                            assert(self.entries@[a] == pre[a0]);
                            assert(self.entries@[b] == pre[b0]);
                            assert(pre[a0].0 != pre[b0].0);
                        }
                    }
                }
                let ghost mid = self.entries@;
                self.entries.push((key, trigger));
                proof {
                    assert(self.entries@.drop_last() =~= mid);
                    assert forall|j: int| 0 <= j < mid.len() implies (#[trigger] mid[j].0)
                        != key by {
                        let j0: int = if j < i { j } else { j + 1 };
                        assert(mid[j] == pre[j0]);
                        if j0 != i {
                            assert(pre[j0].0 != pre[i as int].0);
                        }
                    }
                    assert(self.triggers() =~= old(self).triggers().insert(key, trigger));
                }
            },
            None => {
                self.entries.push((key, trigger));
                proof {
                    assert(self.entries@.drop_last() =~= pre);
                }
            },
        }
    }

    /// Removes and returns the trigger registered for a reaction by
    /// `user_id` on `message_id`; `None` when no trigger matches, in which
    /// case the event is ignored and nothing changes.
    pub fn take(&mut self, message_id: u64, user_id: u64) -> (r: Option<ReactionTrigger<C>>)
        requires
            old(self).wf(),
        ensures
            final(self).wf(),
            ({
                let key = TriggerKey { message_id, user_id };
                match r {
                    Some(t) => {
                        &&& old(self).triggers().contains_key(key)
                        &&& t == old(self).triggers()[key]
                        &&& final(self).triggers() == old(self).triggers().remove(key)
                    },
                    None => {
                        &&& !old(self).triggers().contains_key(key)
                        &&& final(self).triggers() == old(self).triggers()
                    },
                }
            }),
    {
        let key = TriggerKey { message_id, user_id };
        let ghost pre = self.entries@;
        match self.find_key(key) {
            Some(i) => {
                let (_, t) = self.entries.remove(i);
                proof {
                    lemma_entries_map_index(pre, i as int);
                    lemma_entries_map_remove(pre, i as int);
                    assert(unique_keys(self.entries@)) by {
                        assert forall|a: int, b: int|
                            0 <= a < b < self.entries@.len() implies (
                        #[trigger] self.entries@[a].0) != (#[trigger] self.entries@[b].0) by {
                            let a0: int = if a < i { a } else { a + 1 };
                            let b0: int = if b < i { b } else { b + 1 };
                            assert(self.entries@[a] == pre[a0]);
                            assert(self.entries@[b] == pre[b0]);
                            assert(pre[a0].0 != pre[b0].0);
                        }
                    }
                }
                Some(t)
            },
            None => {
                proof {
                    lemma_entries_map_domain(pre, key);
                }
                None
            },
        }
    }
}

/// Registering a trigger for a key and then receiving a matching reaction
/// fires exactly that trigger (`take` returns it), and for a one-shot
/// trigger the entry is then gone, so a second matching event is a no-op
/// (`take` returns `None`): the callback runs exactly once.
pub proof fn lemma_trigger_fires_exactly_once<C>(
    m: Map<TriggerKey, ReactionTrigger<C>>,
    key: TriggerKey,
    t: ReactionTrigger<C>,
)
    ensures
        m.insert(key, t).contains_key(key),
        m.insert(key, t)[key] == t,
        !m.insert(key, t).remove(key).contains_key(key),
{
}

} // verus!
