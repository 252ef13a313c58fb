//! The registry of directory watches.
//!
//! One watch of the operating system serves every subscriber of a directory.
//! The registry counts the subscribers of each watched path and keeps the
//! handle of its watch: the first subscriber has the watch created, the last
//! one to leave takes it away.

use crate::text::same_text;
use vstd::prelude::*;
use vstd::string::*;

verus! {

/// A watched directory: the handle of its watch and how many want it.
pub struct WatchEntry<H> {
    pub path: String,
    pub handle: H,
    pub subscribers: usize,
}

/// The watches that are active, by directory path.
pub struct WatchRegistry<H> {
    entries: Vec<WatchEntry<H>>,
}

/// Why a subscription failed.
#[derive(Debug, Clone, Copy, PartialEq, Eq, Structural)]
pub enum WatchError {
    /// The operating system gave no watch for the directory.
    WatchUnavailable,
}

/// What a subscriber has to do after subscribing.
#[derive(Debug, Clone, Copy, PartialEq, Eq, Structural)]
pub enum Subscription {
    /// The directory was watched already; the subscriber shares its watch.
    Shared,
    /// The directory is not watched: the subscriber creates the watch and
    /// hands it to [`WatchRegistry::register_watch`].
    NeedsWatch,
}

/// The subscriber counts after one more subscription to `path`.
pub open spec fn subscribed(counts: Map<Seq<char>, nat>, path: Seq<char>) -> Map<Seq<char>, nat> {
    if counts.contains_key(path) {
        counts.insert(path, counts[path] + 1)
    } else {
        counts.insert(path, 1)
    }
}

/// The subscriber counts after one subscriber of `path` left: the last one
/// takes the entry away, and leaving an unwatched path changes nothing.
pub open spec fn unsubscribed(counts: Map<Seq<char>, nat>, path: Seq<char>) -> Map<
    Seq<char>,
    nat,
> {
    if !counts.contains_key(path) {
        counts
    } else if counts[path] <= 1 {
        counts.remove(path)
    } else {
        counts.insert(path, (counts[path] - 1) as nat)
    }
}

/// The subscriber counts after `n` subscriptions to `path`.
pub open spec fn subscribed_times(counts: Map<Seq<char>, nat>, path: Seq<char>, n: nat) -> Map<
    Seq<char>,
    nat,
>
    decreases n,
{
    if n == 0 {
        counts
    } else {
        subscribed(subscribed_times(counts, path, (n - 1) as nat), path)
    }
}

/// The subscriber counts after `n` subscribers of `path` left.
pub open spec fn unsubscribed_times(counts: Map<Seq<char>, nat>, path: Seq<char>, n: nat) -> Map<
    Seq<char>,
    nat,
>
    decreases n,
{
    if n == 0 {
        counts
    } else {
        unsubscribed(unsubscribed_times(counts, path, (n - 1) as nat), path)
    }
}

/// Subscriptions are counted: after `n` subscriptions to an unwatched path
/// and `k` departures, the path has one entry with `n - k` subscribers while
/// `k < n`, and none from the `n`-th departure on, however many follow.
pub proof fn lemma_subscriptions_are_counted(
    counts: Map<Seq<char>, nat>,
    path: Seq<char>,
    n: nat,
    k: nat,
)
    requires
        !counts.contains_key(path),
    ensures
        k < n ==> unsubscribed_times(subscribed_times(counts, path, n), path, k) == counts.insert(
            path,
            (n - k) as nat,
        ),
        k >= n ==> unsubscribed_times(subscribed_times(counts, path, n), path, k) == counts,
    decreases k,
{
    lemma_subscribed_times(counts, path, n);
    if k > 0 {
        lemma_subscriptions_are_counted(counts, path, n, (k - 1) as nat);
        let before = unsubscribed_times(subscribed_times(counts, path, n), path, (k - 1) as nat);
        let after = unsubscribed(before, path);
        if k - 1 < n {
            assert(before == counts.insert(path, (n - (k - 1)) as nat));
            if k < n {
                assert(after =~= counts.insert(path, (n - k) as nat));
            } else {
                assert(after =~= counts);
            }
        }
    }
}

/// After `n >= 1` subscriptions an unwatched path has `n` subscribers.
pub proof fn lemma_subscribed_times(counts: Map<Seq<char>, nat>, path: Seq<char>, n: nat)
    requires
        !counts.contains_key(path),
    ensures
        n == 0 ==> subscribed_times(counts, path, n) == counts,
        n > 0 ==> subscribed_times(counts, path, n) == counts.insert(path, n),
    decreases n,
{
    if n > 0 {
        lemma_subscribed_times(counts, path, (n - 1) as nat);
        if n > 1 {
            assert(subscribed_times(counts, path, n) =~= counts.insert(path, n));
        }
    }
}

/// Counting keeps every entry at one subscriber or more.
pub proof fn lemma_counts_stay_positive(counts: Map<Seq<char>, nat>, path: Seq<char>)
    requires
        forall|p: Seq<char>| counts.contains_key(p) ==> #[trigger] counts[p] >= 1,
    ensures
        forall|p: Seq<char>|
            subscribed(counts, path).contains_key(p) ==> #[trigger] subscribed(counts, path)[p]
                >= 1,
        forall|p: Seq<char>|
            unsubscribed(counts, path).contains_key(p) ==> #[trigger] unsubscribed(
                counts,
                path,
            )[p] >= 1,
        unsubscribed(subscribed(counts, path), path) == counts,
{
    assert(unsubscribed(subscribed(counts, path), path) =~= counts);
}

impl<H> WatchRegistry<H> {
    /// The subscriber count of each watched path.
    pub closed spec fn counts(&self) -> Map<Seq<char>, nat> {
        Map::new(
            |p: Seq<char>| exists|i: int| 0 <= i < self.entries@.len() && self.entries@[i].path@ == p,
            |p: Seq<char>|
                self.entries@[choose|i: int|
                    0 <= i < self.entries@.len() && self.entries@[i].path@ == p].subscribers as nat,
        )
    }

    /// The watch handle of each watched path.
    pub closed spec fn handles(&self) -> Map<Seq<char>, H> {
        Map::new(
            |p: Seq<char>| exists|i: int| 0 <= i < self.entries@.len() && self.entries@[i].path@ == p,
            |p: Seq<char>|
                self.entries@[choose|i: int|
                    0 <= i < self.entries@.len() && self.entries@[i].path@ == p].handle,
        )
    }

    /// No path has two entries, and every entry has a subscriber.
    pub closed spec fn wf(&self) -> bool {
        &&& forall|i: int, j: int|
            0 <= i < j < self.entries@.len() ==> self.entries@[i].path@ != self.entries@[j].path@
        &&& forall|i: int| 0 <= i < self.entries@.len() ==> self.entries@[i].subscribers >= 1
    }

    /// While the registry is well formed, every watched path has at least one
    /// subscriber, and the paths with a count are those with a handle.
    pub proof fn lemma_entries_have_subscribers(&self)
        requires
            self.wf(),
        ensures
            forall|p: Seq<char>| self.counts().contains_key(p) ==> #[trigger] self.counts()[p] >= 1,
            self.counts().dom() == self.handles().dom(),
    {
        assert(self.counts().dom() =~= self.handles().dom());
    }

    proof fn lemma_entry(&self, i: int)
        requires
            self.wf(),
            0 <= i < self.entries@.len(),
        ensures
            self.counts().contains_key(self.entries@[i].path@),
            self.counts()[self.entries@[i].path@] == self.entries@[i].subscribers,
            self.handles().contains_key(self.entries@[i].path@),
            self.handles()[self.entries@[i].path@] == self.entries@[i].handle,
    {
        let p = self.entries@[i].path@;
        let j = choose|j: int| 0 <= j < self.entries@.len() && self.entries@[j].path@ == p;
        assert(j == i);
    }

    /// A registry without watches.
    pub fn new() -> (registry: Self)
        ensures
            registry.wf(),
            registry.counts() == Map::<Seq<char>, nat>::empty(),
            registry.handles() == Map::<Seq<char>, H>::empty(),
    {
        let registry = WatchRegistry { entries: Vec::new() };
        assert(registry.counts() =~= Map::<Seq<char>, nat>::empty());
        assert(registry.handles() =~= Map::<Seq<char>, H>::empty());
        registry
    }

    /// The position of the entry of `path`.
    fn find(&self, path: &str) -> (at: Option<usize>)
        ensures
            match at {
                Some(i) => i < self.entries@.len() && self.entries@[i as int].path@ == path@,
                None => forall|i: int|
                    0 <= i < self.entries@.len() ==> self.entries@[i].path@ != path@,
            },
    {
        let mut i: usize = 0;
        while i < self.entries.len()
            invariant
                i <= self.entries@.len(),
                forall|k: int| 0 <= k < i ==> self.entries@[k].path@ != path@,
            decreases self.entries@.len() - i,
        {
            if same_text(self.entries[i].path.as_str(), path) {
                return Some(i);
            }
            i = i + 1;
        }
        None
    }

    /// The number of watches that are active.
    pub fn watch_count(&self) -> (n: usize)
        requires
            self.wf(),
        ensures
            n == self.counts().dom().len(),
            self.counts().dom().finite(),
    {
        proof {
            self.lemma_dom_len(self.entries@.len() as nat);
            assert(self.dom_upto(self.entries@.len() as nat) =~= self.counts().dom());
        }
        self.entries.len()
    }

    /// The paths of the first `n` entries.
    closed spec fn dom_upto(&self, n: nat) -> Set<Seq<char>>
        decreases n,
    {
        if n == 0 {
            Set::empty()
        } else {
            self.dom_upto((n - 1) as nat).insert(self.entries@[n - 1].path@)
        }
    }

    proof fn lemma_dom_len(&self, n: nat)
        requires
            self.wf(),
            n <= self.entries@.len(),
        ensures
            self.dom_upto(n).finite(),
            self.dom_upto(n).len() == n,
            forall|p: Seq<char>|
                self.dom_upto(n).contains(p) <==> exists|i: int|
                    0 <= i < n && self.entries@[i].path@ == p,
        decreases n,
    {
        if n > 0 {
            self.lemma_dom_len((n - 1) as nat);
            let p = self.entries@[n - 1].path@;
            if self.dom_upto((n - 1) as nat).contains(p) {
                let i = choose|i: int| 0 <= i < n - 1 && self.entries@[i].path@ == p;
                assert(false);
            }
            assert forall|q: Seq<char>| self.dom_upto(n).contains(q) implies exists|i: int|
                0 <= i < n && self.entries@[i].path@ == q by {
                if q == p {
                    assert(self.entries@[n - 1].path@ == q);
                } else {
                    let i = choose|i: int| 0 <= i < n - 1 && self.entries@[i].path@ == q;
                    assert(self.entries@[i].path@ == q);
                }
            }
        }
    }

    /// How many subscribers `path` has; none where it is not watched.
    pub fn subscriber_count(&self, path: &str) -> (n: usize)
        requires
            self.wf(),
        ensures
            self.counts().contains_key(path@) ==> n == self.counts()[path@] && n >= 1,
            !self.counts().contains_key(path@) ==> n == 0,
    {
        match self.find(path) {
            Some(i) => {
                proof {
                    self.lemma_entry(i as int);
                }
                self.entries[i].subscribers
            },
            None => 0,
        }
    }

    /// Counts one more subscriber for the entry at `i`.
    fn add_subscriber(&mut self, i: usize)
        requires
            old(self).wf(),
            i < old(self).entries@.len(),
            old(self).entries@[i as int].subscribers < usize::MAX,
        ensures
            final(self).wf(),
            final(self).handles() == old(self).handles(),
            final(self).counts() == subscribed(
                old(self).counts(),
                old(self).entries@[i as int].path@,
            ),
    {
        let ghost before = self.entries@;
        let ghost path = self.entries@[i as int].path@;
        let count = self.entries[i].subscribers;
        self.entries[i].subscribers = count + 1;
        proof {
            old(self).lemma_entry(i as int);
            assert(forall|k: int|
                0 <= k < before.len() ==> self.entries@[k].path == before[k].path
                    && self.entries@[k].handle == before[k].handle);
            assert(forall|k: int|
                0 <= k < before.len() && k != i ==> self.entries@[k] == before[k]);
            assert(self.wf());
            assert forall|p: Seq<char>| #[trigger] self.counts().contains_key(p) implies
                self.counts()[p] == subscribed(old(self).counts(), path)[p] && self.handles()[p]
                == old(self).handles()[p] by {
                let j = choose|j: int| 0 <= j < self.entries@.len() && self.entries@[j].path@ == p;
                self.lemma_entry(j);
                old(self).lemma_entry(j);
            }
            assert(self.counts() =~= subscribed(old(self).counts(), path));
            assert(self.handles() =~= old(self).handles());
        }
    }

    /// Subscribes to the directory `dir_path`. Where it is watched already
    /// the subscriber is counted and shares the watch; where it is not, the
    /// registry stays as it is until the subscriber has created the watch.
    pub fn subscribe_directory(&mut self, dir_path: &str) -> (subscription: Subscription)
        requires
            old(self).wf(),
            old(self).counts().contains_key(dir_path@) ==> old(self).counts()[dir_path@]
                < usize::MAX,
        ensures
            final(self).wf(),
            final(self).handles() == old(self).handles(),
            old(self).counts().contains_key(dir_path@) ==> subscription == Subscription::Shared
                && final(self).counts() == subscribed(old(self).counts(), dir_path@),
            !old(self).counts().contains_key(dir_path@) ==> subscription
                == Subscription::NeedsWatch && final(self).counts() == old(self).counts(),
    {
        match self.find(dir_path) {
            Some(i) => {
                proof {
                    self.lemma_entry(i as int);
                }
                self.add_subscriber(i);
                Subscription::Shared
            },
            None => Subscription::NeedsWatch,
        }
    }

    /// Takes the watch that a subscriber created for `dir_path` and counts
    /// the subscriber. Where the path got a watch in the meantime the
    /// subscriber shares that one, and the watch handed in comes back to be
    /// dropped.
    pub fn register_watch(&mut self, dir_path: String, handle: H) -> (surplus: Option<H>)
        requires
            old(self).wf(),
            old(self).counts().contains_key(dir_path@) ==> old(self).counts()[dir_path@]
                < usize::MAX,
        ensures
            final(self).wf(),
            final(self).counts() == subscribed(old(self).counts(), dir_path@),
            old(self).counts().contains_key(dir_path@) ==> surplus == Some(handle)
                && final(self).handles() == old(self).handles(),
            !old(self).counts().contains_key(dir_path@) ==> surplus.is_none()
                && final(self).handles() == old(self).handles().insert(dir_path@, handle),
    {
        match self.find(dir_path.as_str()) {
            Some(i) => {
                proof {
                    self.lemma_entry(i as int);
                }
                self.add_subscriber(i);
                Some(handle)
            },
            None => {
                let ghost key = dir_path@;
                self.entries.push(WatchEntry { path: dir_path, handle, subscribers: 1 });
                proof {
                    let last = self.entries@.len() - 1;
                    assert(forall|k: int|
                        0 <= k < last ==> self.entries@[k] == old(self).entries@[k]);
                    assert(self.wf());
                    self.lemma_entry(last);
                    assert forall|p: Seq<char>| #[trigger]
                        self.counts().contains_key(p) implies self.counts()[p] == subscribed(
                        old(self).counts(),
                        key,
                    )[p] && self.handles()[p] == old(self).handles().insert(key, handle)[p] by {
                        let j = choose|j: int|
                            0 <= j < self.entries@.len() && self.entries@[j].path@ == p;
                        self.lemma_entry(j);
                        if j < last {
                            old(self).lemma_entry(j);
                        }
                    }
                    assert forall|p: Seq<char>|
                        old(self).counts().contains_key(p) implies self.counts().contains_key(
                        p,
                    ) by {
                        let j = choose|j: int|
                            0 <= j < old(self).entries@.len() && old(self).entries@[j].path@ == p;
                        assert(self.entries@[j].path@ == p);
                    }
                    assert(self.counts() =~= subscribed(old(self).counts(), key));
                    assert(self.handles() =~= old(self).handles().insert(key, handle));
                }
                None
            },
        }
    }

    /// Ends a subscription that needed a watch, with what creating the watch
    /// gave. Where no watch could be created the subscription fails and the
    /// registry stays as it was: the path gets no entry. Where one was
    /// created it is registered as by [`WatchRegistry::register_watch`].
    pub fn complete_subscription(&mut self, dir_path: String, created: Option<H>) -> (result:
        Result<Option<H>, WatchError>)
        requires
            old(self).wf(),
            old(self).counts().contains_key(dir_path@) ==> old(self).counts()[dir_path@]
                < usize::MAX,
        ensures
            final(self).wf(),
            match created {
                None => result == Err::<Option<H>, WatchError>(WatchError::WatchUnavailable)
                    && final(self).counts() == old(self).counts() && final(self).handles()
                    == old(self).handles(),
                Some(handle) => final(self).counts() == subscribed(old(self).counts(), dir_path@)
                    && if old(self).counts().contains_key(dir_path@) {
                    result == Ok::<Option<H>, WatchError>(Some(handle)) && final(self).handles()
                        == old(self).handles()
                } else {
                    result == Ok::<Option<H>, WatchError>(None) && final(self).handles() == old(self).handles().insert(dir_path@, handle)
                },
            },
    {
        match created {
            None => Err(WatchError::WatchUnavailable),
            Some(handle) => Ok(self.register_watch(dir_path, handle)),
        }
    }

    /// Takes one subscriber of `dir_path` away. The last one to leave takes
    /// the entry with it, and the handle of the watch comes back to be
    /// dropped. Leaving a path that is not watched changes nothing.
    pub fn unsubscribe_directory(&mut self, dir_path: &str) -> (released: Option<H>)
        requires
            old(self).wf(),
        ensures
            final(self).wf(),
            final(self).counts() == unsubscribed(old(self).counts(), dir_path@),
            released.is_some() <==> old(self).counts().contains_key(dir_path@) && old(self).counts()[dir_path@] == 1,
            released.is_some() ==> released == Some(old(self).handles()[dir_path@])
                && final(self).handles() == old(self).handles().remove(dir_path@),
            released.is_none() ==> final(self).handles() == old(self).handles(),
    {
        match self.find(dir_path) {
            None => None,
            Some(i) => {
                proof {
                    self.lemma_entry(i as int);
                }
                let ghost before = self.entries@;
                let count = self.entries[i].subscribers;
                if count > 1 {
                    self.entries[i].subscribers = count - 1;
                    proof {
                        assert(forall|k: int|
                            0 <= k < before.len() ==> self.entries@[k].path == before[k].path
                                && self.entries@[k].handle == before[k].handle);
                        assert(forall|k: int|
                            0 <= k < before.len() && k != i ==> self.entries@[k] == before[k]);
                        assert(self.wf());
                        assert forall|p: Seq<char>| #[trigger]
                            self.counts().contains_key(p) implies self.counts()[p] == unsubscribed(
                            old(self).counts(),
                            dir_path@,
                        )[p] && self.handles()[p] == old(self).handles()[p] by {
                            let j = choose|j: int|
                                0 <= j < self.entries@.len() && self.entries@[j].path@ == p;
                            self.lemma_entry(j);
                            old(self).lemma_entry(j);
                        }
                        assert(self.counts() =~= unsubscribed(old(self).counts(), dir_path@));
                        assert(self.handles() =~= old(self).handles());
                    }
                    None
                } else {
                    let entry = self.entries.remove(i);
                    proof {
                        assert(forall|k: int|
                            0 <= k < i ==> self.entries@[k] == before[k]);
                        assert(forall|k: int|
                            i <= k < self.entries@.len() ==> self.entries@[k] == before[k + 1]);
                        assert(self.wf());
                        assert forall|p: Seq<char>| #[trigger]
                            self.counts().contains_key(p) implies p != dir_path@
                            && old(self).counts().contains_key(p) && self.counts()[p] == old(self).counts()[p] && self.handles()[p] == old(self).handles()[p] by {
                            let j = choose|j: int|
                                0 <= j < self.entries@.len() && self.entries@[j].path@ == p;
                            self.lemma_entry(j);
                            if j < i {
                                old(self).lemma_entry(j);
                            } else {
                                old(self).lemma_entry(j + 1);
                            }
                        }
                        assert forall|p: Seq<char>|
                            old(self).counts().contains_key(p) && p
                                != dir_path@ implies self.counts().contains_key(p) by {
                            let j = choose|j: int|
                                0 <= j < before.len() && before[j].path@ == p;
                            if j < i {
                                assert(self.entries@[j].path@ == p);
                            } else {
                                assert(self.entries@[j - 1].path@ == p);
                            }
                        }
                        assert(self.counts() =~= unsubscribed(old(self).counts(), dir_path@));
                        assert(self.handles() =~= old(self).handles().remove(dir_path@));
                    }
                    Some(entry.handle)
                }
            },
        }
    }
}

} // verus!
