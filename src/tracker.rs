//! The set of identity keys whose notification has been handled.
use vstd::prelude::*;

verus! {

/// Remembers, for the lifetime of the process, which identity keys have had
/// their notification handled. Entries are never evicted.
pub struct DedupTracker {
    keys: Vec<String>,
}

impl View for DedupTracker {
    type V = Set<Seq<char>>;

    closed spec fn view(&self) -> Set<Seq<char>> {
        Set::new(|k: Seq<char>| exists|i: int| 0 <= i < self.keys@.len() && self.keys@[i]@ == k)
    }
}

impl DedupTracker {
    /// A tracker that has seen nothing.
    pub fn new() -> (r: DedupTracker)
        ensures
            r@ == Set::<Seq<char>>::empty(),
    {
        let r = DedupTracker { keys: Vec::new() };
        assert(r@ =~= Set::<Seq<char>>::empty());
        r
    }

    /// Whether `key` has been recorded as handled.
    pub fn has_seen(&self, key: &String) -> (r: bool)
        ensures
            r == self@.contains(key@),
    {
        let n = self.keys.len();
        let mut i: usize = 0;
        while i < n
            invariant
                n == self.keys@.len(),
                i <= n,
                forall|j: int| 0 <= j < i ==> self.keys@[j]@ != key@,
            decreases n - i,
        {
            if self.keys[i] == *key {
                return true;
            }
            i += 1;
        }
        false
    }

    /// Whether an occurrence with identity `key` still needs a notification.
    /// This only asks: the key is recorded by `mark_seen`, once the
    /// notification has been handled.
    pub fn should_process(&self, key: &String) -> (r: bool)
        ensures
            r == !self@.contains(key@),
    {
        !self.has_seen(key)
    }

    /// Records `key` as handled.
    pub fn mark_seen(&mut self, key: String)
        ensures
            final(self)@ == old(self)@.insert(key@),
    {
        let ghost k0 = key@;
        if !self.has_seen(&key) {
            self.keys.push(key);
            assert(self.keys@[self.keys@.len() - 1]@ == k0);
        }
        assert(self@ =~= old(self)@.insert(k0)) by {
            assert forall|k: Seq<char>| #[trigger] old(self)@.insert(k0).contains(k) implies self@.contains(k) by {
                if k != k0 {
                    let i = choose|i: int| 0 <= i < old(self).keys@.len() && old(self).keys@[i]@ == k;
                    assert(self.keys@[i] == old(self).keys@[i]);
                }
            }
            assert forall|k: Seq<char>| #[trigger] self@.contains(k) implies old(self)@.insert(k0).contains(k) by {
                let i = choose|i: int| 0 <= i < self.keys@.len() && self.keys@[i]@ == k;
                if i < old(self).keys@.len() {
                    assert(self.keys@[i] == old(self).keys@[i]);
                }
            }
        }
    }
}

} // verus!
