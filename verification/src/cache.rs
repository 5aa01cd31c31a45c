//! The result cache: a memo table from request keys to resolved payloads.
//!
//! Entries are written on the first successful resolution of a key and
//! live for the life of the service; there is no eviction.  First-write
//! semantics make concurrent fills of the same key harmless: whichever
//! worker fills first wins, and every later lookup sees that payload.

use vstd::prelude::*;

verus! {

/// What a fill does to the cache's model: nothing when the key is already
/// present (first-write semantics), an insertion otherwise.
pub open spec fn spec_put(
    m: Map<Seq<char>, Seq<char>>,
    key: Seq<char>,
    payload: Seq<char>,
) -> Map<Seq<char>, Seq<char>> {
    if m.contains_key(key) {
        m
    } else {
        m.insert(key, payload)
    }
}

struct Entry {
    key: String,
    payload: String,
}

/// Memo table from request key to resolved payload.
///
/// Modelled as a map from key to payload; the representation keeps at
/// most one entry per key.
pub struct Cache {
    entries: Vec<Entry>,
}

impl Cache {
    /// The map this cache holds.
    pub closed spec fn view(self) -> Map<Seq<char>, Seq<char>> {
        Map::new(
            |k: Seq<char>| exists|i: int| #![auto] 0 <= i < self.entries@.len()
                && self.entries@[i].key@ == k,
            |k: Seq<char>| {
                let i = choose|i: int| #![auto] 0 <= i < self.entries@.len()
                    && self.entries@[i].key@ == k;
                self.entries@[i].payload@
            },
        )
    }

    /// At most one stored entry per key, so the map view is unambiguous.
    pub closed spec fn wf(self) -> bool {
        forall|i: int, j: int| #![auto] 0 <= i < j < self.entries@.len()
            ==> self.entries@[i].key@ != self.entries@[j].key@
    }

    proof fn lemma_view_at(self, i: int)
        requires
            self.wf(),
            0 <= i < self.entries@.len(),
        ensures
            self@.contains_key(self.entries@[i].key@),
            self@[self.entries@[i].key@] == self.entries@[i].payload@,
    {
        let k = self.entries@[i].key@;
        assert(self@.contains_key(k));
        let w = choose|w: int| #![auto] 0 <= w < self.entries@.len()
            && self.entries@[w].key@ == k;
        assert(w == i);
    }

    pub fn new() -> (c: Cache)
        ensures
            c.wf(),
            c@ == Map::<Seq<char>, Seq<char>>::empty(),
    {
        let c = Cache { entries: Vec::new() };
        proof {
            assert(c@ =~= Map::<Seq<char>, Seq<char>>::empty());
        }
        c
    }

    /// Looks the key up: returns the memoised payload exactly when the
    /// key has been filled before, and nothing otherwise.
    pub fn get(&self, key: &String) -> (r: Option<String>)
        requires
            self.wf(),
        ensures
            match r {
                Some(p) => self@.contains_key(key@) && p@ == self@[key@],
                None => !self@.contains_key(key@),
            },
    {
        let n = self.entries.len();
        let mut i: usize = 0;
        while i < n
            invariant
                self.wf(),
                n == self.entries@.len(),
                i <= n,
                forall|k: int| #![auto] 0 <= k < i ==> self.entries@[k].key@ != key@,
            decreases n - i,
        {
            if self.entries[i].key == *key {
                proof {
                    self.lemma_view_at(i as int);
                }
                return Some(self.entries[i].payload.clone());
            }
            i = i + 1;
        }
        proof {
            if self@.contains_key(key@) {
                let w = choose|w: int| #![auto] 0 <= w < self.entries@.len()
                    && self.entries@[w].key@ == key@;
                assert(false);
            }
        }
        None
    }

    /// Fills the key with a payload, first write winning: a key already
    /// present keeps its original payload, so a payload, once observed,
    /// never changes.
    pub fn put(&mut self, key: String, payload: String)
        requires
            old(self).wf(),
        ensures
            final(self).wf(),
            final(self)@ == spec_put(old(self)@, key@, payload@),
    {
        let n = self.entries.len();
        let mut i: usize = 0;
        while i < n
            invariant
                self.wf(),
                *self == *old(self),
                n == self.entries@.len(),
                i <= n,
                forall|k: int| #![auto] 0 <= k < i ==> self.entries@[k].key@ != key@,
            decreases n - i,
        {
            if self.entries[i].key == *(&key) {
                proof {
                    self.lemma_view_at(i as int);
                }
                return ;
            }
            i = i + 1;
        }
        proof {
            if self@.contains_key(key@) {
                let w = choose|w: int| #![auto] 0 <= w < self.entries@.len()
                    && self.entries@[w].key@ == key@;
                assert(false);
            }
        }
        let ghost prev = *self;
        self.entries.push(Entry { key, payload });
        proof {
            assert forall|i2: int, j2: int| #![auto] 0 <= i2 < j2 < self.entries@.len()
                implies self.entries@[i2].key@ != self.entries@[j2].key@ by {
                if j2 < self.entries@.len() - 1 {
                    assert(prev.entries@[i2].key@ != prev.entries@[j2].key@);
                }
            }
            let m = spec_put(prev@, key@, payload@);
            let len = self.entries@.len() as int;
            assert forall|k: Seq<char>| #[trigger] self@.contains_key(k) implies
                m.contains_key(k) && self@[k] == m[k] by {
                let w = choose|w: int| #![auto] 0 <= w < len
                    && self.entries@[w].key@ == k;
                if w < len - 1 {
                    prev.lemma_view_at(w);
                    assert(m.contains_key(k));
                    if k != key@ {
                        assert(m[k] == prev@[k]);
                    }
                    self.lemma_view_at(w);
                } else {
                    assert(k == key@);
                    self.lemma_view_at(len - 1);
                }
            }
            assert forall|k: Seq<char>| #[trigger] m.contains_key(k) implies
                self@.contains_key(k) by {
                if prev@.contains_key(k) {
                    let w = choose|w: int| #![auto] 0 <= w < prev.entries@.len()
                        && prev.entries@[w].key@ == k;
                    assert(self.entries@[w].key@ == k);
                    assert(self@.contains_key(k));
                } else {
                    assert(k == key@);
                    assert(self.entries@[len - 1].key@ == k);
                    assert(self@.contains_key(k));
                }
            }
            assert(self@ =~= m);
        }
    }
}

/// Cache idempotence, at the model level: once a key has been filled, a
/// second fill of the same key changes nothing, and every lookup of that
/// key yields the payload of the first fill — so repeated requests for
/// one key observe one identical payload.
pub proof fn lemma_cache_idempotent(
    m: Map<Seq<char>, Seq<char>>,
    key: Seq<char>,
    p1: Seq<char>,
    p2: Seq<char>,
)
    ensures
        spec_put(spec_put(m, key, p1), key, p2) == spec_put(m, key, p1),
        spec_put(m, key, p1).contains_key(key),
        !m.contains_key(key) ==> spec_put(m, key, p1)[key] == p1,
{
}

} // verus!
