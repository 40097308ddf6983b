//! The unordered string-to-string field map carried by a log entry.
//!
//! Keys are unique; inserting an existing key overwrites its value
//! (last-write-wins).  Insertion order is kept, because the wire format
//! renders the fields as a JSON object in that order.

use vstd::prelude::*;

verus! {

/// Extra structured fields of a log entry: string keys mapped to string
/// values, in insertion order, with unique keys.
#[derive(Debug, Clone, PartialEq, Eq)]
pub struct LogFields {
    pairs: Vec<(String, String)>,
}

/// Whether a sequence of key-value pairs has pairwise distinct keys.
pub open spec fn unique_keys(s: Seq<(Seq<char>, Seq<char>)>) -> bool {
    forall|i: int, j: int| 0 <= i < j < s.len() ==> s[i].0 != s[j].0
}

/// Index of the pair holding `key`, if any.
pub open spec fn key_index(s: Seq<(Seq<char>, Seq<char>)>, key: Seq<char>) -> Option<int> {
    if exists|i: int| 0 <= i < s.len() && s[i].0 == key {
        Some(choose|i: int| 0 <= i < s.len() && s[i].0 == key)
    } else {
        None
    }
}

/// Last-write-wins insertion into a pair sequence with unique keys.
pub open spec fn lww_insert(
    s: Seq<(Seq<char>, Seq<char>)>,
    key: Seq<char>,
    value: Seq<char>,
) -> Seq<(Seq<char>, Seq<char>)> {
    match key_index(s, key) {
        Some(i) => s.update(i, (key, value)),
        None => s.push((key, value)),
    }
}

impl View for LogFields {
    type V = Seq<(Seq<char>, Seq<char>)>;

    closed spec fn view(&self) -> Seq<(Seq<char>, Seq<char>)> {
        Seq::new(self.pairs@.len(), |i: int| (self.pairs@[i].0@, self.pairs@[i].1@))
    }
}

impl LogFields {
    /// The map is well formed when its keys are pairwise distinct.
    pub open spec fn wf(&self) -> bool {
        unique_keys(self@)
    }

    /// An empty field map.
    pub fn new() -> (r: LogFields)
        ensures
            r@ == Seq::<(Seq<char>, Seq<char>)>::empty(),
            r.wf(),
    {
        let r = LogFields { pairs: Vec::new() };
        proof {
            assert(r@ =~= Seq::<(Seq<char>, Seq<char>)>::empty());
        }
        r
    }

    /// Number of distinct keys.
    pub fn len(&self) -> (r: usize)
        ensures
            r == self@.len(),
    {
        self.pairs.len()
    }

    /// Whether the map holds no fields.
    pub fn is_empty(&self) -> (r: bool)
        ensures
            r == (self@.len() == 0),
    {
        self.pairs.len() == 0
    }

    /// The pair at position `i`, in insertion order.
    pub fn pair_at(&self, i: usize) -> (r: (&String, &String))
        requires
            i < self@.len(),
        ensures
            r.0@ == self@[i as int].0,
            r.1@ == self@[i as int].1,
    {
        let p = &self.pairs[i];
        (&p.0, &p.1)
    }

    /// Insert a field; an existing key keeps its position and takes the new
    /// value (last-write-wins).
    pub fn insert(&mut self, key: String, value: String)
        requires
            old(self).wf(),
        ensures
            final(self)@ == lww_insert(old(self)@, key@, value@),
            final(self).wf(),
    {
        let ghost old_view = self@;
        let n = self.pairs.len();
        let mut i: usize = 0;
        while i < n
            invariant
                n == self.pairs.len(),
                i <= n,
                old_view == old(self)@,
                self@ == old_view,
                unique_keys(old_view),
                forall|j: int| 0 <= j < i ==> old_view[j].0 != key@,
            decreases n - i,
        {
            if str_eq_string(&self.pairs[i].0, &key) {
                proof {
                    assert(old_view[i as int].0 == key@);
                }
                self.pairs.set(i, (key, value));
                proof {
                    assert(key_index(old_view, key@) == Some(i as int)) by {
                        let w = choose|w: int| 0 <= w < old_view.len() && old_view[w].0 == key@;
                        assert(old_view[w].0 == key@ && old_view[i as int].0 == key@);
                        assert(w == i as int);
                    }
                    assert(self@ =~= lww_insert(old_view, key@, value@));
                    assert(unique_keys(self@));
                }
                return;
            }
            i += 1;
        }
        self.pairs.push((key, value));
        proof {
            assert(key_index(old_view, key@) is None);
            assert(self@ =~= old_view.push((key@, value@)));
            assert(unique_keys(self@));
        }
    }

    /// Look a key up; `Some` exactly when the key is present, with its value.
    pub fn get(&self, key: &str) -> (r: Option<&String>)
        requires
            self.wf(),
        ensures
            match r {
                Some(v) => key_index(self@, key@) matches Some(i) && self@[i].1 == v@,
                None => key_index(self@, key@) is None,
            },
    {
        let n = self.pairs.len();
        let mut i: usize = 0;
        while i < n
            invariant
                n == self.pairs.len(),
                n == self@.len(),
                i <= n,
                self.wf(),
                forall|j: int| 0 <= j < i ==> self@[j].0 != key@,
            decreases n - i,
        {
            if crate::level::str_eq(self.pairs[i].0.as_str(), key) {
                proof {
                    let k = self@[i as int].0;
                    let w = choose|w: int| 0 <= w < self@.len() && self@[w].0 == k;
                    assert(self@[w].0 == k && self@[i as int].0 == k);
                    assert(w == i as int);
                }
                return Some(&self.pairs[i].1);
            }
            i += 1;
        }
        None
    }

    /// Whether a key is present.
    pub fn contains_key(&self, key: &str) -> (r: bool)
        requires
            self.wf(),
        ensures
            r == (key_index(self@, key@) is Some),
    {
        self.get(key).is_some()
    }
}

/// Equality of two owned strings, character for character.
pub fn str_eq_string(a: &String, b: &String) -> (r: bool)
    ensures
        r == (a@ == b@),
{
    crate::level::str_eq(a.as_str(), b.as_str())
}

} // verus!
