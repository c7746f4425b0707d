//! An insertion-ordered table from path strings to values, used for the
//! parsed-unit cache and the line-range table. Keys are compared by their
//! characters; inserting an existing key overwrites its value in place, so
//! keys stay unique and keep the order in which they first appeared.
use vstd::prelude::*;
use crate::text::str_eq;

verus! {

/// The index of the first entry of `m` whose key reads `key`, or `-1`.
pub open spec fn key_index<V>(m: Seq<(String, V)>, key: Seq<char>) -> int
    decreases m.len(),
{
    if m.len() == 0 {
        -1
    } else if m[0].0@ == key {
        0
    } else {
        let r = key_index(m.drop_first(), key);
        if r < 0 {
            -1
        } else {
            1 + r
        }
    }
}

/// Whether some entry of `m` has the key `key`.
pub open spec fn has_key<V>(m: Seq<(String, V)>, key: Seq<char>) -> bool {
    key_index(m, key) >= 0
}

/// The value of the entry of `m` whose key reads `key`.
pub open spec fn value_of<V>(m: Seq<(String, V)>, key: Seq<char>) -> V
    recommends
        has_key(m, key),
{
    m[key_index(m, key)].1
}

/// The table after binding `key` to `value`: the first entry with that key
/// is overwritten in place, and a new key goes to the back.
pub open spec fn insert_spec<V>(m: Seq<(String, V)>, key: String, value: V) -> Seq<(String, V)> {
    let i = key_index(m, key@);
    if i >= 0 {
        m.update(i, (m[i].0, value))
    } else {
        m.push((key, value))
    }
}

/// `key_index` points at the first entry with the key, and is negative
/// exactly when no entry has it.
pub proof fn lemma_key_index<V>(m: Seq<(String, V)>, key: Seq<char>)
    ensures
        key_index(m, key) >= 0 ==> key_index(m, key) < m.len() && m[key_index(m, key)].0@
            == key,
        forall|j: int| 0 <= j < key_index(m, key) ==> m[j].0@ != key,
        key_index(m, key) < 0 ==> forall|j: int| 0 <= j < m.len() ==> m[j].0@ != key,
    decreases m.len(),
{
    if m.len() > 0 && m[0].0@ != key {
        let d = m.drop_first();
        lemma_key_index(d, key);
        assert forall|j: int| 0 <= j < key_index(m, key) implies m[j].0@ != key by {
            if j > 0 {
                assert(m[j] == d[j - 1]);
            }
        }
        if key_index(m, key) < 0 {
            assert forall|j: int| 0 <= j < m.len() implies m[j].0@ != key by {
                if j > 0 {
                    assert(m[j] == d[j - 1]);
                }
            }
        }
    }
}

/// Inserting grows the table only when the key is new, and binds the key.
pub proof fn lemma_insert_spec<V>(m: Seq<(String, V)>, key: String, value: V)
    ensures
        insert_spec(m, key, value).len() == if has_key(m, key@) {
            m.len() as int
        } else {
            m.len() + 1int
        },
        has_key(insert_spec(m, key, value), key@),
        value_of(insert_spec(m, key, value), key@) == value,
{
    lemma_key_index(m, key@);
    let i = key_index(m, key@);
    let m2 = insert_spec(m, key, value);
    lemma_key_index(m2, key@);
    if i >= 0 {
        assert(m2[i].0@ == key@);
        assert(key_index(m2, key@) == i);
    } else {
        assert(m2[m.len() as int].0@ == key@);
        assert(key_index(m2, key@) == m.len());
    }
}

/// Binding the same key twice leaves the table exactly as binding it once
/// to the later value: no second entry ever appears.
pub proof fn lemma_insert_spec_idempotent<V>(
    m: Seq<(String, V)>,
    key: String,
    v1: V,
    v2: V,
)
    ensures
        insert_spec(insert_spec(m, key, v1), key, v2) == insert_spec(m, key, v2),
{
    lemma_key_index(m, key@);
    let i = key_index(m, key@);
    let m1 = insert_spec(m, key, v1);
    lemma_key_index(m1, key@);
    if i >= 0 {
        assert(m1[i].0@ == key@);
        assert(key_index(m1, key@) == i);
        assert(insert_spec(m1, key, v2) =~= insert_spec(m, key, v2));
    } else {
        assert(m1[m.len() as int].0@ == key@);
        assert(key_index(m1, key@) == m.len());
        assert(insert_spec(m1, key, v2) =~= insert_spec(m, key, v2));
    }
}

/// An insertion-ordered table from strings to values.
pub struct Table<V> {
    entries: Vec<(String, V)>,
}

impl<V> View for Table<V> {
    type V = Seq<(String, V)>;

    closed spec fn view(&self) -> Seq<(String, V)> {
        self.entries@
    }
}

impl<V> Table<V> {
    /// An empty table.
    pub fn new() -> (r: Self)
        ensures
            r@ == Seq::<(String, V)>::empty(),
    {
        Table { entries: Vec::new() }
    }

    /// The number of entries.
    pub fn len(&self) -> (r: usize)
        ensures
            r == self@.len(),
    {
        self.entries.len()
    }

    /// The entry at position `i`, in insertion order.
    pub fn entry_at(&self, i: usize) -> (r: &(String, V))
        requires
            i < self@.len(),
        ensures
            *r == self@[i as int],
    {
        &self.entries[i]
    }

    /// The position of the first entry with the key, if any.
    fn find_index(&self, key: &str) -> (r: Option<usize>)
        ensures
            match r {
                Some(i) => i == key_index(self@, key@) && i < self@.len(),
                None => !has_key(self@, key@),
            },
    {
        proof {
            lemma_key_index(self@, key@);
        }
        let n = self.entries.len();
        let mut i: usize = 0;
        while i < n
            invariant
                n == self@.len(),
                0 <= i <= n,
                forall|j: int| 0 <= j < i ==> self@[j].0@ != key@,
            decreases n - i,
        {
            if str_eq(self.entries[i].0.as_str(), key) {
                proof {
                    lemma_key_index(self@, key@);
                    if key_index(self@, key@) != i {
                        assert(self@[key_index(self@, key@)].0@ == key@);
                    }
                }
                return Some(i);
            }
            i += 1;
        }
        None
    }

    /// Whether the table has an entry with the key.
    pub fn contains_key(&self, key: &str) -> (r: bool)
        ensures
            r == has_key(self@, key@),
    {
        proof {
            lemma_key_index(self@, key@);
        }
        self.find_index(key).is_some()
    }

    /// The value bound to the key, if any.
    pub fn get(&self, key: &str) -> (r: Option<&V>)
        ensures
            match r {
                Some(v) => has_key(self@, key@) && *v == value_of(self@, key@),
                None => !has_key(self@, key@),
            },
    {
        match self.find_index(key) {
            Some(i) => Some(&self.entries[i].1),
            None => None,
        }
    }

    /// Binds `key` to `value`, overwriting the value of an existing key in
    /// place and appending a new key at the back.
    pub fn insert(&mut self, key: String, value: V)
        ensures
            final(self)@ == insert_spec(old(self)@, key, value),
    {
        match self.find_index(key.as_str()) {
            Some(i) => {
                let k = self.entries[i].0.clone();
                self.entries[i] = (k, value);
                proof {
                    assert(self@ =~= insert_spec(old(self)@, key, value));
                }
            },
            None => {
                self.entries.push((key, value));
            },
        }
    }
}

} // verus!
