use vstd::prelude::*;
use vstd::string::StringExecFns;

verus! {

/// A header entry: key and value.
pub type Entry = (Seq<char>, Seq<char>);

/// Index of the first entry of `es` at or after `i` whose key is `k`, or the length.
pub open spec fn find_key(es: Seq<Entry>, k: Seq<char>, i: int) -> int
    decreases es.len() - i,
{
    if 0 <= i < es.len() && es[i].0 != k {
        find_key(es, k, i + 1)
    } else {
        i
    }
}

/// `es` with `k` bound to `v`: the entry of `k` is replaced in place, or a new one is
/// appended.
pub open spec fn insert_entry(es: Seq<Entry>, k: Seq<char>, v: Seq<char>) -> Seq<Entry> {
    let i = find_key(es, k, 0);
    if i < es.len() {
        es.update(i, (k, v))
    } else {
        es.push((k, v))
    }
}

/// The value bound to `k` in `es`.
pub open spec fn lookup(es: Seq<Entry>, k: Seq<char>) -> Option<Seq<char>> {
    let i = find_key(es, k, 0);
    if i < es.len() {
        Some(es[i].1)
    } else {
        None
    }
}

/// No key occurs twice.
pub open spec fn keys_unique(es: Seq<Entry>) -> bool {
    forall|i: int, j: int| 0 <= i < j < es.len() ==> es[i].0 != es[j].0
}

pub proof fn lemma_find_key(es: Seq<Entry>, k: Seq<char>, i: int)
    requires
        0 <= i <= es.len(),
    ensures
        i <= find_key(es, k, i) <= es.len(),
        forall|j: int| i <= j < find_key(es, k, i) ==> es[j].0 != k,
        find_key(es, k, i) < es.len() ==> es[find_key(es, k, i)].0 == k,
    decreases es.len() - i,
{
    if i < es.len() && es[i].0 != k {
        lemma_find_key(es, k, i + 1);
    }
}

pub proof fn lemma_insert_keeps_unique(es: Seq<Entry>, k: Seq<char>, v: Seq<char>)
    requires
        keys_unique(es),
    ensures
        keys_unique(insert_entry(es, k, v)),
{
    lemma_find_key(es, k, 0);
}

/// After `k` is bound to `v`, looking `k` up finds `v`, and every other key keeps its
/// value.
pub proof fn lemma_insert_then_lookup(es: Seq<Entry>, k: Seq<char>, v: Seq<char>, other: Seq<char>)
    requires
        keys_unique(es),
    ensures
        lookup(insert_entry(es, k, v), k) == Some(v),
        other != k ==> lookup(insert_entry(es, k, v), other) == lookup(es, other),
{
    let i = find_key(es, k, 0);
    let es2 = insert_entry(es, k, v);
    lemma_find_key(es, k, 0);
    lemma_find_key(es2, k, 0);
    lemma_find_key(es, other, 0);
    lemma_find_key(es2, other, 0);
    lemma_insert_keeps_unique(es, k, v);
    if i < es.len() {
        assert(es2[i].0 == k);
    } else {
        assert(es2[es.len() as int].0 == k);
    }
    if other != k {
        let j = find_key(es, other, 0);
        let j2 = find_key(es2, other, 0);
        assert(forall|x: int| 0 <= x < es.len() && x != i ==> es2[x] == es[x]);
        if j < es.len() {
            assert(es2[j].0 == other);
            assert(j2 <= j);
            assert(j2 == j);
        } else {
            assert(forall|x: int| 0 <= x < es2.len() ==> es2[x].0 != other);
            assert(j2 == es2.len());
        }
    }
}

/// A map from header keys to values that keeps the order in which keys first came.
pub struct HeaderMap {
    entries: Vec<(String, String)>,
}

impl View for HeaderMap {
    type V = Seq<Entry>;

    closed spec fn view(&self) -> Seq<Entry> {
        self.entries@.map_values(|e: (String, String)| (e.0@, e.1@))
    }
}

impl HeaderMap {
    pub open spec fn wf(&self) -> bool {
        keys_unique(self@)
    }

    pub fn new() -> (r: HeaderMap)
        ensures
            r@ == Seq::<Entry>::empty(),
            r.wf(),
    {
        let r = HeaderMap { entries: Vec::new() };
        assert(r@ == Seq::<Entry>::empty());
        r
    }

    pub fn len(&self) -> (r: usize)
        ensures
            r == self@.len(),
    {
        self.entries.len()
    }

    /// The key and the value of the entry at `i`.
    pub fn entry(&self, i: usize) -> (r: (&String, &String))
        requires
            i < self@.len(),
        ensures
            (r.0@, r.1@) == self@[i as int],
    {
        (&self.entries[i].0, &self.entries[i].1)
    }

    /// Binds `key` to `value`, replacing an earlier value of the same key.
    pub fn insert(&mut self, key: String, value: String)
        ensures
            final(self)@ == insert_entry(old(self)@, key@, value@),
            old(self).wf() ==> final(self).wf(),
    {
        let ghost es = self@;
        let n = self.entries.len();
        let mut i: usize = 0;
        while i < n && self.entries[i].0 != key
            invariant
                es == self@,
                n == es.len(),
                i <= n,
                find_key(es, key@, 0) == find_key(es, key@, i as int),
            decreases n - i,
        {
            assert(es[i as int].0 == self.entries[i as int].0@);
            i = i + 1;
        }
        proof {
            if i < n {
                assert(es[i as int].0 == key@);
            }
            if keys_unique(es) {
                lemma_insert_keeps_unique(es, key@, value@);
            }
        }
        if i < n {
            self.entries.set(i, (key, value));
        } else {
            self.entries.push((key, value));
        }
        assert(self@ == insert_entry(es, key@, value@));
    }

    /// The value bound to `key`.
    pub fn get(&self, key: &str) -> (r: Option<String>)
        ensures
            match r {
                Some(v) => lookup(self@, key@) == Some(v@),
                None => lookup(self@, key@) is None,
            },
    {
        let wanted = String::from_str(key);
        let n = self.entries.len();
        let mut i: usize = 0;
        while i < n && self.entries[i].0 != wanted
            invariant
                wanted@ == key@,
                n == self@.len(),
                i <= n,
                find_key(self@, key@, 0) == find_key(self@, key@, i as int),
            decreases n - i,
        {
            assert(self@[i as int].0 == self.entries[i as int].0@);
            i = i + 1;
        }
        if i < n {
            assert(self@[i as int] == (self.entries[i as int].0@, self.entries[i as int].1@));
            Some(self.entries[i].1.clone())
        } else {
            None
        }
    }
}

} // verus!
