//! The alias table: an ordered mapping from alias keys to paths.

use vstd::prelude::*;

verus! {

/// An alias table as a sequence of (key, path) pairs, in insertion order.
pub type Entries = Seq<(Seq<char>, Seq<char>)>;

/// No key appears twice.
pub open spec fn keys_unique(s: Entries) -> bool {
    forall|i: int, j: int| 0 <= i < j < s.len() ==> (#[trigger] s[i]).0 != (#[trigger] s[j]).0
}

/// Some entry has key `k`.
pub open spec fn has_key(s: Entries, k: Seq<char>) -> bool {
    exists|i: int| 0 <= i < s.len() && (#[trigger] s[i]).0 == k
}

/// The position of the entry with key `k`, where there is one.
pub open spec fn key_pos(s: Entries, k: Seq<char>) -> int {
    choose|i: int| 0 <= i < s.len() && (#[trigger] s[i]).0 == k
}

/// The path stored under `k`.
pub open spec fn lookup(s: Entries, k: Seq<char>) -> Option<Seq<char>> {
    if has_key(s, k) {
        Some(s[key_pos(s, k)].1)
    } else {
        None
    }
}

/// `s` with `k` mapped to `p`: an existing entry is overwritten in place, a
/// new key is appended.
pub open spec fn upserted(s: Entries, k: Seq<char>, p: Seq<char>) -> Entries {
    if has_key(s, k) {
        s.update(key_pos(s, k), (k, p))
    } else {
        s.push((k, p))
    }
}

/// `s` without the entry for `k`.
pub open spec fn removed(s: Entries, k: Seq<char>) -> Entries {
    if has_key(s, k) {
        s.remove(key_pos(s, k))
    } else {
        s
    }
}

/// Mapping a key keeps the keys unique, and the key then looks up the new path.
pub proof fn lemma_upserted(s: Entries, k: Seq<char>, p: Seq<char>)
    requires
        keys_unique(s),
    ensures
        keys_unique(upserted(s, k, p)),
        lookup(upserted(s, k, p), k) == Some(p),
{
    let t = upserted(s, k, p);
    assert forall|i: int, j: int| 0 <= i < j < t.len() implies (#[trigger] t[i]).0
        != (#[trigger] t[j]).0 by {
        if j == s.len() {
            assert(s[i].0 != k);
        } else if has_key(s, k) && (i == key_pos(s, k) || j == key_pos(s, k)) {
            assert(s[key_pos(s, k)].0 == k);
            assert(s[i].0 != s[j].0);
        } else {
            assert(s[i].0 != s[j].0);
        }
    }
    let q = if has_key(s, k) { key_pos(s, k) } else { s.len() as int };
    if has_key(s, k) {
        assert(s[key_pos(s, k)].0 == k);
    }
    assert(t[q].0 == k);
    assert(has_key(t, k));
    let r = key_pos(t, k);
    assert(t[r].0 == k);
    if r != q {
        if r < q {
            assert(t[r].0 != t[q].0);
        } else {
            assert(t[q].0 != t[r].0);
        }
    }
}

/// Mapping a key to one path and then to another leaves exactly one entry for
/// that key, holding the second path.
pub proof fn lemma_upsert_overwrite(s: Entries, k: Seq<char>, x: Seq<char>, y: Seq<char>)
    requires
        keys_unique(s),
    ensures
        keys_unique(upserted(upserted(s, k, x), k, y)),
        lookup(upserted(upserted(s, k, x), k, y), k) == Some(y),
        has_key(upserted(upserted(s, k, x), k, y), k),
        forall|i: int, j: int|
            0 <= i < upserted(upserted(s, k, x), k, y).len() && 0 <= j < upserted(
                upserted(s, k, x),
                k,
                y,
            ).len() && (#[trigger] upserted(upserted(s, k, x), k, y)[i]).0 == k && (
            #[trigger] upserted(upserted(s, k, x), k, y)[j]).0 == k ==> i == j,
{
    lemma_upserted(s, k, x);
    lemma_upserted(upserted(s, k, x), k, y);
    let t = upserted(upserted(s, k, x), k, y);
    assert forall|i: int, j: int|
        0 <= i < t.len() && 0 <= j < t.len() && (#[trigger] t[i]).0 == k && (#[trigger] t[j]).0
            == k implies i == j by {
        if i < j {
            assert(t[i].0 != t[j].0);
        } else if j < i {
            assert(t[j].0 != t[i].0);
        }
    }
}

/// The persisted table of aliases.
pub struct AliasStore {
    entries: Vec<(String, String)>,
}

impl View for AliasStore {
    type V = Entries;

    closed spec fn view(&self) -> Entries {
        self.entries@.map_values(|e: (String, String)| (e.0@, e.1@))
    }
}

impl AliasStore {
    /// Keys are unique.
    pub open spec fn well_formed(&self) -> bool {
        keys_unique(self@)
    }

    /// A table with no aliases.
    pub fn new() -> (r: AliasStore)
        ensures
            r@ == Seq::<(Seq<char>, Seq<char>)>::empty(),
            r.well_formed(),
    {
        let r = AliasStore { entries: Vec::new() };
        assert(r@ =~= Seq::<(Seq<char>, Seq<char>)>::empty());
        r
    }

    /// The number of aliases.
    pub fn len(&self) -> (r: usize)
        ensures
            r == self@.len(),
    {
        self.entries.len()
    }

    /// The position of the entry for `key`, if any.
    fn position(&self, key: &str) -> (r: Option<usize>)
        requires
            self.well_formed(),
        ensures
            r is None <==> !has_key(self@, key@),
            r is Some ==> r->0 == key_pos(self@, key@) && r->0 < self@.len(),
    {
        let k = key.to_owned();
        let mut i: usize = 0;
        while i < self.entries.len()
            invariant
                i <= self.entries@.len(),
                k@ == key@,
                self.well_formed(),
                forall|j: int| 0 <= j < i ==> (#[trigger] self@[j]).0 != key@,
            decreases self.entries@.len() - i,
        {
            assert(self@[i as int] == (self.entries@[i as int].0@, self.entries@[i as int].1@));
            if self.entries[i].0 == k {
                assert(self@[i as int].0 == key@);
                let ghost p = key_pos(self@, key@);
                assert(self@[p].0 == key@);
                assert(p == i) by {
                    if p != i {
                        if p < i {
                            assert(self@[p].0 != key@);
                        } else {
                            assert(self@[i as int].0 != self@[p].0);
                        }
                    }
                }
                return Some(i);
            }
            i = i + 1;
        }
        None
    }

    /// The path stored under `key`.
    pub fn get(&self, key: &str) -> (r: Option<String>)
        requires
            self.well_formed(),
        ensures
            r is None <==> lookup(self@, key@) is None,
            r is Some ==> r->0@ == lookup(self@, key@)->0,
    {
        match self.position(key) {
            Some(i) => {
                assert(self@[i as int].1 == self.entries@[i as int].1@);
                Some(self.entries[i].1.clone())
            },
            None => None,
        }
    }

    /// Maps `key` to `path`, overwriting the path of an existing alias in place
    /// and appending a new one at the end.
    pub fn upsert(&mut self, key: String, path: String)
        requires
            old(self).well_formed(),
        ensures
            final(self).well_formed(),
            final(self)@ == upserted(old(self)@, key@, path@),
    {
        let ghost k = key@;
        let ghost p = path@;
        match self.position(key.as_str()) {
            Some(i) => {
                self.entries.set(i, (key, path));
                assert(self@ =~= old(self)@.update(i as int, (k, p)));
            },
            None => {
                self.entries.push((key, path));
                assert(self@ =~= old(self)@.push((k, p)));
            },
        }
        assert forall|i: int, j: int| 0 <= i < j < self@.len() implies (#[trigger] self@[i]).0
            != (#[trigger] self@[j]).0 by {
            if j == old(self)@.len() {
                assert(old(self)@[i].0 != k);
            } else if has_key(old(self)@, k) && (i == key_pos(old(self)@, k) || j == key_pos(
                old(self)@,
                k,
            )) {
                let q = key_pos(old(self)@, k);
                assert(old(self)@[q].0 == k);
                assert(old(self)@[i].0 != old(self)@[j].0);
            } else {
                assert(old(self)@[i].0 != old(self)@[j].0);
            }
        }
    }

    /// Removes the alias `key`; the table is unchanged where there is none.
    pub fn remove(&mut self, key: &str)
        requires
            old(self).well_formed(),
        ensures
            final(self).well_formed(),
            final(self)@ == removed(old(self)@, key@),
    {
        match self.position(key) {
            Some(i) => {
                self.entries.remove(i);
                assert(self@ =~= old(self)@.remove(i as int));
                assert forall|a: int, b: int| 0 <= a < b < self@.len() implies (#[trigger] self@[
                    a
                ]).0 != (#[trigger] self@[b]).0 by {
                    let oa = if a < i { a } else { a + 1 };
                    let ob = if b < i { b } else { b + 1 };
                    assert(self@[a] == old(self)@[oa]);
                    assert(self@[b] == old(self)@[ob]);
                    assert(old(self)@[oa].0 != old(self)@[ob].0);
                }
            },
            None => {},
        }
    }

    /// Listing a table twice, with no change in between, gives the same
    /// sequence both times.
    pub proof fn lemma_listing_stable(&self, a: Seq<(String, String)>, b: Seq<(String, String)>)
        requires
            a.map_values(|e: (String, String)| (e.0@, e.1@)) == self@,
            b.map_values(|e: (String, String)| (e.0@, e.1@)) == self@,
        ensures
            a.len() == b.len(),
            forall|i: int|
                0 <= i < a.len() ==> (#[trigger] a[i]).0@ == b[i].0@ && a[i].1@ == b[i].1@,
    {
        assert(a.map_values(|e: (String, String)| (e.0@, e.1@)).len() == a.len());
        assert(b.map_values(|e: (String, String)| (e.0@, e.1@)).len() == b.len());
        assert forall|i: int| 0 <= i < a.len() implies (#[trigger] a[i]).0@ == b[i].0@ && a[i].1@
            == b[i].1@ by {
            assert(a.map_values(|e: (String, String)| (e.0@, e.1@))[i] == self@[i]);
            assert(b.map_values(|e: (String, String)| (e.0@, e.1@))[i] == self@[i]);
        }
    }

    /// The aliases as (key, path) pairs, in table order.
    pub fn list(&self) -> (r: Vec<(String, String)>)
        ensures
            r@.map_values(|e: (String, String)| (e.0@, e.1@)) == self@,
    {
        let mut out: Vec<(String, String)> = Vec::new();
        let mut i: usize = 0;
        while i < self.entries.len()
            invariant
                i <= self.entries@.len(),
                out@.map_values(|e: (String, String)| (e.0@, e.1@)) == self@.take(i as int),
            decreases self.entries@.len() - i,
        {
            let ghost before = out@;
            let e = (self.entries[i].0.clone(), self.entries[i].1.clone());
            out.push(e);
            assert(out@.map_values(|e: (String, String)| (e.0@, e.1@)) =~= before.map_values(
                |e: (String, String)| (e.0@, e.1@),
            ).push((e.0@, e.1@)));
            assert(self@.take(i + 1) =~= self@.take(i as int).push(self@[i as int]));
            i = i + 1;
        }
        assert(self@.take(i as int) =~= self@);
        out
    }
}

} // verus!
