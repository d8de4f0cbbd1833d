//! An insertion-ordered map keyed by strings.
//!
//! Its view is an association list: a sequence of (key, value) pairs in the
//! order in which keys were first inserted, each key at most once when the
//! map is built through `insert`.

use vstd::prelude::*;
use crate::text::{chars_eq, to_chars};

verus! {

/// Position of the first pair whose key is `k`, searching from `i`.
pub open spec fn al_find_from<T>(s: Seq<(Seq<char>, T)>, k: Seq<char>, i: int) -> Option<int>
    decreases s.len() - i,
{
    if i < 0 || i >= s.len() {
        None
    } else if s[i].0 == k {
        Some(i)
    } else {
        al_find_from(s, k, i + 1)
    }
}

pub open spec fn al_find<T>(s: Seq<(Seq<char>, T)>, k: Seq<char>) -> Option<int> {
    al_find_from(s, k, 0)
}

pub open spec fn al_contains<T>(s: Seq<(Seq<char>, T)>, k: Seq<char>) -> bool {
    al_find(s, k) is Some
}

pub open spec fn al_get<T>(s: Seq<(Seq<char>, T)>, k: Seq<char>) -> Option<T> {
    match al_find(s, k) {
        Some(i) => Some(s[i].1),
        None => None,
    }
}

/// Replaces the value of `k`, or appends the pair when `k` is absent.
pub open spec fn al_insert<T>(s: Seq<(Seq<char>, T)>, k: Seq<char>, v: T) -> Seq<(Seq<char>, T)> {
    match al_find(s, k) {
        Some(i) => s.update(i, (k, v)),
        None => s.push((k, v)),
    }
}

/// No key occurs twice.
pub open spec fn al_unique<T>(s: Seq<(Seq<char>, T)>) -> bool {
    forall|i: int, j: int| 0 <= i < j < s.len() ==> s[i].0 != s[j].0
}

pub proof fn lemma_al_find_from<T>(s: Seq<(Seq<char>, T)>, k: Seq<char>, i: int)
    requires
        0 <= i,
    ensures
        al_find_from(s, k, i) matches Some(j) ==> i <= j < s.len() && s[j].0 == k && forall|m: int|
            i <= m < j ==> s[m].0 != k,
        al_find_from(s, k, i) is None ==> forall|m: int| i <= m < s.len() ==> s[m].0 != k,
    decreases s.len() - i,
{
    if i < s.len() && s[i].0 != k {
        lemma_al_find_from(s, k, i + 1);
    }
}

pub proof fn lemma_al_find<T>(s: Seq<(Seq<char>, T)>, k: Seq<char>)
    ensures
        al_find(s, k) matches Some(j) ==> 0 <= j < s.len() && s[j].0 == k && forall|m: int|
            0 <= m < j ==> s[m].0 != k,
        al_find(s, k) is None ==> forall|m: int| 0 <= m < s.len() ==> s[m].0 != k,
{
    lemma_al_find_from(s, k, 0);
}

pub proof fn lemma_al_find_from_same_keys<T, U>(
    s: Seq<(Seq<char>, T)>,
    r: Seq<(Seq<char>, U)>,
    k: Seq<char>,
    i: int,
)
    requires
        s.len() == r.len(),
        forall|m: int| 0 <= m < s.len() ==> s[m].0 == r[m].0,
    ensures
        al_find_from(s, k, i) == al_find_from(r, k, i),
    decreases s.len() - i,
{
    if 0 <= i < s.len() && s[i].0 != k {
        lemma_al_find_from_same_keys(s, r, k, i + 1);
    }
}

pub proof fn lemma_al_find_from_push<T>(s: Seq<(Seq<char>, T)>, e: (Seq<char>, T), k: Seq<char>, i: int)
    requires
        e.0 != k,
        i >= 0,
    ensures
        al_find_from(s.push(e), k, i) == al_find_from(s, k, i),
    decreases s.len() + 1 - i,
{
    if i < s.len() && s[i].0 != k {
        lemma_al_find_from_push(s, e, k, i + 1);
    } else if i == s.len() {
        assert(al_find_from(s.push(e), k, i + 1) is None);
    }
}

/// Inserting keeps keys unique.
pub proof fn lemma_al_insert_unique<T>(s: Seq<(Seq<char>, T)>, k: Seq<char>, v: T)
    requires
        al_unique(s),
    ensures
        al_unique(al_insert(s, k, v)),
        al_get(al_insert(s, k, v), k) == Some(v),
        forall|k2: Seq<char>| k2 != k ==> al_get(#[trigger] al_insert(s, k, v), k2) == al_get(s, k2),
{
    lemma_al_find(s, k);
    let r = al_insert(s, k, v);
    assert(al_unique(r));
    lemma_al_find(r, k);
    match al_find(s, k) {
        Some(i) => {
            lemma_al_find_from_same_keys(s, r, k, 0);
        },
        None => {
            assert(r[s.len() as int].0 == k);
            assert(al_find(r, k) == Some(s.len() as int));
        },
    }
    assert forall|k2: Seq<char>| k2 != k implies al_get(#[trigger] al_insert(s, k, v), k2) == al_get(
        s,
        k2,
    ) by {
        lemma_al_find(s, k2);
        lemma_al_find(r, k2);
        match al_find(s, k) {
            Some(i) => {
                lemma_al_find_from_same_keys(s, r, k2, 0);
            },
            None => {
                lemma_al_find_from_push(s, (k, v), k2, 0);
            },
        }
    }
}

/// A map from strings to values that keeps the order of first insertion.
/// No key occurs twice in it.
#[derive(Debug)]
pub struct StrMap<V> {
    entries: Vec<(String, V)>,
}

/// No two entries share a key.
pub open spec fn entry_keys_unique<V>(e: Seq<(String, V)>) -> bool {
    forall|i: int, j: int| 0 <= i < j < e.len() ==> e[i].0@ != e[j].0@
}

impl<V> StrMap<V> {
    #[verifier::type_invariant]
    spec fn keys_unique(self) -> bool {
        entry_keys_unique(self.entries@)
    }
}

impl<V: Clone> Clone for StrMap<V> {
    /// A copy with the same keys in the same order and each value cloned.
    fn clone(&self) -> (r: Self) {
        proof {
            use_type_invariant(self);
        }
        let mut entries: Vec<(String, V)> = Vec::new();
        let mut i: usize = 0;
        while i < self.entries.len()
            invariant
                i <= self.entries@.len(),
                entries@.len() == i,
                entry_keys_unique(self.entries@),
                forall|j: int| 0 <= j < i ==> (#[trigger] entries@[j]).0@ == self.entries@[j].0@,
            decreases self.entries.len() - i,
        {
            let k = self.entries[i].0.clone();
            let v = self.entries[i].1.clone();
            entries.push((k, v));
            i = i + 1;
        }
        assert(entry_keys_unique(entries@)) by {
            assert forall|a: int, b: int| 0 <= a < b < entries@.len() implies entries@[a].0@
                != entries@[b].0@ by {
                assert(entries@[a].0@ == self.entries@[a].0@);
                assert(entries@[b].0@ == self.entries@[b].0@);
            }
        }
        StrMap { entries }
    }
}

impl<V: DeepView> DeepView for StrMap<V> {
    type V = Seq<(Seq<char>, V::V)>;

    closed spec fn deep_view(&self) -> Seq<(Seq<char>, V::V)> {
        self.entries@.map_values(|e: (String, V)| (e.0@, e.1.deep_view()))
    }
}

pub fn key_matches(a: &String, b: &str) -> (r: bool)
    ensures
        r == (a@ == b@),
{
    let x = to_chars(a.as_str());
    let y = to_chars(b);
    chars_eq(x.as_slice(), y.as_slice())
}

/// Key uniqueness of the entries and of their view are the same thing.
proof fn lemma_view_unique<V: DeepView>(e: Seq<(String, V)>)
    ensures
        entry_keys_unique(e) <==> al_unique(e.map_values(|x: (String, V)| (x.0@, x.1.deep_view()))),
{
    let d = e.map_values(|x: (String, V)| (x.0@, x.1.deep_view()));
    assert forall|i: int| 0 <= i < e.len() implies #[trigger] d[i].0 == e[i].0@ by {}
    if entry_keys_unique(e) {
        assert forall|i: int, j: int| 0 <= i < j < d.len() implies d[i].0 != d[j].0 by {
            assert(d[i].0 == e[i].0@);
            assert(d[j].0 == e[j].0@);
        }
    }
    if al_unique(d) {
        assert forall|i: int, j: int| 0 <= i < j < e.len() implies e[i].0@ != e[j].0@ by {
            assert(d[i].0 == e[i].0@);
            assert(d[j].0 == e[j].0@);
        }
    }
}

impl<V: DeepView> StrMap<V> {
    pub fn new() -> (m: Self)
        ensures
            m.deep_view() == Seq::<(Seq<char>, V::V)>::empty(),
            al_unique(m.deep_view()),
    {
        let entries: Vec<(String, V)> = Vec::new();
        assert(entry_keys_unique(entries@));
        let m = StrMap { entries };
        proof {
            lemma_view_unique(m.entries@);
        }
        assert(m.deep_view() =~= Seq::<(Seq<char>, V::V)>::empty());
        m
    }

    /// The number of entries; no key occurs twice among them.
    pub fn len(&self) -> (n: usize)
        ensures
            n == self.deep_view().len(),
            al_unique(self.deep_view()),
    {
        proof {
            use_type_invariant(self);
            lemma_view_unique(self.entries@);
        }
        self.entries.len()
    }

    pub fn is_empty(&self) -> (b: bool)
        ensures
            b == (self.deep_view().len() == 0),
    {
        self.entries.len() == 0
    }

    pub fn key_at(&self, i: usize) -> (k: &String)
        requires
            i < self.deep_view().len(),
        ensures
            k@ == self.deep_view()[i as int].0,
    {
        &self.entries[i].0
    }

    pub fn value_at(&self, i: usize) -> (v: &V)
        requires
            i < self.deep_view().len(),
        ensures
            v.deep_view() == self.deep_view()[i as int].1,
    {
        &self.entries[i].1
    }

    /// Position of `k`, if present.
    pub fn find(&self, k: &str) -> (r: Option<usize>)
        ensures
            match r {
                Some(i) => al_find(self.deep_view(), k@) == Some(i as int),
                None => al_find(self.deep_view(), k@) is None,
            },
    {
        let ghost d = self.deep_view();
        let mut i: usize = 0;
        while i < self.entries.len()
            invariant
                i <= self.entries@.len(),
                d == self.deep_view(),
                d.len() == self.entries@.len(),
                al_find(d, k@) == al_find_from(d, k@, i as int),
            decreases self.entries.len() - i,
        {
            assert(d[i as int].0 == self.entries@[i as int].0@);
            if key_matches(&self.entries[i].0, k) {
                return Some(i);
            }
            i = i + 1;
        }
        None
    }

    pub fn contains_key(&self, k: &str) -> (b: bool)
        ensures
            b == al_contains(self.deep_view(), k@),
    {
        self.find(k).is_some()
    }

    pub fn get(&self, k: &str) -> (r: Option<&V>)
        ensures
            match r {
                Some(v) => al_get(self.deep_view(), k@) == Some(v.deep_view()),
                None => al_get(self.deep_view(), k@) is None,
            },
    {
        proof {
            lemma_al_find(self.deep_view(), k@);
        }
        match self.find(k) {
            Some(i) => Some(&self.entries[i].1),
            None => None,
        }
    }

    /// Takes the pair at position `i` out of the map.
    pub fn remove_at(&mut self, i: usize) -> (r: (String, V))
        requires
            i < old(self).deep_view().len(),
        ensures
            r.0@ == old(self).deep_view()[i as int].0,
            r.1.deep_view() == old(self).deep_view()[i as int].1,
            final(self).deep_view() == old(self).deep_view().remove(i as int),
            !al_contains(final(self).deep_view(), r.0@),
            al_unique(final(self).deep_view()),
    {
        proof {
            use_type_invariant(&*self);
        }
        let ghost old_d = self.deep_view();
        let ghost old_e = self.entries@;
        let mut e: Vec<(String, V)> = Vec::new();
        std::mem::swap(&mut e, &mut self.entries);
        assert(e@ == old_e);
        let r = e.remove(i);
        assert(e@ =~= old_e.remove(i as int));
        assert(entry_keys_unique(e@)) by {
            assert forall|a: int, b: int| 0 <= a < b < e@.len() implies e@[a].0@ != e@[b].0@ by {
                let oa = if a < i { a } else { a + 1 };
                let ob = if b < i { b } else { b + 1 };
                assert(e@[a] == old_e[oa]);
                assert(e@[b] == old_e[ob]);
            }
        }
        self.entries = e;
        proof {
            use_type_invariant(&*self);
            lemma_view_unique(self.entries@);
        }
        assert(self.deep_view() =~= old_d.remove(i as int));
        proof {
            let d = self.deep_view();
            lemma_al_find(d, r.0@);
            assert forall|m: int| 0 <= m < d.len() implies d[m].0 != r.0@ by {
                let om = if m < i { m } else { m + 1 };
                assert(d[m] == old_d[om]);
                assert(old_d[om].0 == old_e[om].0@);
                assert(old_d[i as int].0 == old_e[i as int].0@);
            }
        }
        r
    }

    /// Puts a pair with a key not in the map at position `i`.
    pub fn insert_at(&mut self, i: usize, k: String, v: V)
        requires
            i <= old(self).deep_view().len(),
            !al_contains(old(self).deep_view(), k@),
        ensures
            final(self).deep_view() == old(self).deep_view().insert(i as int, (k@, v.deep_view())),
            al_unique(final(self).deep_view()),
    {
        proof {
            use_type_invariant(&*self);
            lemma_al_find(self.deep_view(), k@);
        }
        let ghost old_d = self.deep_view();
        let ghost old_e = self.entries@;
        let ghost e0 = (k@, v.deep_view());
        let mut e: Vec<(String, V)> = Vec::new();
        std::mem::swap(&mut e, &mut self.entries);
        assert(e@ == old_e);
        let ghost kv = k@;
        e.insert(i, (k, v));
        assert(entry_keys_unique(e@)) by {
            assert forall|a: int, b: int| 0 <= a < b < e@.len() implies e@[a].0@ != e@[b].0@ by {
                if a != i && b != i {
                    let oa = if a < i { a } else { a - 1 };
                    let ob = if b < i { b } else { b - 1 };
                    assert(e@[a] == old_e[oa]);
                    assert(e@[b] == old_e[ob]);
                } else if a == i {
                    let ob = b - 1;
                    assert(e@[b] == old_e[ob]);
                    assert(old_d[ob].0 == old_e[ob].0@);
                } else {
                    let oa = if a < i { a } else { a - 1 };
                    assert(e@[a] == old_e[oa]);
                    assert(old_d[oa].0 == old_e[oa].0@);
                }
            }
        }
        self.entries = e;
        proof {
            use_type_invariant(&*self);
            lemma_view_unique(self.entries@);
        }
        assert(self.deep_view() =~= old_d.insert(i as int, e0));
    }

    /// Sets the value of `k`, keeping its position when it is already present.
    pub fn insert(&mut self, k: String, v: V)
        ensures
            final(self).deep_view() == al_insert(old(self).deep_view(), k@, v.deep_view()),
            al_unique(final(self).deep_view()),
    {
        proof {
            use_type_invariant(&*self);
        }
        let ghost old_d = self.deep_view();
        let ghost old_e = self.entries@;
        proof {
            lemma_al_find(old_d, k@);
        }
        let found = self.find(k.as_str());
        let mut e: Vec<(String, V)> = Vec::new();
        std::mem::swap(&mut e, &mut self.entries);
        assert(e@ == old_e);
        let ghost kv = k@;
        let ghost vd = v.deep_view();
        match found {
            Some(i) => {
                e.set(i, (k, v));
                assert(entry_keys_unique(e@)) by {
                    assert forall|a: int, b: int| 0 <= a < b < e@.len() implies e@[a].0@
                        != e@[b].0@ by {
                        assert(old_d[i as int].0 == old_e[i as int].0@);
                        if a != i {
                            assert(e@[a] == old_e[a]);
                        }
                        if b != i {
                            assert(e@[b] == old_e[b]);
                        }
                    }
                }
                self.entries = e;
        proof {
            use_type_invariant(&*self);
            lemma_view_unique(self.entries@);
        }
                assert(self.deep_view() =~= old_d.update(i as int, (kv, vd)));
            },
            None => {
                e.push((k, v));
                assert(entry_keys_unique(e@)) by {
                    assert forall|a: int, b: int| 0 <= a < b < e@.len() implies e@[a].0@
                        != e@[b].0@ by {
                        assert(e@[a] == old_e[a]);
                        if b < old_e.len() {
                            assert(e@[b] == old_e[b]);
                        } else {
                            assert(old_d[a].0 == old_e[a].0@);
                        }
                    }
                }
                self.entries = e;
        proof {
            use_type_invariant(&*self);
            lemma_view_unique(self.entries@);
        }
                assert(self.deep_view() =~= old_d.push((kv, vd)));
            },
        }
    }
}

} // verus!
