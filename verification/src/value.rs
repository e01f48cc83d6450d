//! Semi-structured record values and the ordered object map they carry.

use vstd::prelude::*;

verus! {

/// A record value: the tagged union that flows through a processor chain.
///
/// A floating-point number is carried as the bit pattern of an IEEE-754
/// double, so that the value can be stored and moved without arithmetic.
#[derive(Debug)]
pub enum Value {
    Null,
    Bool(bool),
    Int(i64),
    FloatBits(u64),
    Str(String),
    Bytes(Vec<u8>),
    Array(Vec<Value>),
    Object(ObjectMap),
}

/// An object map: string keys to record values, in insertion order.
///
/// The map is an ordered association list; `wf` says the keys are distinct.
#[derive(Debug)]
pub struct ObjectMap {
    entries: Vec<(String, Value)>,
}

/// True when `s` binds the key `k`.
pub open spec fn assoc_has_key(s: Seq<(Seq<char>, Value)>, k: Seq<char>) -> bool {
    exists|i: int| 0 <= i < s.len() && (#[trigger] s[i]).0 == k
}

/// The position at which `s` binds `k`; meaningful only when it does.
pub open spec fn assoc_index_of(s: Seq<(Seq<char>, Value)>, k: Seq<char>) -> int {
    choose|i: int| 0 <= i < s.len() && (#[trigger] s[i]).0 == k
}

/// The value bound to `k`; meaningful only when `s` binds it.
pub open spec fn assoc_get(s: Seq<(Seq<char>, Value)>, k: Seq<char>) -> Value {
    s[assoc_index_of(s, k)].1
}

/// True when no key occurs twice in `s`.
pub open spec fn assoc_unique(s: Seq<(Seq<char>, Value)>) -> bool {
    forall|i: int, j: int|
        #![trigger s[i], s[j]]
        0 <= i < j < s.len() ==> s[i].0 != s[j].0
}

/// Binding `k` to `v`: the entry for `k` is replaced in place, or appended
/// when `k` is new.
pub open spec fn assoc_insert(
    s: Seq<(Seq<char>, Value)>,
    k: Seq<char>,
    v: Value,
) -> Seq<(Seq<char>, Value)> {
    if assoc_has_key(s, k) {
        s.update(assoc_index_of(s, k), (k, v))
    } else {
        s.push((k, v))
    }
}

/// Unbinding `k`: the entry for `k` is removed; without one, `s` is unchanged.
pub open spec fn assoc_remove(s: Seq<(Seq<char>, Value)>, k: Seq<char>) -> Seq<
    (Seq<char>, Value),
> {
    if assoc_has_key(s, k) {
        s.remove(assoc_index_of(s, k))
    } else {
        s
    }
}

/// The predicate holding of entries whose key's membership in `ks` is `keep`.
pub open spec fn key_filter_pred(ks: Seq<Seq<char>>, keep: bool) -> spec_fn((Seq<char>, Value)) -> bool {
    |e: (Seq<char>, Value)| ks.contains(e.0) == keep
}

/// The entries of `s` whose key's membership in `ks` equals `keep`, in order.
pub open spec fn assoc_filter_keys(
    s: Seq<(Seq<char>, Value)>,
    ks: Seq<Seq<char>>,
    keep: bool,
) -> Seq<(Seq<char>, Value)> {
    s.filter(key_filter_pred(ks, keep))
}

/// Compares two string slices.
///
/// Relies on `<str as PartialEq>::eq`, which holds exactly when the two
/// slices are the same sequence of bytes, hence of characters.
#[verifier::external_body]
pub(crate) fn str_eq(a: &str, b: &str) -> (r: bool)
    ensures
        r == (a@ == b@),
{
    a == b
}

impl ObjectMap {
    /// The entries as (key, value) pairs over key views.
    pub closed spec fn entries_view(&self) -> Seq<(Seq<char>, Value)> {
        self.entries@.map(|i: int, e: (String, Value)| (e.0@, e.1))
    }

    /// Well-formed: all keys distinct.
    pub open spec fn wf(&self) -> bool {
        assoc_unique(self.entries_view())
    }

    pub open spec fn has_key(&self, k: Seq<char>) -> bool {
        assoc_has_key(self.entries_view(), k)
    }

    pub open spec fn spec_get(&self, k: Seq<char>) -> Value {
        assoc_get(self.entries_view(), k)
    }

    /// An empty map.
    pub fn new() -> (r: Self)
        ensures
            r.entries_view() == Seq::<(Seq<char>, Value)>::empty(),
            r.wf(),
    {
        ObjectMap { entries: Vec::new() }
    }

    /// The number of entries.
    pub fn len(&self) -> (r: usize)
        ensures
            r == self.entries_view().len(),
    {
        self.entries.len()
    }

    /// The position of the entry for `key`, if the map binds it.
    fn position_of(&self, key: &str) -> (r: Option<usize>)
        requires
            self.wf(),
        ensures
            match r {
                Some(i) => self.has_key(key@) && i == assoc_index_of(self.entries_view(), key@)
                    && 0 <= i < self.entries_view().len(),
                None => !self.has_key(key@),
            },
    {
        let n = self.entries.len();
        let mut i: usize = 0;
        while i < n
            invariant
                self.wf(),
                n == self.entries_view().len(),
                n == self.entries@.len(),
                0 <= i <= n,
                forall|j: int| 0 <= j < i ==> (#[trigger] self.entries_view()[j]).0 != key@,
            decreases n - i,
        {
            if str_eq(self.entries[i].0.as_str(), key) {
                proof {
                    let s = self.entries_view();
                    assert(s[i as int] == (self.entries@[i as int].0@, self.entries@[i as int].1));
                    assert(s[i as int].0 == key@);
                    let j = assoc_index_of(s, key@);
                    assert(0 <= j < s.len() && s[j].0 == key@);
                    assert(j == i as int);
                }
                return Some(i);
            }
            proof {
                let s = self.entries_view();
                assert(s[i as int] == (self.entries@[i as int].0@, self.entries@[i as int].1));
            }
            i += 1;
        }
        None
    }

    /// True when the map binds `key`.
    pub fn contains_key(&self, key: &str) -> (r: bool)
        requires
            self.wf(),
        ensures
            r == self.has_key(key@),
    {
        self.position_of(key).is_some()
    }

    /// The value bound to `key`, if any.
    pub fn get(&self, key: &str) -> (r: Option<&Value>)
        requires
            self.wf(),
        ensures
            match r {
                Some(v) => self.has_key(key@) && *v == self.spec_get(key@),
                None => !self.has_key(key@),
            },
    {
        match self.position_of(key) {
            Some(i) => Some(&self.entries[i].1),
            None => None,
        }
    }

    /// Binds `key` to `value`, replacing any earlier binding in place.
    pub fn insert(&mut self, key: String, value: Value)
        requires
            old(self).wf(),
        ensures
            final(self).entries_view() == assoc_insert(old(self).entries_view(), key@, value),
            final(self).wf(),
    {
        match self.position_of(key.as_str()) {
            Some(i) => {
                self.entries[i] = (key, value);
                proof {
                    let olds = old(self).entries_view();
                    let news = self.entries_view();
                    assert forall|j: int| 0 <= j < news.len() implies news[j] == assoc_insert(
                        olds,
                        key@,
                        value,
                    )[j] by {
                        assert(news[j] == (self.entries@[j].0@, self.entries@[j].1));
                        assert(olds[j] == (old(self).entries@[j].0@, old(self).entries@[j].1));
                    }
                    assert(news =~= assoc_insert(olds, key@, value));
                    assert forall|p: int, q: int|
                        #![trigger news[p], news[q]]
                        0 <= p < q < news.len() implies news[p].0 != news[q].0 by {
                        assert(olds[p].0 != olds[q].0);
                    }
                }
            },
            None => {
                self.entries.push((key, value));
                proof {
                    let olds = old(self).entries_view();
                    let news = self.entries_view();
                    assert forall|j: int| 0 <= j < news.len() implies news[j] == assoc_insert(
                        olds,
                        key@,
                        value,
                    )[j] by {
                        assert(news[j] == (self.entries@[j].0@, self.entries@[j].1));
                        if j < olds.len() {
                            assert(olds[j] == (old(self).entries@[j].0@, old(self).entries@[j].1));
                        }
                    }
                    assert(news =~= assoc_insert(olds, key@, value));
                    assert forall|p: int, q: int|
                        #![trigger news[p], news[q]]
                        0 <= p < q < news.len() implies news[p].0 != news[q].0 by {
                        if q < olds.len() {
                            assert(olds[p].0 != olds[q].0);
                        } else {
                            assert(news[q].0 == key@);
                            assert(olds[p] == news[p]);
                            assert(!assoc_has_key(olds, key@));
                        }
                    }
                }
            },
        }
    }

    /// Unbinds `key`, returning the value it was bound to, if any.
    pub fn remove(&mut self, key: &str) -> (r: Option<Value>)
        requires
            old(self).wf(),
        ensures
            final(self).entries_view() == assoc_remove(old(self).entries_view(), key@),
            final(self).wf(),
            match r {
                Some(v) => old(self).has_key(key@) && v == old(self).spec_get(key@),
                None => !old(self).has_key(key@),
            },
    {
        match self.position_of(key) {
            Some(i) => {
                let e = self.entries.remove(i);
                proof {
                    let olds = old(self).entries_view();
                    let news = self.entries_view();
                    assert forall|j: int| 0 <= j < news.len() implies news[j] == assoc_remove(
                        olds,
                        key@,
                    )[j] by {
                        assert(news[j] == (self.entries@[j].0@, self.entries@[j].1));
                        if j < i {
                            assert(olds[j] == (old(self).entries@[j].0@, old(self).entries@[j].1));
                        } else {
                            assert(olds[j + 1] == (
                                old(self).entries@[j + 1].0@,
                                old(self).entries@[j + 1].1,
                            ));
                        }
                    }
                    assert(news =~= assoc_remove(olds, key@));
                    assert forall|p: int, q: int|
                        #![trigger news[p], news[q]]
                        0 <= p < q < news.len() implies news[p].0 != news[q].0 by {
                        let olds_p: int = if p < i { p } else { p + 1 };
                        let olds_q: int = if q < i { q } else { q + 1 };
                        assert(olds[olds_p].0 != olds[olds_q].0);
                    }
                }
                Some(e.1)
            },
            None => None,
        }
    }

    /// Keeps exactly the entries whose key reads as one of `keys`.
    pub fn retain_keys(&mut self, keys: &Vec<String>)
        ensures
            final(self).entries_view() == assoc_filter_keys(
                old(self).entries_view(),
                keys.deep_view(),
                true,
            ),
            old(self).wf() ==> final(self).wf(),
    {
        self.retain_by(keys, true)
    }

    /// Drops exactly the entries whose key reads as one of `keys`.
    pub fn remove_keys(&mut self, keys: &Vec<String>)
        ensures
            final(self).entries_view() == assoc_filter_keys(
                old(self).entries_view(),
                keys.deep_view(),
                false,
            ),
            old(self).wf() ==> final(self).wf(),
    {
        self.retain_by(keys, false)
    }

    /// Keeps the entries whose membership in `keys` equals `keep_matching`.
    fn retain_by(&mut self, keys: &Vec<String>, keep_matching: bool)
        ensures
            final(self).entries_view() == assoc_filter_keys(
                old(self).entries_view(),
                keys.deep_view(),
                keep_matching,
            ),
            old(self).wf() ==> final(self).wf(),
    {
        let ghost pred = key_filter_pred(keys.deep_view(), keep_matching);
        let ghost olds = old(self).entries_view();
        let ghost n: int = olds.len() as int;
        let mut src: Vec<(String, Value)> = Vec::new();
        core::mem::swap(&mut self.entries, &mut src);
        proof {
            assert(self.entries_view() =~= Seq::<(Seq<char>, Value)>::empty());
            assert(olds.take(0) =~= Seq::<(Seq<char>, Value)>::empty());
            reveal(Seq::filter);
            assert(self.entries_view() == olds.take(0).filter(pred));
        }
        while src.len() > 0
            invariant
                n == olds.len(),
                src@.len() <= n,
                pred == key_filter_pred(keys.deep_view(), keep_matching),
                olds == old(self).entries_view(),
                src@ == old(self).entries@.skip(n - src@.len()),
                self.entries_view() == olds.take(n - src@.len()).filter(pred),
            decreases src@.len(),
    {
            let ghost k: int = n - src@.len();
            let ghost src0 = src@;
            let ghost prev = self.entries_view();
            let e = src.remove(0);
            proof {
                assert(e == src0[0]);
                assert(src0[0] == old(self).entries@[k]);
                assert(olds[k] == (old(self).entries@[k].0@, old(self).entries@[k].1));
                assert(src@ =~= old(self).entries@.skip(k + 1));
            }
            let keep = contains_string(keys, e.0.as_str());
            let ghost ev = (e.0@, e.1);
            proof {
                assert(ev == olds[k]);
                assert(pred(ev) == (keys.deep_view().contains(ev.0) == keep_matching));
            }
            if keep == keep_matching {
                self.entries.push(e);
                proof {
                    assert(self.entries_view() =~= prev.push(ev));
                }
            }
            proof {
                assert(olds.take(k + 1) =~= olds.take(k) + seq![olds[k]]);
                Seq::filter_distributes_over_add(olds.take(k), seq![olds[k]], pred);
                reveal_with_fuel(Seq::filter, 2);
                assert(seq![ev].drop_last() =~= Seq::<(Seq<char>, Value)>::empty());
                if pred(ev) {
                    assert(seq![ev].filter(pred) =~= seq![ev]);
                    assert(self.entries_view() =~= olds.take(k + 1).filter(pred));
                } else {
                    assert(seq![ev].filter(pred) =~= Seq::<(Seq<char>, Value)>::empty());
                    assert(self.entries_view() =~= olds.take(k + 1).filter(pred));
                }
            }
        }
        proof {
            assert(olds.take(n) =~= olds);
            if old(self).wf() {
                lemma_assoc_filter_unique(olds, pred);
            }
        }
    }
}

/// Looks `k` up among `keys`.
fn contains_string(keys: &Vec<String>, k: &str) -> (r: bool)
    ensures
        r == keys.deep_view().contains(k@),
{
    let n = keys.len();
    let mut i: usize = 0;
    while i < n
        invariant
            n == keys@.len(),
            0 <= i <= n,
            forall|j: int| 0 <= j < i ==> (#[trigger] keys@[j])@ != k@,
        decreases n - i,
    {
        if str_eq(keys[i].as_str(), k) {
            proof {
                assert(keys.deep_view()[i as int] == keys@[i as int]@);
            }
            return true;
        }
        i += 1;
    }
    proof {
        assert forall|j: int| 0 <= j < keys.deep_view().len() implies keys.deep_view()[j] != k@ by {
            assert(keys.deep_view()[j] == keys@[j]@);
        }
    }
    false
}

/// Filtering an association list with distinct keys keeps the keys distinct,
/// and keeps only entries that stood in the list it was given.
pub proof fn lemma_assoc_filter_unique(s: Seq<(Seq<char>, Value)>, pred: spec_fn((Seq<char>, Value)) -> bool)
    requires
        assoc_unique(s),
    ensures
        assoc_unique(s.filter(pred)),
        forall|i: int|
            0 <= i < s.filter(pred).len() ==> exists|j: int|
                0 <= j < s.len() && #[trigger] s.filter(pred)[i] == s[j],
    decreases s.len(),
{
    reveal(Seq::filter);
    if s.len() > 0 {
        let dl = s.drop_last();
        let last = s.last();
        lemma_assoc_filter_unique(dl, pred);
        let fdl = dl.filter(pred);
        if pred(last) {
            let f = s.filter(pred);
            assert(f == fdl.push(last));
            assert forall|i: int| 0 <= i < f.len() implies exists|j: int|
                0 <= j < s.len() && #[trigger] f[i] == s[j] by {
                if i < fdl.len() {
                    let j = choose|j: int| 0 <= j < dl.len() && #[trigger] fdl[i] == dl[j];
                    assert(f[i] == s[j]);
                } else {
                    assert(f[i] == s[s.len() - 1]);
                }
            }
            assert forall|p: int, q: int|
                #![trigger f[p], f[q]]
                0 <= p < q < f.len() implies f[p].0 != f[q].0 by {
                if q < fdl.len() {
                    assert(fdl[p].0 != fdl[q].0);
                } else {
                    let j = choose|j: int| 0 <= j < dl.len() && #[trigger] fdl[p] == dl[j];
                    assert(s[j].0 != s[s.len() - 1].0);
                }
            }
        } else {
            assert forall|i: int| 0 <= i < s.filter(pred).len() implies exists|j: int|
                0 <= j < s.len() && #[trigger] s.filter(pred)[i] == s[j] by {
                let j = choose|j: int| 0 <= j < dl.len() && #[trigger] fdl[i] == dl[j];
                assert(s.filter(pred)[i] == s[j]);
            }
        }
    }
}


/// Removing a key from an association list with distinct keys keeps the
/// keys distinct, unbinds exactly that key, and leaves every other binding.
pub proof fn lemma_assoc_remove_props(s: Seq<(Seq<char>, Value)>, k: Seq<char>)
    requires
        assoc_unique(s),
    ensures
        assoc_unique(assoc_remove(s, k)),
        !assoc_has_key(assoc_remove(s, k), k),
        forall|k2: Seq<char>|
            k2 != k ==> #[trigger] assoc_has_key(assoc_remove(s, k), k2) == assoc_has_key(s, k2),
        forall|k2: Seq<char>|
            k2 != k && assoc_has_key(s, k2) ==> #[trigger] assoc_get(assoc_remove(s, k), k2)
                == assoc_get(s, k2),
{
    if assoc_has_key(s, k) {
        let i = assoc_index_of(s, k);
        assert(0 <= i < s.len() && s[i].0 == k);
        let t = s.remove(i);
        assert forall|p: int, q: int|
            #![trigger t[p], t[q]]
            0 <= p < q < t.len() implies t[p].0 != t[q].0 by {
            let sp: int = if p < i { p } else { p + 1 };
            let sq: int = if q < i { q } else { q + 1 };
            assert(t[p] == s[sp]);
            assert(t[q] == s[sq]);
            assert(s[sp].0 != s[sq].0);
        }
        assert forall|j: int| 0 <= j < t.len() implies (#[trigger] t[j]).0 != k by {
            let sj: int = if j < i { j } else { j + 1 };
            assert(t[j] == s[sj]);
            if sj != i {
                assert(s[sj].0 != s[i].0);
            }
        }
        assert forall|k2: Seq<char>| k2 != k implies #[trigger] assoc_has_key(t, k2)
            == assoc_has_key(s, k2) by {
            if assoc_has_key(t, k2) {
                let j = choose|j: int| 0 <= j < t.len() && (#[trigger] t[j]).0 == k2;
                let sj: int = if j < i { j } else { j + 1 };
                assert(t[j] == s[sj]);
                assert(assoc_has_key(s, k2));
            }
            if assoc_has_key(s, k2) {
                let j = choose|j: int| 0 <= j < s.len() && (#[trigger] s[j]).0 == k2;
                assert(j != i);
                let tj: int = if j < i { j } else { j - 1 };
                assert(t[tj] == s[j]);
                assert(assoc_has_key(t, k2));
            }
        }
        assert forall|k2: Seq<char>| k2 != k && assoc_has_key(s, k2) implies #[trigger] assoc_get(
            t,
            k2,
        ) == assoc_get(s, k2) by {
            let j = assoc_index_of(s, k2);
            assert(0 <= j < s.len() && s[j].0 == k2);
            assert(j != i);
            let tj: int = if j < i { j } else { j - 1 };
            assert(t[tj] == s[j]);
            let j2 = assoc_index_of(t, k2);
            assert(0 <= j2 < t.len() && t[j2].0 == k2);
            if j2 != tj {
                assert(t[j2].0 != t[tj].0);
            }
        }
    }
}

/// Binding a key in an association list with distinct keys keeps the keys
/// distinct, binds exactly that key to the value, and leaves every other
/// binding.
pub proof fn lemma_assoc_insert_props(s: Seq<(Seq<char>, Value)>, k: Seq<char>, v: Value)
    requires
        assoc_unique(s),
    ensures
        assoc_unique(assoc_insert(s, k, v)),
        assoc_has_key(assoc_insert(s, k, v), k),
        assoc_insert(s, k, v)[assoc_index_of(assoc_insert(s, k, v), k)] == (k, v),
        forall|k2: Seq<char>|
            k2 != k ==> #[trigger] assoc_has_key(assoc_insert(s, k, v), k2) == assoc_has_key(
                s,
                k2,
            ),
        forall|k2: Seq<char>|
            k2 != k && assoc_has_key(s, k2) ==> #[trigger] assoc_get(assoc_insert(s, k, v), k2)
                == assoc_get(s, k2),
{
    let t = assoc_insert(s, k, v);
    if assoc_has_key(s, k) {
        let i = assoc_index_of(s, k);
        assert(0 <= i < s.len() && s[i].0 == k);
        assert(t == s.update(i, (k, v)));
        assert forall|p: int, q: int|
            #![trigger t[p], t[q]]
            0 <= p < q < t.len() implies t[p].0 != t[q].0 by {
            assert(s[p].0 != s[q].0);
        }
        assert(t[i] == (k, v));
        let i2 = assoc_index_of(t, k);
        assert(0 <= i2 < t.len() && t[i2].0 == k);
        if i2 != i {
            assert(t[i2].0 != t[i].0);
        }
        assert forall|k2: Seq<char>| k2 != k implies #[trigger] assoc_has_key(t, k2)
            == assoc_has_key(s, k2) by {
            if assoc_has_key(t, k2) {
                let j = choose|j: int| 0 <= j < t.len() && (#[trigger] t[j]).0 == k2;
                assert(j != i);
                assert(t[j] == s[j]);
                assert(assoc_has_key(s, k2));
            }
            if assoc_has_key(s, k2) {
                let j = choose|j: int| 0 <= j < s.len() && (#[trigger] s[j]).0 == k2;
                assert(j != i);
                assert(t[j] == s[j]);
                assert(assoc_has_key(t, k2));
            }
        }
        assert forall|k2: Seq<char>| k2 != k && assoc_has_key(s, k2) implies #[trigger] assoc_get(
            t,
            k2,
        ) == assoc_get(s, k2) by {
            let j = assoc_index_of(s, k2);
            assert(0 <= j < s.len() && s[j].0 == k2);
            assert(j != i);
            assert(t[j] == s[j]);
            let j2 = assoc_index_of(t, k2);
            assert(0 <= j2 < t.len() && t[j2].0 == k2);
            if j2 != j {
                assert(t[j2].0 != t[j].0);
            }
        }
    } else {
        assert(t == s.push((k, v)));
        assert(t[s.len() as int] == (k, v));
        assert(assoc_has_key(t, k));
        assert forall|p: int, q: int|
            #![trigger t[p], t[q]]
            0 <= p < q < t.len() implies t[p].0 != t[q].0 by {
            if q < s.len() {
                assert(s[p].0 != s[q].0);
            } else {
                assert(t[p] == s[p]);
                assert(t[q].0 == k);
                assert(!assoc_has_key(s, k));
            }
        }
        let i2 = assoc_index_of(t, k);
        assert(0 <= i2 < t.len() && t[i2].0 == k);
        if i2 != s.len() as int {
            assert(t[i2] == s[i2]);
            assert(assoc_has_key(s, k));
        }
        assert forall|k2: Seq<char>| k2 != k implies #[trigger] assoc_has_key(t, k2)
            == assoc_has_key(s, k2) by {
            if assoc_has_key(t, k2) {
                let j = choose|j: int| 0 <= j < t.len() && (#[trigger] t[j]).0 == k2;
                assert(j != s.len() as int);
                assert(t[j] == s[j]);
                assert(assoc_has_key(s, k2));
            }
            if assoc_has_key(s, k2) {
                let j = choose|j: int| 0 <= j < s.len() && (#[trigger] s[j]).0 == k2;
                assert(t[j] == s[j]);
                assert(assoc_has_key(t, k2));
            }
        }
        assert forall|k2: Seq<char>| k2 != k && assoc_has_key(s, k2) implies #[trigger] assoc_get(
            t,
            k2,
        ) == assoc_get(s, k2) by {
            let j = assoc_index_of(s, k2);
            assert(0 <= j < s.len() && s[j].0 == k2);
            assert(t[j] == s[j]);
            let j2 = assoc_index_of(t, k2);
            assert(0 <= j2 < t.len() && t[j2].0 == k2);
            if j2 != j {
                if j2 == s.len() as int {
                    assert(t[j2].0 == k);
                } else {
                    assert(t[j2].0 != t[j].0);
                }
            }
        }
    }
}

/// Filtering by a predicate that no element satisfies leaves nothing.
pub proof fn lemma_filter_none(
    s: Seq<(Seq<char>, Value)>,
    pred: spec_fn((Seq<char>, Value)) -> bool,
)
    requires
        forall|j: int| 0 <= j < s.len() ==> !pred(#[trigger] s[j]),
    ensures
        s.filter(pred) =~= Seq::<(Seq<char>, Value)>::empty(),
    decreases s.len(),
{
    reveal(Seq::filter);
    if s.len() > 0 {
        lemma_filter_none(s.drop_last(), pred);
    }
}

/// Filtering by a predicate that exactly one element satisfies leaves
/// exactly that element.
pub proof fn lemma_filter_single(
    s: Seq<(Seq<char>, Value)>,
    pred: spec_fn((Seq<char>, Value)) -> bool,
    i: int,
)
    requires
        0 <= i < s.len(),
        pred(s[i]),
        forall|j: int| 0 <= j < s.len() && j != i ==> !pred(#[trigger] s[j]),
    ensures
        s.filter(pred) =~= seq![s[i]],
    decreases s.len(),
{
    reveal(Seq::filter);
    if i == s.len() - 1 {
        lemma_filter_none(s.drop_last(), pred);
    } else {
        lemma_filter_single(s.drop_last(), pred, i);
    }
}

} // verus!
