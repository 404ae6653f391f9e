//! Sequences of keyed entries seen as maps, with the lemmas that keep keys unique.
use vstd::prelude::*;

verus! {

/// A sequence of entries, each under a key.
pub type Keyed<V> = Seq<(Seq<char>, V)>;

pub open spec fn has_key<V>(s: Keyed<V>, k: Seq<char>) -> bool {
    exists|i: int| 0 <= i < s.len() && (#[trigger] s[i]).0 == k
}

pub open spec fn keys_unique<V>(s: Keyed<V>) -> bool {
    forall|i: int, j: int|
        0 <= i < s.len() && 0 <= j < s.len() && i != j ==> (#[trigger] s[i]).0 != (#[trigger] s[j]).0
}

pub open spec fn entry_of<V>(s: Keyed<V>, k: Seq<char>) -> V {
    s[choose|i: int| 0 <= i < s.len() && (#[trigger] s[i]).0 == k].1
}

/// The entries of `s` by key.
pub open spec fn by_key<V>(s: Keyed<V>) -> Map<Seq<char>, V> {
    Map::new(|k: Seq<char>| has_key(s, k), |k: Seq<char>| entry_of(s, k))
}

pub proof fn lemma_by_key_at<V>(s: Keyed<V>, i: int)
    requires
        keys_unique(s),
        0 <= i < s.len(),
    ensures
        by_key(s).contains_key(s[i].0),
        by_key(s)[s[i].0] == s[i].1,
{
    assert(has_key(s, s[i].0));
    let j = choose|j: int| 0 <= j < s.len() && (#[trigger] s[j]).0 == s[i].0;
    assert(s[j].0 == s[i].0);
}

pub proof fn lemma_by_key_absent<V>(s: Keyed<V>, k: Seq<char>)
    requires
        forall|i: int| 0 <= i < s.len() ==> (#[trigger] s[i]).0 != k,
    ensures
        !by_key(s).contains_key(k),
{
}

pub proof fn lemma_by_key_push<V>(s: Keyed<V>, k: Seq<char>, v: V)
    requires
        keys_unique(s),
        !by_key(s).contains_key(k),
    ensures
        keys_unique(s.push((k, v))),
        by_key(s.push((k, v))) == by_key(s).insert(k, v),
{
    let t = s.push((k, v));
    assert forall|i: int, j: int|
        0 <= i < t.len() && 0 <= j < t.len() && i != j implies (#[trigger] t[i]).0 != (
        #[trigger] t[j]).0 by {
        if i == s.len() {
            assert(t[j] == s[j]);
            assert(!has_key(s, k));
        } else if j == s.len() {
            assert(t[i] == s[i]);
            assert(!has_key(s, k));
        } else {
            assert(t[i] == s[i] && t[j] == s[j]);
        }
    }
    assert forall|x: Seq<char>| #[trigger] has_key(t, x) == (has_key(s, x) || x == k) by {
        if has_key(t, x) {
            let i = choose|i: int| 0 <= i < t.len() && (#[trigger] t[i]).0 == x;
            if i < s.len() {
                assert(s[i] == t[i]);
            }
        }
        if has_key(s, x) {
            let i = choose|i: int| 0 <= i < s.len() && (#[trigger] s[i]).0 == x;
            assert(t[i] == s[i]);
        }
        if x == k {
            assert(t[s.len() as int].0 == k);
        }
    }
    assert forall|x: Seq<char>| #[trigger]
        by_key(t).contains_key(x) implies by_key(t)[x] == by_key(s).insert(k, v)[x] by {
        let i = choose|i: int| 0 <= i < t.len() && (#[trigger] t[i]).0 == x;
        lemma_by_key_at(t, i);
        if i < s.len() {
            assert(t[i] == s[i]);
            lemma_by_key_at(s, i);
        }
    }
    assert(by_key(t) =~= by_key(s).insert(k, v));
}

pub proof fn lemma_by_key_update<V>(s: Keyed<V>, i: int, v: V)
    requires
        keys_unique(s),
        0 <= i < s.len(),
    ensures
        keys_unique(s.update(i, (s[i].0, v))),
        by_key(s.update(i, (s[i].0, v))) == by_key(s).insert(s[i].0, v),
{
    let k = s[i].0;
    let t = s.update(i, (k, v));
    assert forall|a: int, b: int|
        0 <= a < t.len() && 0 <= b < t.len() && a != b implies (#[trigger] t[a]).0 != (
        #[trigger] t[b]).0 by {
        assert(t[a].0 == s[a].0 && t[b].0 == s[b].0);
    }
    assert forall|x: Seq<char>| #[trigger] has_key(t, x) == has_key(s, x) by {
        if has_key(t, x) {
            let j = choose|j: int| 0 <= j < t.len() && (#[trigger] t[j]).0 == x;
            assert(s[j].0 == x);
        }
        if has_key(s, x) {
            let j = choose|j: int| 0 <= j < s.len() && (#[trigger] s[j]).0 == x;
            assert(t[j].0 == x);
        }
    }
    lemma_by_key_at(s, i);
    assert forall|x: Seq<char>| #[trigger]
        by_key(t).contains_key(x) implies by_key(t)[x] == by_key(s).insert(k, v)[x] by {
        let j = choose|j: int| 0 <= j < t.len() && (#[trigger] t[j]).0 == x;
        lemma_by_key_at(t, j);
        if j != i {
            lemma_by_key_at(s, j);
        }
    }
    assert(by_key(t) =~= by_key(s).insert(k, v));
}

pub proof fn lemma_by_key_remove<V>(s: Keyed<V>, i: int)
    requires
        keys_unique(s),
        0 <= i < s.len(),
    ensures
        keys_unique(s.remove(i)),
        by_key(s.remove(i)) == by_key(s).remove(s[i].0),
{
    let k = s[i].0;
    let t = s.remove(i);
    assert forall|j: int| 0 <= j < t.len() implies #[trigger] t[j] == s[
        if j < i {
            j
        } else {
            j + 1
        }
    ] by {}
    assert forall|a: int, b: int|
        0 <= a < t.len() && 0 <= b < t.len() && a != b implies (#[trigger] t[a]).0 != (
        #[trigger] t[b]).0 by {
        let aa = if a < i {
            a
        } else {
            a + 1
        };
        let bb = if b < i {
            b
        } else {
            b + 1
        };
        assert(t[a] == s[aa] && t[b] == s[bb]);
    }
    assert forall|x: Seq<char>| #[trigger] has_key(t, x) == (has_key(s, x) && x != k) by {
        if has_key(t, x) {
            let j = choose|j: int| 0 <= j < t.len() && (#[trigger] t[j]).0 == x;
            let jj = if j < i {
                j
            } else {
                j + 1
            };
            assert(s[jj] == t[j]);
            assert(jj != i);
        }
        if has_key(s, x) && x != k {
            let j = choose|j: int| 0 <= j < s.len() && (#[trigger] s[j]).0 == x;
            assert(j != i);
            let jj = if j < i {
                j
            } else {
                j - 1
            };
            assert(t[jj] == s[j]);
        }
    }
    assert forall|x: Seq<char>| #[trigger]
        by_key(t).contains_key(x) implies by_key(t)[x] == by_key(s).remove(k)[x] by {
        let j = choose|j: int| 0 <= j < t.len() && (#[trigger] t[j]).0 == x;
        lemma_by_key_at(t, j);
        let jj = if j < i {
            j
        } else {
            j + 1
        };
        assert(s[jj] == t[j]);
        lemma_by_key_at(s, jj);
    }
    assert(by_key(t) =~= by_key(s).remove(k));
}

} // verus!
