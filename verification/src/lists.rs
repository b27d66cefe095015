//! Lists of texts, and tables from texts to values.

use vstd::prelude::*;

use crate::manifest::{pair_texts, string_texts};
use crate::text::same_str;

verus! {

/// Place of the first entry with the key `k`; the length if there is none.
pub open spec fn key_at<V>(s: Seq<(Seq<char>, V)>, k: Seq<char>) -> int
    decreases s.len(),
{
    if s.len() == 0 || s[0].0 == k {
        0
    } else {
        1 + key_at(s.skip(1), k)
    }
}

/// Whether a table has the key `k`.
pub open spec fn has_key<V>(s: Seq<(Seq<char>, V)>, k: Seq<char>) -> bool {
    key_at(s, k) < s.len()
}

/// The value of a key: that of its first entry.
pub open spec fn value_at<V>(s: Seq<(Seq<char>, V)>, k: Seq<char>) -> Option<V> {
    if has_key(s, k) { Some(s[key_at(s, k)].1) } else { None }
}

/// A table with the value of one key set.
pub open spec fn with_value<V>(s: Seq<(Seq<char>, V)>, k: Seq<char>, v: V) -> Seq<(Seq<char>, V)> {
    if has_key(s, k) { s.update(key_at(s, k), (k, v)) } else { s.push((k, v)) }
}

/// A table without the entries of one key.
pub open spec fn without_key<V>(s: Seq<(Seq<char>, V)>, k: Seq<char>) -> Seq<(Seq<char>, V)>
    decreases s.len(),
{
    if s.len() == 0 {
        s
    } else {
        let rest = without_key(s.drop_last(), k);
        if s.last().0 == k { rest } else { rest.push(s.last()) }
    }
}

/// Finds where `key_at` points.
pub proof fn lemma_key_at<V>(s: Seq<(Seq<char>, V)>, k: Seq<char>, i: int)
    requires
        0 <= i <= s.len(),
        forall|j: int| 0 <= j < i ==> (#[trigger] s[j]).0 != k,
        i < s.len() ==> s[i].0 == k,
    ensures
        key_at(s, k) == i,
    decreases i,
{
    if i > 0 {
        assert(s[0].0 != k);
        let t = s.skip(1);
        assert forall|j: int| 0 <= j < i - 1 implies (#[trigger] t[j]).0 != k by {
            assert(t[j] == s[j + 1]);
        }
        lemma_key_at(t, k, i - 1);
    }
}

/// What `key_at` points to.
pub proof fn lemma_key_at_props<V>(s: Seq<(Seq<char>, V)>, k: Seq<char>)
    ensures
        0 <= key_at(s, k) <= s.len(),
        key_at(s, k) < s.len() ==> s[key_at(s, k)].0 == k,
        forall|j: int| 0 <= j < key_at(s, k) ==> (#[trigger] s[j]).0 != k,
    decreases s.len(),
{
    if s.len() > 0 && s[0].0 != k {
        lemma_key_at_props(s.skip(1), k);
        assert forall|j: int| 0 <= j < key_at(s, k) implies (#[trigger] s[j]).0 != k by {
            if j > 0 {
                assert(s.skip(1)[j - 1] == s[j]);
            }
        }
    }
}

/// After setting a key, its value is the one that was set and the values of other keys
/// are as before.
pub proof fn law_set_value_is_read<V>(s: Seq<(Seq<char>, V)>, k: Seq<char>, v: V, other: Seq<char>)
    ensures
        value_at(with_value(s, k, v), k) == Some(v),
        other != k ==> value_at(with_value(s, k, v), other) == value_at(s, other),
{
    lemma_key_at_props(s, k);
    lemma_key_at_props(s, other);
    let t = with_value(s, k, v);
    let i = key_at(s, k);
    assert forall|j: int| 0 <= j < i implies (#[trigger] t[j]).0 != k by {
        assert(t[j] == s[j]);
    }
    lemma_key_at(t, k, i);
    if other != k {
        let o = key_at(s, other);
        if o < s.len() {
            assert forall|j: int| 0 <= j < o implies (#[trigger] t[j]).0 != other by {
                assert(s[j].0 != other);
            }
            lemma_key_at(t, other, o);
        } else {
            assert forall|j: int| 0 <= j < t.len() implies (#[trigger] t[j]).0 != other by {
                if j < s.len() {
                    assert(s[j].0 != other);
                }
            }
            lemma_key_at(t, other, t.len() as int);
        }
    }
}

/// Whether no key of a table occurs twice.
pub open spec fn unique_keys<V>(s: Seq<(Seq<char>, V)>) -> bool {
    forall|i: int, j: int| 0 <= i < j < s.len() ==> (#[trigger] s[i]).0 != (#[trigger] s[j]).0
}

/// Setting a value keeps keys unique.
pub proof fn lemma_unique_with_value<V>(s: Seq<(Seq<char>, V)>, k: Seq<char>, v: V)
    requires
        unique_keys(s),
    ensures
        unique_keys(with_value(s, k, v)),
{
    lemma_key_at_props(s, k);
    let t = with_value(s, k, v);
    assert forall|i: int, j: int| 0 <= i < j < t.len() implies (#[trigger] t[i]).0 != (#[trigger] t[j]).0 by {
        if j < s.len() {
            assert(s[i].0 != s[j].0);
        } else {
            assert(s[i].0 != k);
        }
    }
}

/// Setting the keys of a table one by one builds it again.
pub proof fn lemma_rebuilt<V>(s: Seq<(Seq<char>, V)>, n: int)
    requires
        unique_keys(s),
        0 <= n < s.len(),
    ensures
        with_value(s.take(n), s[n].0, s[n].1) == s.take(n + 1),
{
    let front = s.take(n);
    assert forall|j: int| 0 <= j < n implies (#[trigger] front[j]).0 != s[n].0 by {
        assert(s[j].0 != s[n].0);
    }
    lemma_key_at(front, s[n].0, n);
    assert(front.push((s[n].0, s[n].1)) =~= s.take(n + 1));
}

/// A list without the texts equal to `x`.
pub open spec fn without(s: Seq<Seq<char>>, x: Seq<char>) -> Seq<Seq<char>>
    decreases s.len(),
{
    if s.len() == 0 {
        s
    } else {
        let rest = without(s.drop_last(), x);
        if s.last() == x { rest } else { rest.push(s.last()) }
    }
}

/// A list with `x` in it: at its end, unless it was there.
pub open spec fn with_text(s: Seq<Seq<char>>, x: Seq<char>) -> Seq<Seq<char>> {
    if s.contains(x) { s } else { s.push(x) }
}

/// What is left has everything but `x`.
pub proof fn lemma_without(s: Seq<Seq<char>>, x: Seq<char>)
    ensures
        !without(s, x).contains(x),
        forall|y: Seq<char>| y != x ==> (without(s, x).contains(y) <==> #[trigger] s.contains(y)),
        without(s, x).len() <= s.len(),
        (without(s, x).len() == s.len()) == !s.contains(x),
        !s.contains(x) ==> without(s, x) == s,
    decreases s.len(),
{
    if s.len() > 0 {
        let front = s.drop_last();
        lemma_without(front, x);
        let rest = without(front, x);
        let all = without(s, x);
        assert forall|y: Seq<char>| s.contains(y) <==> (front.contains(y) || y == s.last()) by {
            if s.contains(y) {
                let k = choose|k: int| 0 <= k < s.len() && s[k] == y;
                if k < front.len() {
                    assert(front[k] == y);
                }
            }
            if front.contains(y) {
                let k = choose|k: int| 0 <= k < front.len() && front[k] == y;
                assert(s[k] == y);
            }
            if y == s.last() {
                assert(s[s.len() - 1] == y);
            }
        }
        if s.last() != x {
            assert forall|y: Seq<char>| all.contains(y) <==> (rest.contains(y) || y == s.last()) by {
                if all.contains(y) {
                    let k = choose|k: int| 0 <= k < all.len() && all[k] == y;
                    if k < rest.len() {
                        assert(rest[k] == y);
                    }
                }
                if rest.contains(y) {
                    let k = choose|k: int| 0 <= k < rest.len() && rest[k] == y;
                    assert(all[k] == y);
                }
                if y == s.last() {
                    assert(all[all.len() - 1] == y);
                }
            }
        }
        if !s.contains(x) {
            assert(front.push(s.last()) =~= s);
        }
    }
}

/// A copy of a list.
pub fn copy_list(v: &Vec<String>) -> (r: Vec<String>)
    ensures
        r@ == v@,
{
    let mut out: Vec<String> = Vec::new();
    let mut i: usize = 0;
    while i < v.len()
        invariant
            i <= v@.len(),
            out@ == v@.take(i as int),
        decreases v@.len() - i,
    {
        out.push(v[i].clone());
        assert(v@.take(i + 1) =~= v@.take(i as int).push(v@[i as int]));
        i = i + 1;
    }
    assert(v@.take(i as int) =~= v@);
    out
}

/// Whether a list holds a text.
pub fn holds(v: &Vec<String>, x: &str) -> (r: bool)
    ensures
        r == string_texts(v@).contains(x@),
{
    let mut i: usize = 0;
    while i < v.len()
        invariant
            i <= v@.len(),
            forall|j: int| 0 <= j < i ==> (#[trigger] v@[j])@ != x@,
        decreases v@.len() - i,
    {
        if same_str(v[i].as_str(), x) {
            assert(string_texts(v@)[i as int] == x@);
            return true;
        }
        i = i + 1;
    }
    assert forall|j: int| 0 <= j < string_texts(v@).len() implies #[trigger] string_texts(v@)[j] != x@ by {
        assert(v@[j]@ != x@);
    }
    false
}

/// Takes a text out of a list.
pub fn take_out(v: &mut Vec<String>, x: &str)
    ensures
        string_texts(final(v)@) == without(string_texts(old(v)@), x@),
{
    let ghost all = v@;
    let mut out: Vec<String> = Vec::new();
    let mut i: usize = 0;
    assert(string_texts(all.take(0)) =~= Seq::<Seq<char>>::empty());
    assert(string_texts(out@) =~= Seq::<Seq<char>>::empty());
    while i < v.len()
        invariant
            i <= v@.len(),
            v@ == all,
            string_texts(out@) == without(string_texts(all.take(i as int)), x@),
        decreases v@.len() - i,
    {
        let ghost before = out@;
        proof {
            assert(string_texts(all.take(i + 1)).drop_last() =~= string_texts(all.take(i as int)));
            assert(string_texts(all.take(i + 1)).last() == all[i as int]@);
        }
        if !same_str(v[i].as_str(), x) {
            out.push(v[i].clone());
            assert(string_texts(out@) =~= string_texts(before).push(all[i as int]@));
        }
        i = i + 1;
    }
    assert(all.take(i as int) =~= all);
    *v = out;
}

/// Adds a text to a list, unless it is there.
pub fn put_text(v: &mut Vec<String>, x: &str) -> (added: bool)
    ensures
        string_texts(final(v)@) == with_text(string_texts(old(v)@), x@),
        added == !string_texts(old(v)@).contains(x@),
        !added ==> final(v)@ == old(v)@,
{
    if holds(v, x) {
        return false;
    }
    let ghost before = v@;
    v.push(x.to_owned());
    assert(string_texts(v@) =~= string_texts(before).push(x@));
    true
}

/// The value of a key in a table.
pub fn look_up<'a>(v: &'a Vec<(String, String)>, k: &str) -> (r: Option<&'a String>)
    ensures
        match r {
            Some(x) => value_at(pair_texts(v@), k@) == Some(x@),
            None => value_at(pair_texts(v@), k@) is None,
        },
{
    let mut i: usize = 0;
    while i < v.len()
        invariant
            i <= v@.len(),
            forall|j: int| 0 <= j < i ==> (#[trigger] pair_texts(v@)[j]).0 != k@,
        decreases v@.len() - i,
    {
        let e = &v[i];
        if same_str(e.0.as_str(), k) {
            proof {
                lemma_key_at(pair_texts(v@), k@, i as int);
            }
            return Some(&e.1);
        }
        i = i + 1;
    }
    proof {
        lemma_key_at(pair_texts(v@), k@, i as int);
    }
    None
}

/// Sets the value of a key in a table.
pub fn put_value(v: &mut Vec<(String, String)>, k: &str, x: &str)
    ensures
        pair_texts(final(v)@) == with_value(pair_texts(old(v)@), k@, x@),
{
    let ghost all = v@;
    let mut i: usize = 0;
    while i < v.len()
        invariant
            i <= v@.len(),
            v@ == all,
            all == old(v)@,
            forall|j: int| 0 <= j < i ==> (#[trigger] pair_texts(all)[j]).0 != k@,
        decreases v@.len() - i,
    {
        if same_str(v[i].0.as_str(), k) {
            proof {
                lemma_key_at(pair_texts(all), k@, i as int);
            }
            v.set(i, (k.to_owned(), x.to_owned()));
            assert(pair_texts(v@) =~= pair_texts(all).update(i as int, (k@, x@)));
            return;
        }
        i = i + 1;
    }
    proof {
        lemma_key_at(pair_texts(all), k@, i as int);
    }
    v.push((k.to_owned(), x.to_owned()));
    assert(pair_texts(v@) =~= pair_texts(all).push((k@, x@)));
}

} // verus!
