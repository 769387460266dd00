//! Ordering of values by a text key, in the order of `String`.

use vstd::prelude::*;
use crate::text::{text_le, text_less, text_lt, lemma_text_order};

verus! {

broadcast use vstd::seq_lib::to_multiset_remove, vstd::seq_lib::to_multiset_insert;

/// A value ordered by a text key.
pub trait TextKeyed {
    spec fn key_of(&self) -> Seq<char>;

    fn key_text(&self) -> (r: &str)
        ensures
            r@ == self.key_of(),
    ;
}

impl TextKeyed for String {
    open spec fn key_of(&self) -> Seq<char> {
        self@
    }

    fn key_text(&self) -> (r: &str) {
        self.as_str()
    }
}

/// The keys of a sequence, in order.
pub open spec fn keys_of<T: TextKeyed>(s: Seq<T>) -> Seq<Seq<char>> {
    s.map_values(|x: T| x.key_of())
}

/// Every key is no later than the keys that follow it.
pub open spec fn sorted_by_key<T: TextKeyed>(s: Seq<T>) -> bool {
    forall|i: int, j: int| 0 <= i < j < s.len() ==> text_le(#[trigger] s[i].key_of(), #[trigger] s[j].key_of())
}

/// Every key is strictly earlier than the keys that follow it.
pub open spec fn strictly_sorted_by_key<T: TextKeyed>(s: Seq<T>) -> bool {
    forall|i: int, j: int| 0 <= i < j < s.len() ==> text_lt(#[trigger] s[i].key_of(), #[trigger] s[j].key_of())
}

/// `text_le` is transitive.
pub proof fn lemma_text_le_trans(a: Seq<char>, b: Seq<char>, c: Seq<char>)
    requires
        text_le(a, b),
        text_le(b, c),
    ensures
        text_le(a, c),
{
    lemma_text_order(c, b, a);
    lemma_text_order(a, b, c);
    lemma_text_order(b, a, c);
    lemma_text_order(c, a, b);
}

/// Every text is no later than the texts that follow it.
pub open spec fn texts_sorted(s: Seq<Seq<char>>) -> bool {
    forall|i: int, j: int| 0 <= i < j < s.len() ==> text_le(#[trigger] s[i], #[trigger] s[j])
}

/// Two sorted lists of texts that hold the same texts, counted with
/// repetition, are the same list.
pub proof fn lemma_sorted_texts_unique(a: Seq<Seq<char>>, b: Seq<Seq<char>>)
    requires
        texts_sorted(a),
        texts_sorted(b),
        a.to_multiset() == b.to_multiset(),
    ensures
        a == b,
    decreases a.len(),
{
    broadcast use vstd::seq_lib::to_multiset_len, vstd::seq_lib::to_multiset_contains;

    assert(a.len() == a.to_multiset().len());
    assert(b.len() == b.to_multiset().len());
    if a.len() == 0 {
        assert(a =~= b);
    } else {
        let x = a[0];
        let y = b[0];
        assert(a.contains(x));
        assert(a.to_multiset().count(x) > 0);
        assert(b.to_multiset().count(x) > 0);
        assert(b.contains(x));
        let j = choose|j: int| 0 <= j < b.len() && b[j] == x;
        if j > 0 {
            assert(text_le(b[0], b[j]));
        }
        assert(b.contains(y));
        assert(b.to_multiset().count(y) > 0);
        assert(a.to_multiset().count(y) > 0);
        assert(a.contains(y));
        let k = choose|k: int| 0 <= k < a.len() && a[k] == y;
        if k > 0 {
            assert(text_le(a[0], a[k]));
        }
        lemma_text_order(x, y, x);
        assert(x == y);
        assert(a.remove(0) =~= a.drop_first());
        assert(b.remove(0) =~= b.drop_first());
        vstd::seq_lib::to_multiset_remove(a, 0);
        vstd::seq_lib::to_multiset_remove(b, 0);
        assert(texts_sorted(a.drop_first())) by {
            assert forall|i: int, j: int| 0 <= i < j < a.drop_first().len() implies text_le(#[trigger] a.drop_first()[i], #[trigger] a.drop_first()[j]) by {
                assert(a.drop_first()[i] == a[i + 1] && a.drop_first()[j] == a[j + 1]);
            }
        }
        assert(texts_sorted(b.drop_first())) by {
            assert forall|i: int, j: int| 0 <= i < j < b.drop_first().len() implies text_le(#[trigger] b.drop_first()[i], #[trigger] b.drop_first()[j]) by {
                assert(b.drop_first()[i] == b[i + 1] && b.drop_first()[j] == b[j + 1]);
            }
        }
        lemma_sorted_texts_unique(a.drop_first(), b.drop_first());
        assert(a =~= seq![x] + a.drop_first());
        assert(b =~= seq![y] + b.drop_first());
    }
}

/// The keys of a sorted sequence are sorted texts.
pub proof fn lemma_sorted_keys<T: TextKeyed>(s: Seq<T>)
    requires
        sorted_by_key(s),
    ensures
        texts_sorted(keys_of(s)),
{
    assert forall|i: int, j: int| 0 <= i < j < keys_of(s).len() implies text_le(#[trigger] keys_of(s)[i], #[trigger] keys_of(s)[j]) by {
        assert(keys_of(s)[i] == s[i].key_of() && keys_of(s)[j] == s[j].key_of());
    }
}

/// `p` places `s` into `r`: `r[k]` is `s[p[k]]`, no position is used twice,
/// and values with equal keys keep their relative order.
pub open spec fn stable_placement<T: TextKeyed>(p: Seq<int>, r: Seq<T>, s: Seq<T>) -> bool {
    &&& p.len() == r.len()
    &&& r.len() == s.len()
    &&& forall|k: int| 0 <= k < r.len() ==> 0 <= #[trigger] p[k] < s.len() && r[k] == s[p[k]]
    &&& forall|a: int, b: int| 0 <= a < r.len() && 0 <= b < r.len() && a != b ==> #[trigger] p[a] != #[trigger] p[b]
    &&& forall|a: int, b: int| 0 <= a < b < r.len() && r[a].key_of() == r[b].key_of() ==> #[trigger] p[a] < #[trigger] p[b]
}

/// `r` is `s` sorted by key, values with equal keys in their order in `s`.
pub open spec fn stably_sorted_from<T: TextKeyed>(r: Seq<T>, s: Seq<T>) -> bool {
    &&& sorted_by_key(r)
    &&& exists|p: Seq<int>| stable_placement(p, r, s)
}

/// One insertion step keeps `perm` a stable placement of the sorted prefix.
proof fn lemma_stable_step<T: TextKeyed>(orig: Seq<T>, before: Seq<T>, s: Seq<T>, x: T, old_perm: Seq<int>, i: int, j: int)
    requires
        0 <= j <= i < before.len(),
        orig.len() == before.len(),
        x == before[i],
        s == before.remove(i).insert(j, x),
        old_perm.len() == before.len(),
        forall|k: int| 0 <= k < before.len() ==> 0 <= #[trigger] old_perm[k] < before.len() && before[k] == orig[old_perm[k]],
        forall|k: int| i <= k < before.len() ==> #[trigger] old_perm[k] == k,
        forall|k: int| 0 <= k < i ==> #[trigger] old_perm[k] < i,
        forall|a: int, b: int| 0 <= a < before.len() && 0 <= b < before.len() && a != b ==> #[trigger] old_perm[a] != #[trigger] old_perm[b],
        forall|a: int, b: int| 0 <= a < b < i && before[a].key_of() == before[b].key_of() ==> #[trigger] old_perm[a] < #[trigger] old_perm[b],
        forall|k: int| j <= k < i ==> text_lt(x.key_of(), #[trigger] before[k].key_of()),
    ensures
        ({
            let perm = old_perm.remove(i).insert(j, i);
            &&& perm.len() == before.len()
            &&& forall|k: int| 0 <= k < before.len() ==> 0 <= #[trigger] perm[k] < before.len() && s[k] == orig[perm[k]]
            &&& forall|k: int| i + 1 <= k < before.len() ==> #[trigger] perm[k] == k
            &&& forall|k: int| 0 <= k < i + 1 ==> #[trigger] perm[k] < i + 1
            &&& forall|a: int, b: int| 0 <= a < before.len() && 0 <= b < before.len() && a != b ==> #[trigger] perm[a] != #[trigger] perm[b]
            &&& forall|a: int, b: int| 0 <= a < b < i + 1 && s[a].key_of() == s[b].key_of() ==> #[trigger] perm[a] < #[trigger] perm[b]
        }),
{
    let n = before.len();
    let perm = old_perm.remove(i).insert(j, i);
    assert forall|k: int| 0 <= k < n implies 0 <= #[trigger] perm[k] < n && s[k] == orig[perm[k]] by {
        if k < j {
            assert(perm[k] == old_perm[k] && s[k] == before[k]);
        } else if k == j {
            assert(old_perm[i] == i);
            assert(perm[k] == i && s[k] == x);
        } else if k <= i {
            assert(perm[k] == old_perm[k - 1] && s[k] == before[k - 1]);
        } else {
            assert(perm[k] == old_perm[k] && s[k] == before[k]);
        }
    }
    assert forall|k: int| i + 1 <= k < n implies #[trigger] perm[k] == k by {
        assert(perm[k] == old_perm[k]);
    }
    assert forall|k: int| 0 <= k < i + 1 implies #[trigger] perm[k] < i + 1 by {
        if k < j {
            assert(perm[k] == old_perm[k]);
        } else if k > j {
            assert(perm[k] == old_perm[k - 1]);
        }
    }
    assert forall|a: int, b: int| 0 <= a < n && 0 <= b < n && a != b implies #[trigger] perm[a] != #[trigger] perm[b] by {
        let a2 = if a < j { a } else if a == j { i } else if a <= i { a - 1 } else { a };
        let b2 = if b < j { b } else if b == j { i } else if b <= i { b - 1 } else { b };
        assert(perm[a] == old_perm[a2]);
        assert(perm[b] == old_perm[b2]);
    }
    assert forall|a: int, b: int| 0 <= a < b < i + 1 && s[a].key_of() == s[b].key_of() implies #[trigger] perm[a] < #[trigger] perm[b] by {
        if a < j && b < j {
            assert(perm[a] == old_perm[a] && perm[b] == old_perm[b]);
            assert(s[a] == before[a] && s[b] == before[b]);
        } else if a < j && b == j {
            assert(perm[a] == old_perm[a] && perm[b] == i);
        } else if a < j {
            assert(perm[a] == old_perm[a] && perm[b] == old_perm[b - 1]);
            assert(s[a] == before[a] && s[b] == before[b - 1]);
        } else if a == j {
            assert(s[b] == before[b - 1]);
            assert(text_lt(x.key_of(), before[b - 1].key_of()));
            lemma_text_order(x.key_of(), x.key_of(), x.key_of());
        } else {
            assert(perm[a] == old_perm[a - 1] && perm[b] == old_perm[b - 1]);
            assert(s[a] == before[a - 1] && s[b] == before[b - 1]);
        }
    }
}

/// Sorts `v` by key, keeping values with equal keys in their order; the
/// result holds the same values.
pub fn sort_by_key<T: TextKeyed>(v: &mut Vec<T>)
    ensures
        sorted_by_key(final(v)@),
        stably_sorted_from(final(v)@, old(v)@),
        final(v)@.to_multiset() == old(v)@.to_multiset(),
        keys_of(final(v)@).to_multiset() == keys_of(old(v)@).to_multiset(),
        final(v)@.len() == old(v)@.len(),
{
    let n = v.len();
    let ghost mut perm: Seq<int> = Seq::new(n as nat, |k: int| k);
    if n <= 1 {
        assert(stable_placement(perm, v@, old(v)@));
        return;
    }
    let mut i: usize = 1;
    while i < n
        invariant
            v.len() == n,
            1 <= i <= n,
            sorted_by_key(v@.subrange(0, i as int)),
            perm.len() == n,
            old(v)@.len() == n,
            forall|k: int| 0 <= k < n ==> 0 <= #[trigger] perm[k] < n && v@[k] == old(v)@[perm[k]],
            forall|k: int| i <= k < n ==> #[trigger] perm[k] == k,
            forall|k: int| 0 <= k < i ==> #[trigger] perm[k] < i,
            forall|a: int, b: int| 0 <= a < n && 0 <= b < n && a != b ==> #[trigger] perm[a] != #[trigger] perm[b],
            forall|a: int, b: int| 0 <= a < b < i && v@[a].key_of() == v@[b].key_of() ==> #[trigger] perm[a] < #[trigger] perm[b],
            v@.to_multiset() == old(v)@.to_multiset(),
            keys_of(v@).to_multiset() == keys_of(old(v)@).to_multiset(),
        decreases n - i,
    {
        let ghost before = v@;
        let x = v.remove(i);
        let ghost rest = v@;
        assert(rest == before.remove(i as int));
        assert(before[i as int] == x);
        assert(rest.subrange(0, i as int) =~= before.subrange(0, i as int));
        let mut j: usize = i;
        while j > 0 && text_less(x.key_text(), v[j - 1].key_text())
            invariant
                v@ == rest,
                rest.len() == n - 1,
                0 <= j <= i,
                i < n,
                forall|k: int| j <= k < i ==> text_lt(x.key_of(), #[trigger] rest[k].key_of()),
            decreases j,
        {
            j = j - 1;
        }
        proof {
            let pre = rest.subrange(0, i as int);
            assert forall|a: int, b: int| 0 <= a < b < i implies text_le(#[trigger] rest[a].key_of(), #[trigger] rest[b].key_of()) by {
                assert(pre[a] == rest[a] && pre[b] == rest[b]);
            }
            if j > 0 {
                assert(text_le(rest[j - 1].key_of(), x.key_of()));
                assert forall|k: int| 0 <= k < j implies text_le(#[trigger] rest[k].key_of(), x.key_of()) by {
                    if k < j - 1 {
                        lemma_text_le_trans(rest[k].key_of(), rest[j - 1].key_of(), x.key_of());
                    }
                }
            }
            assert forall|k: int| j <= k < i implies text_le(x.key_of(), #[trigger] rest[k].key_of()) by {
                lemma_text_order(x.key_of(), rest[k].key_of(), x.key_of());
            }
        }
        v.insert(j, x);
        proof {
            let s = v@;
            assert(s =~= rest.insert(j as int, x));
            assert(s.to_multiset() == rest.to_multiset().insert(x));
            assert(rest.to_multiset() == before.to_multiset().remove(x));
            assert(before.to_multiset().contains(x)) by {
                broadcast use vstd::seq_lib::to_multiset_contains;
                assert(before.contains(x)) by { assert(before[i as int] == x); }
            }
            assert(s.to_multiset() =~= before.to_multiset()) by {
                broadcast use vstd::multiset::group_multiset_axioms;
            }
            let kb = keys_of(before);
            let kr = keys_of(rest);
            let ks = keys_of(s);
            assert(kr =~= kb.remove(i as int));
            assert(ks =~= kr.insert(j as int, x.key_of()));
            assert(kb[i as int] == x.key_of());
            assert(kb.to_multiset().contains(x.key_of())) by {
                broadcast use vstd::seq_lib::to_multiset_contains;
                assert(kb.contains(x.key_of()));
            }
            assert(ks.to_multiset() =~= kb.to_multiset()) by {
                broadcast use vstd::multiset::group_multiset_axioms;
            }
            assert forall|k: int| j <= k < i implies text_lt(x.key_of(), #[trigger] before[k].key_of()) by {
                assert(rest[k] == before[k]);
            }
            lemma_stable_step(old(v)@, before, s, x, perm, i as int, j as int);
            perm = perm.remove(i as int).insert(j as int, i as int);
            assert forall|a: int, b: int| 0 <= a < b < i + 1 implies text_le(#[trigger] s.subrange(0, i + 1)[a].key_of(), #[trigger] s.subrange(0, i + 1)[b].key_of()) by {
                let sa = s[a];
                let sb = s[b];
                if a < j && b < j {
                    assert(sa == rest[a] && sb == rest[b]);
                } else if a < j && b == j {
                    assert(sa == rest[a] && sb == x);
                } else if a < j {
                    assert(sa == rest[a] && sb == rest[b - 1]);
                    lemma_text_le_trans(rest[a].key_of(), x.key_of(), rest[b - 1].key_of());
                } else if a == j {
                    assert(sa == x && sb == rest[b - 1]);
                } else {
                    assert(sa == rest[a - 1] && sb == rest[b - 1]);
                }
            }
        }
        i = i + 1;
    }
    assert(v@.subrange(0, n as int) =~= v@);
    assert(stable_placement(perm, v@, old(v)@));
}

/// Some element of `s` has the text `t`.
pub open spec fn has_text(s: Seq<String>, t: Seq<char>) -> bool {
    exists|k: int| 0 <= k < s.len() && (#[trigger] s[k])@ == t
}

/// Drops repeated neighbours from a sorted sequence of texts: the result is
/// strictly increasing and holds exactly the texts of the input.
pub fn dedup_sorted(v: &Vec<String>) -> (r: Vec<String>)
    requires
        sorted_by_key(v@),
    ensures
        strictly_sorted_by_key(r@),
        forall|t: Seq<char>| has_text(r@, t) <==> has_text(v@, t),
{
    let mut r: Vec<String> = Vec::new();
    let mut i: usize = 0;
    while i < v.len()
        invariant
            0 <= i <= v.len(),
            sorted_by_key(v@),
            strictly_sorted_by_key(r@),
            forall|t: Seq<char>| has_text(r@, t) <==> has_text(v@.subrange(0, i as int), t),
            i > 0 ==> r@.len() > 0 && r@.last()@ == v@[i - 1]@,
            i == 0 ==> r@.len() == 0,
        decreases v.len() - i,
    {
        let ghost old_r = r@;
        let ghost pre = v@.subrange(0, i as int);
        let ghost next = v@.subrange(0, i + 1);
        let same = r.len() > 0 && r[r.len() - 1] == v[i];
        proof {
            assert forall|t: Seq<char>| has_text(next, t) <==> (has_text(pre, t) || t == v@[i as int]@) by {
                if has_text(next, t) {
                    let k = choose|k: int| 0 <= k < next.len() && (#[trigger] next[k])@ == t;
                    if k < i {
                        assert(pre[k] == next[k]);
                    }
                }
                if has_text(pre, t) {
                    let k = choose|k: int| 0 <= k < pre.len() && (#[trigger] pre[k])@ == t;
                    assert(next[k] == pre[k]);
                }
                if t == v@[i as int]@ {
                    assert(next[i as int] == v@[i as int]);
                }
            }
        }
        if !same {
            let c = v[i].clone();
            r.push(c);
            proof {
                if i > 0 {
                    assert(text_le(v@[i - 1].key_of(), v@[i as int].key_of()));
                    lemma_text_order(v@[i - 1]@, v@[i as int]@, v@[i - 1]@);
                    assert forall|a: int, b: int| 0 <= a < b < r@.len() implies text_lt(#[trigger] r@[a].key_of(), #[trigger] r@[b].key_of()) by {
                        assert(r@[a] == old_r[a]);
                        if b < old_r.len() {
                            assert(r@[b] == old_r[b]);
                        } else {
                            assert(r@[b] == c);
                            if a < old_r.len() - 1 {
                                assert(text_lt(old_r[a].key_of(), old_r[old_r.len() - 1].key_of()));
                                lemma_text_order(old_r[a]@, old_r.last()@, v@[i as int]@);
                            }
                        }
                    }
                }
                assert forall|t: Seq<char>| has_text(r@, t) <==> (has_text(old_r, t) || t == v@[i as int]@) by {
                    if has_text(r@, t) {
                        let k = choose|k: int| 0 <= k < r@.len() && (#[trigger] r@[k])@ == t;
                        if k < old_r.len() {
                            assert(old_r[k] == r@[k]);
                        }
                    }
                    if has_text(old_r, t) {
                        let k = choose|k: int| 0 <= k < old_r.len() && (#[trigger] old_r[k])@ == t;
                        assert(r@[k] == old_r[k]);
                    }
                    if t == v@[i as int]@ {
                        assert(r@[r@.len() - 1] == c);
                    }
                }
                assert forall|t: Seq<char>| has_text(r@, t) <==> has_text(next, t) by {
                    assert(has_text(old_r, t) <==> has_text(pre, t));
                }
            }
        }
        else {
            proof {
                assert forall|t: Seq<char>| has_text(r@, t) <==> has_text(next, t) by {
                    if t == v@[i as int]@ {
                        assert(r@[r@.len() - 1]@ == t);
                    }
                }
            }
        }
        i = i + 1;
    }
    assert(v@.subrange(0, v@.len() as int) =~= v@);
    r
}

} // verus!

verus! {

/// A value ordered by an integer key.
pub trait IntKeyed {
    spec fn ikey(&self) -> int;

    fn int_key(&self) -> (r: i64)
        ensures
            r as int == self.ikey(),
    ;
}

impl IntKeyed for (i64, u64) {
    open spec fn ikey(&self) -> int {
        self.0 as int
    }

    fn int_key(&self) -> (r: i64) {
        self.0
    }
}

/// Keys never decrease along the sequence.
pub open spec fn sorted_by_int_key<T: IntKeyed>(s: Seq<T>) -> bool {
    forall|i: int, j: int| 0 <= i < j < s.len() ==> (#[trigger] s[i]).ikey() <= (#[trigger] s[j]).ikey()
}

/// Sorts `v` by integer key; the result holds the same values.
pub fn sort_by_int_key<T: IntKeyed>(v: &mut Vec<T>)
    ensures
        sorted_by_int_key(final(v)@),
        final(v)@.to_multiset() == old(v)@.to_multiset(),
        final(v)@.len() == old(v)@.len(),
{
    let n = v.len();
    if n <= 1 {
        return;
    }
    let mut i: usize = 1;
    while i < n
        invariant
            v.len() == n,
            1 <= i <= n,
            sorted_by_int_key(v@.subrange(0, i as int)),
            v@.to_multiset() == old(v)@.to_multiset(),
        decreases n - i,
    {
        let ghost before = v@;
        let x = v.remove(i);
        let ghost rest = v@;
        assert(rest == before.remove(i as int));
        assert(before[i as int] == x);
        assert(rest.subrange(0, i as int) =~= before.subrange(0, i as int));
        let k = x.int_key();
        let mut j: usize = i;
        while j > 0 && k < v[j - 1].int_key()
            invariant
                v@ == rest,
                rest.len() == n - 1,
                0 <= j <= i,
                i < n,
                k as int == x.ikey(),
                forall|m: int| j <= m < i ==> x.ikey() < (#[trigger] rest[m]).ikey(),
            decreases j,
        {
            j = j - 1;
        }
        proof {
            let pre = rest.subrange(0, i as int);
            assert forall|a: int, b: int| 0 <= a < b < i implies (#[trigger] rest[a]).ikey() <= (#[trigger] rest[b]).ikey() by {
                assert(pre[a] == rest[a] && pre[b] == rest[b]);
            }
        }
        v.insert(j, x);
        proof {
            let s = v@;
            assert(s =~= rest.insert(j as int, x));
            assert(s.to_multiset() == rest.to_multiset().insert(x));
            assert(rest.to_multiset() == before.to_multiset().remove(x));
            assert(before.to_multiset().contains(x)) by {
                broadcast use vstd::seq_lib::to_multiset_contains;
                assert(before.contains(x)) by { assert(before[i as int] == x); }
            }
            assert(s.to_multiset() =~= before.to_multiset()) by {
                broadcast use vstd::multiset::group_multiset_axioms;
            }
            assert forall|a: int, b: int| 0 <= a < b < i + 1 implies (#[trigger] s.subrange(0, i + 1)[a]).ikey() <= (#[trigger] s.subrange(0, i + 1)[b]).ikey() by {
                if a < j && b < j {
                    assert(s[a] == rest[a] && s[b] == rest[b]);
                } else if a < j && b == j {
                    assert(s[a] == rest[a] && s[b] == x);
                    assert(rest[j - 1].ikey() <= x.ikey());
                } else if a < j {
                    assert(s[a] == rest[a] && s[b] == rest[b - 1]);
                    assert(rest[j - 1].ikey() <= x.ikey());
                } else if a == j {
                    assert(s[a] == x && s[b] == rest[b - 1]);
                } else {
                    assert(s[a] == rest[a - 1] && s[b] == rest[b - 1]);
                }
            }
        }
        i = i + 1;
    }
    assert(v@.subrange(0, n as int) =~= v@);
}

} // verus!
