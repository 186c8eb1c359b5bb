//! Ordering keys: the ascending list of distinct keys.
use vstd::prelude::*;
use vstd::string::StrSliceExecFns;

use crate::tokens::string_views;

verus! {

/// Whether `a` comes before `b` in lexicographic order of character codes.
pub open spec fn key_lt(a: Seq<char>, b: Seq<char>) -> bool
    decreases a.len(),
{
    if a.len() == 0 {
        b.len() > 0
    } else if b.len() == 0 {
        false
    } else if a[0] != b[0] {
        a[0] < b[0]
    } else {
        key_lt(a.drop_first(), b.drop_first())
    }
}

/// A key put in its place in an ascending list of distinct keys.
pub open spec fn insert_sorted(s: Seq<Seq<char>>, k: Seq<char>) -> Seq<Seq<char>>
    decreases s.len(),
{
    if s.len() == 0 {
        seq![k]
    } else if s[0] == k {
        s
    } else if key_lt(k, s[0]) {
        seq![k] + s
    } else {
        seq![s[0]] + insert_sorted(s.drop_first(), k)
    }
}

/// The distinct keys of a list, in ascending order.
pub open spec fn sorted_unique(ks: Seq<Seq<char>>) -> Seq<Seq<char>>
    decreases ks.len(),
{
    if ks.len() == 0 {
        Seq::empty()
    } else {
        insert_sorted(sorted_unique(ks.drop_last()), ks.last())
    }
}

/// Whether a key comes before another.
pub fn key_less(a: &String, b: &String) -> (r: bool)
    ensures
        r == key_lt(a@, b@),
{
    let sa = a.as_str();
    let sb = b.as_str();
    let la = sa.unicode_len();
    let lb = sb.unicode_len();
    let mut i: usize = 0;
    assert(a@.subrange(0, la as int) =~= a@);
    assert(b@.subrange(0, lb as int) =~= b@);
    while i < la && i < lb
        invariant
            i <= la,
            i <= lb,
            la == a@.len(),
            lb == b@.len(),
            sa@ == a@,
            sb@ == b@,
            key_lt(a@.subrange(i as int, la as int), b@.subrange(i as int, lb as int)) == key_lt(a@, b@),
        decreases la - i,
    {
        let ca = sa.get_char(i);
        let cb = sb.get_char(i);
        let ghost ra = a@.subrange(i as int, la as int);
        let ghost rb = b@.subrange(i as int, lb as int);
        assert(ra[0] == ca && rb[0] == cb);
        if ca != cb {
            return ca < cb;
        }
        assert(ra.drop_first() =~= a@.subrange(i + 1, la as int));
        assert(rb.drop_first() =~= b@.subrange(i + 1, lb as int));
        i = i + 1;
    }
    i == la && i < lb
}

/// Puts a key in its place in an ascending list of distinct keys.
pub fn insert_key(v: &mut Vec<String>, k: String)
    ensures
        string_views(final(v)@) == insert_sorted(string_views(old(v)@), k@),
{
    let ghost whole = string_views(v@);
    let n = v.len();
    let mut p: usize = 0;
    assert(whole.subrange(0, 0) + insert_sorted(whole.subrange(0, n as int), k@) =~= insert_sorted(whole, k@)) by {
        assert(whole.subrange(0, n as int) =~= whole);
    }
    while p < n
        invariant
            p <= n,
            n == v.len(),
            whole == string_views(v@),
            whole == string_views(old(v)@),
            whole.subrange(0, p as int) + insert_sorted(whole.subrange(p as int, n as int), k@) == insert_sorted(whole, k@),
        decreases n - p,
    {
        let ghost rest = whole.subrange(p as int, n as int);
        assert(rest[0] == v@[p as int]@);
        if v[p] == k {
            assert(whole.subrange(0, p as int) + rest =~= whole);
            return;
        }
        if key_less(&k, &v[p]) {
            v.insert(p, k);
            assert(string_views(v@) =~= whole.subrange(0, p as int) + (seq![k@] + rest));
            return;
        }
        assert(rest.drop_first() =~= whole.subrange(p + 1, n as int));
        assert(whole.subrange(0, p as int) + (seq![rest[0]] + insert_sorted(rest.drop_first(), k@))
            =~= whole.subrange(0, p + 1) + insert_sorted(whole.subrange(p + 1, n as int), k@));
        p = p + 1;
    }
    let ghost kv = k@;
    v.push(k);
    assert(string_views(v@) =~= whole.subrange(0, n as int) + seq![kv]);
}

/// The distinct keys of a list, in ascending order.
pub fn sort_keys(ks: &Vec<String>) -> (r: Vec<String>)
    ensures
        string_views(r@) == sorted_unique(string_views(ks@)),
{
    let ghost all = string_views(ks@);
    let mut out: Vec<String> = Vec::new();
    let mut i: usize = 0;
    assert(all.subrange(0, 0) =~= Seq::<Seq<char>>::empty());
    assert(string_views(out@) =~= Seq::<Seq<char>>::empty());
    while i < ks.len()
        invariant
            i <= ks.len(),
            all == string_views(ks@),
            string_views(out@) == sorted_unique(all.subrange(0, i as int)),
        decreases ks.len() - i,
    {
        proof {
            let pre = all.subrange(0, i + 1);
            assert(pre.drop_last() =~= all.subrange(0, i as int));
            assert(pre.last() == ks@[i as int]@);
        }
        insert_key(&mut out, ks[i].clone());
        i = i + 1;
    }
    assert(all.subrange(0, ks.len() as int) =~= all);
    out
}

/// Whether each key comes before the ones after it.
pub open spec fn ascending(s: Seq<Seq<char>>) -> bool {
    forall|i: int, j: int| 0 <= i < j < s.len() ==> key_lt(#[trigger] s[i], #[trigger] s[j])
}

pub proof fn lemma_key_lt_transitive(a: Seq<char>, b: Seq<char>, c: Seq<char>)
    requires
        key_lt(a, b),
        key_lt(b, c),
    ensures
        key_lt(a, c),
    decreases a.len(),
{
    if a.len() > 0 && b.len() > 0 && c.len() > 0 && a[0] == b[0] && b[0] == c[0] {
        lemma_key_lt_transitive(a.drop_first(), b.drop_first(), c.drop_first());
    }
}

pub proof fn lemma_key_lt_total(a: Seq<char>, b: Seq<char>)
    requires
        a != b,
    ensures
        key_lt(a, b) || key_lt(b, a),
    decreases a.len(),
{
    if a.len() > 0 && b.len() > 0 && a[0] == b[0] {
        if a.drop_first() == b.drop_first() {
            assert(a =~= seq![a[0]] + a.drop_first());
            assert(b =~= seq![b[0]] + b.drop_first());
        }
        lemma_key_lt_total(a.drop_first(), b.drop_first());
    } else if a.len() == 0 && b.len() == 0 {
        assert(a =~= b);
    }
}

/// Putting a key in an ascending list keeps it ascending, and adds the key
/// to what it holds.
pub proof fn lemma_insert_sorted(s: Seq<Seq<char>>, k: Seq<char>)
    requires
        ascending(s),
    ensures
        ascending(insert_sorted(s, k)),
        forall|x: Seq<char>| #[trigger] insert_sorted(s, k).contains(x) <==> (s.contains(x) || x == k),
    decreases s.len(),
{
    let r = insert_sorted(s, k);
    if s.len() == 0 {
        assert(r =~= seq![k]);
        assert forall|x: Seq<char>| r.contains(x) <==> (s.contains(x) || x == k) by {
            assert(r[0] == k);
        }
    } else if s[0] == k {
        assert forall|x: Seq<char>| r.contains(x) <==> (s.contains(x) || x == k) by {
            assert(s[0] == k);
        }
    } else if key_lt(k, s[0]) {
        assert forall|i: int, j: int| 0 <= i < j < r.len() implies key_lt(#[trigger] r[i], #[trigger] r[j]) by {
            if i == 0 {
                if j > 1 {
                    lemma_key_lt_transitive(k, s[0], s[j - 1]);
                }
            } else {
                assert(r[i] == s[i - 1] && r[j] == s[j - 1]);
            }
        }
        assert forall|x: Seq<char>| r.contains(x) <==> (s.contains(x) || x == k) by {
            if s.contains(x) {
                let i = choose|i: int| 0 <= i < s.len() && s[i] == x;
                assert(r[i + 1] == x);
            }
            if x == k {
                assert(r[0] == k);
            }
            if r.contains(x) {
                let i = choose|i: int| 0 <= i < r.len() && r[i] == x;
                if i > 0 {
                    assert(s[i - 1] == x);
                }
            }
        }
    } else {
        let t = s.drop_first();
        assert(ascending(t)) by {
            assert forall|i: int, j: int| 0 <= i < j < t.len() implies key_lt(#[trigger] t[i], #[trigger] t[j]) by {
                assert(t[i] == s[i + 1] && t[j] == s[j + 1]);
            }
        }
        lemma_insert_sorted(t, k);
        let u = insert_sorted(t, k);
        lemma_key_lt_total(k, s[0]);
        assert(r == seq![s[0]] + u);
        assert forall|i: int, j: int| 0 <= i < j < r.len() implies key_lt(#[trigger] r[i], #[trigger] r[j]) by {
            if i == 0 {
                let x = u[j - 1];
                assert(u.contains(x));
                if x != k {
                    assert(t.contains(x));
                    let p = choose|p: int| 0 <= p < t.len() && t[p] == x;
                    assert(s[p + 1] == x);
                }
            } else {
                assert(r[i] == u[i - 1] && r[j] == u[j - 1]);
            }
        }
        assert forall|x: Seq<char>| r.contains(x) <==> (s.contains(x) || x == k) by {
            if r.contains(x) {
                let i = choose|i: int| 0 <= i < r.len() && r[i] == x;
                if i > 0 {
                    assert(r[i] == u[i - 1]);
                    assert(u.contains(x));
                    if t.contains(x) {
                        let p = choose|p: int| 0 <= p < t.len() && t[p] == x;
                        assert(s[p + 1] == x);
                    }
                }
            }
            if s.contains(x) {
                let i = choose|i: int| 0 <= i < s.len() && s[i] == x;
                if i == 0 {
                    assert(r[0] == x);
                } else {
                    assert(t[i - 1] == x);
                    assert(t.contains(x));
                    assert(u.contains(x));
                    let q = choose|q: int| 0 <= q < u.len() && u[q] == x;
                    assert(r[q + 1] == x);
                }
            }
            if x == k {
                assert(insert_sorted(t, k).contains(k));
                assert(u.contains(x));
                let q = choose|q: int| 0 <= q < u.len() && u[q] == x;
                assert(r[q + 1] == x);
            }
        }
    }
}

/// The distinct keys of a list in ascending order hold exactly the keys of
/// the list, each once, each before the ones after it.
pub proof fn lemma_sorted_unique(ks: Seq<Seq<char>>)
    ensures
        ascending(sorted_unique(ks)),
        forall|x: Seq<char>| #[trigger] sorted_unique(ks).contains(x) <==> ks.contains(x),
    decreases ks.len(),
{
    if ks.len() > 0 {
        let p = ks.drop_last();
        lemma_sorted_unique(p);
        lemma_insert_sorted(sorted_unique(p), ks.last());
        assert forall|x: Seq<char>| sorted_unique(ks).contains(x) <==> ks.contains(x) by {
            if p.contains(x) {
                let i = choose|i: int| 0 <= i < p.len() && p[i] == x;
                assert(ks[i] == x);
            }
            if ks.contains(x) {
                let i = choose|i: int| 0 <= i < ks.len() && ks[i] == x;
                if i < ks.len() - 1 {
                    assert(p[i] == x);
                }
            }
        }
    }
}

} // verus!
