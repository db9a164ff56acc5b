//! Texts ordered by their code points, and sets of texts kept as sorted
//! sequences without repetition.

use vstd::prelude::*;
use vstd::relations::total_ordering;
use crate::text::{chars_of, str_eq};

verus! {

/// The order of texts by their characters' code points, which is the order of
/// their UTF-8 bytes.
pub open spec fn text_leq(a: Seq<char>, b: Seq<char>) -> bool
    decreases a.len(),
{
    if a.len() == 0 {
        true
    } else if b.len() == 0 {
        false
    } else if a[0] != b[0] {
        a[0] < b[0]
    } else {
        text_leq(a.drop_first(), b.drop_first())
    }
}

/// [`text_leq`] as a relation.
pub open spec fn text_order() -> spec_fn(Seq<char>, Seq<char>) -> bool {
    |a: Seq<char>, b: Seq<char>| text_leq(a, b)
}

/// Two texts each no later than the other are equal.
pub proof fn lemma_text_leq_antisymmetric(a: Seq<char>, b: Seq<char>)
    requires
        text_leq(a, b),
        text_leq(b, a),
    ensures
        a == b,
    decreases a.len(),
{
    if a.len() > 0 && b.len() > 0 && a[0] == b[0] {
        lemma_text_leq_antisymmetric(a.drop_first(), b.drop_first());
        assert(a =~= seq![a[0]] + a.drop_first());
        assert(b =~= seq![b[0]] + b.drop_first());
    } else if a.len() == 0 && b.len() == 0 {
        assert(a =~= b);
    }
}

/// The order of texts is transitive.
pub proof fn lemma_text_leq_transitive(a: Seq<char>, b: Seq<char>, c: Seq<char>)
    requires
        text_leq(a, b),
        text_leq(b, c),
    ensures
        text_leq(a, c),
    decreases a.len(),
{
    if a.len() > 0 && b.len() > 0 && c.len() > 0 && a[0] == b[0] && b[0] == c[0] {
        lemma_text_leq_transitive(a.drop_first(), b.drop_first(), c.drop_first());
    }
}

/// Any two texts are ordered one way or the other.
pub proof fn lemma_text_leq_total(a: Seq<char>, b: Seq<char>)
    ensures
        text_leq(a, b) || text_leq(b, a),
        text_leq(a, a),
    decreases a.len(),
{
    if a.len() > 0 && b.len() > 0 {
        lemma_text_leq_total(a.drop_first(), b.drop_first());
    }
    if a.len() > 0 {
        lemma_text_leq_total(a.drop_first(), a.drop_first());
    }
}

/// The order of texts is total.
pub proof fn lemma_text_order_total()
    ensures
        total_ordering(text_order()),
{
    assert forall|a: Seq<char>| #[trigger] text_order()(a, a) by {
        lemma_text_leq_total(a, a);
    }
    assert forall|a: Seq<char>, b: Seq<char>| #[trigger] text_order()(a, b) && #[trigger] text_order()(b, a) implies a
        == b by {
        lemma_text_leq_antisymmetric(a, b);
    }
    assert forall|a: Seq<char>, b: Seq<char>, c: Seq<char>| #[trigger] text_order()(a, b) && #[trigger] text_order()(
        b,
        c,
    ) implies text_order()(a, c) by {
        lemma_text_leq_transitive(a, b, c);
    }
    assert forall|a: Seq<char>, b: Seq<char>| #[trigger] text_order()(a, b) || #[trigger] text_order()(b, a) by {
        lemma_text_leq_total(a, b);
    }
}

/// Whether `a` comes no later than `b` in the order of texts.
pub fn text_le(a: &str, b: &str) -> (r: bool)
    ensures
        r == text_leq(a@, b@),
{
    let x = chars_of(a);
    let y = chars_of(b);
    let mut i: usize = 0;
    assert(a@.skip(0) =~= a@);
    assert(b@.skip(0) =~= b@);
    while i < x.len() && i < y.len()
        invariant
            x@ == a@,
            y@ == b@,
            i <= x@.len(),
            i <= y@.len(),
            text_leq(a@, b@) == text_leq(a@.skip(i as int), b@.skip(i as int)),
        decreases x@.len() - i,
    {
        if x[i] != y[i] {
            assert(a@.skip(i as int)[0] == x@[i as int]);
            assert(b@.skip(i as int)[0] == y@[i as int]);
            return x[i] < y[i];
        }
        assert(a@.skip(i as int).drop_first() =~= a@.skip(i + 1));
        assert(b@.skip(i as int).drop_first() =~= b@.skip(i + 1));
        i = i + 1;
    }
    i == x.len()
}

/// The characters of some strings.
pub open spec fn texts(v: Seq<String>) -> Seq<Seq<char>> {
    v.map_values(|s: String| s@)
}

/// `a` comes strictly before `b`.
pub open spec fn text_lt(a: Seq<char>, b: Seq<char>) -> bool {
    text_leq(a, b) && a != b
}

/// The texts are strictly increasing: a set of texts listed in order.
pub open spec fn strictly_sorted(s: Seq<Seq<char>>) -> bool {
    forall|i: int, j: int| 0 <= i < j < s.len() ==> text_lt(#[trigger] s[i], #[trigger] s[j])
}

/// The set `s` with `x` added at its place; `s` itself when `x` is in it.
pub open spec fn set_insert(s: Seq<Seq<char>>, x: Seq<char>) -> Seq<Seq<char>>
    decreases s.len(),
{
    if s.len() == 0 {
        seq![x]
    } else if s[0] == x {
        s
    } else if text_leq(x, s[0]) {
        seq![x] + s
    } else {
        seq![s[0]] + set_insert(s.drop_first(), x)
    }
}

/// The set `a` with the texts of `b` added one after the other.
pub open spec fn set_union(a: Seq<Seq<char>>, b: Seq<Seq<char>>) -> Seq<Seq<char>>
    decreases b.len(),
{
    if b.len() == 0 {
        a
    } else {
        set_insert(set_union(a, b.drop_last()), b.last())
    }
}

/// The texts of `a` that `b` does not hold, in the order of `a`.
pub open spec fn set_minus(a: Seq<Seq<char>>, b: Seq<Seq<char>>) -> Seq<Seq<char>>
    decreases a.len(),
{
    if a.len() == 0 {
        Seq::empty()
    } else {
        let r = set_minus(a.drop_last(), b);
        if b.contains(a.last()) {
            r
        } else {
            r.push(a.last())
        }
    }
}

proof fn lemma_set_insert_skip(s: Seq<Seq<char>>, x: Seq<char>, j: int)
    requires
        0 <= j < s.len(),
        s[j] != x,
        !text_leq(x, s[j]),
        set_insert(s, x) == s.take(j) + set_insert(s.skip(j), x),
    ensures
        set_insert(s, x) == s.take(j + 1) + set_insert(s.skip(j + 1), x),
{
    assert(s.skip(j)[0] == s[j]);
    assert(s.skip(j).drop_first() =~= s.skip(j + 1));
    assert(s.take(j) + (seq![s[j]] + set_insert(s.skip(j + 1), x)) =~= s.take(j + 1) + set_insert(s.skip(j + 1), x));
}

/// Adds `x` to the set of texts `v`.
pub fn text_set_insert(v: &mut Vec<String>, x: String)
    ensures
        texts(final(v)@) == set_insert(texts(old(v)@), x@),
{
    let ghost s = texts(v@);
    let mut j: usize = 0;
    assert(s.skip(0) =~= s);
    assert(s.take(0) + s.skip(0) =~= s);
    while j < v.len() && !str_eq(v[j].as_str(), x.as_str()) && !text_le(x.as_str(), v[j].as_str())
        invariant
            s == texts(v@),
            j <= v@.len(),
            set_insert(s, x@) == s.take(j as int) + set_insert(s.skip(j as int), x@),
        decreases v@.len() - j,
    {
        proof {
            lemma_set_insert_skip(s, x@, j as int);
        }
        j = j + 1;
    }
    if j == v.len() {
        assert(s.skip(j as int) =~= Seq::<Seq<char>>::empty());
        assert(s.take(j as int) =~= s);
        v.push(x);
        assert(texts(v@) =~= s.push(x@));
    } else if str_eq(v[j].as_str(), x.as_str()) {
        assert(s.skip(j as int)[0] == s[j as int]);
        assert(s.take(j as int) + s.skip(j as int) =~= s);
    } else {
        assert(s.skip(j as int)[0] == s[j as int]);
        v.insert(j, x);
        assert(texts(v@) =~= s.take(j as int) + (seq![x@] + s.skip(j as int)));
    }
}

/// Whether the set of texts `v` holds `x`.
pub fn text_set_contains(v: &Vec<String>, x: &str) -> (r: bool)
    ensures
        r == texts(v@).contains(x@),
{
    let mut j: usize = 0;
    while j < v.len()
        invariant
            j <= v@.len(),
            forall|k: int| 0 <= k < j ==> texts(v@)[k] != x@,
        decreases v@.len() - j,
    {
        if str_eq(v[j].as_str(), x) {
            assert(texts(v@)[j as int] == x@);
            return true;
        }
        j = j + 1;
    }
    false
}

/// Adds the texts of `b`, one after the other, to the set `a`.
pub fn text_set_union(a: &mut Vec<String>, b: &Vec<String>)
    ensures
        texts(final(a)@) == set_union(texts(old(a)@), texts(b@)),
{
    let ghost a0 = texts(a@);
    let ghost bs = texts(b@);
    let mut i: usize = 0;
    assert(bs.take(0) =~= Seq::<Seq<char>>::empty());
    while i < b.len()
        invariant
            i <= b@.len(),
            bs == texts(b@),
            texts(a@) == set_union(a0, bs.take(i as int)),
        decreases b@.len() - i,
    {
        text_set_insert(a, b[i].clone());
        assert(bs.take(i + 1).drop_last() =~= bs.take(i as int));
        i = i + 1;
    }
    assert(bs.take(b@.len() as int) =~= bs);
}

/// The texts of `a` that `b` does not hold, in order.
pub fn text_set_minus(a: &Vec<String>, b: &Vec<String>) -> (r: Vec<String>)
    ensures
        texts(r@) == set_minus(texts(a@), texts(b@)),
{
    let ghost az = texts(a@);
    let mut r: Vec<String> = Vec::new();
    let mut i: usize = 0;
    assert(az.take(0) =~= Seq::<Seq<char>>::empty());
    assert(texts(r@) =~= Seq::<Seq<char>>::empty());
    while i < a.len()
        invariant
            i <= a@.len(),
            az == texts(a@),
            texts(r@) == set_minus(az.take(i as int), texts(b@)),
        decreases a@.len() - i,
    {
        assert(az.take(i + 1).drop_last() =~= az.take(i as int));
        assert(az.take(i + 1).last() == a@[i as int]@);
        if !text_set_contains(b, a[i].as_str()) {
            let ghost before = r@;
            r.push(a[i].clone());
            assert(texts(r@) =~= texts(before).push(a@[i as int]@));
        }
        i = i + 1;
    }
    assert(az.take(a@.len() as int) =~= az);
    r
}

/// A set with a text added holds exactly that text and what it held.
pub proof fn lemma_set_insert_contains(s: Seq<Seq<char>>, x: Seq<char>, y: Seq<char>)
    ensures
        set_insert(s, x).contains(y) <==> (s.contains(y) || y == x),
    decreases s.len(),
{
    if s.len() > 0 {
        if s[0] != x && !text_leq(x, s[0]) {
            lemma_set_insert_contains(s.drop_first(), x, y);
            if s.contains(y) && y != s[0] {
                let k = choose|k: int| 0 <= k < s.len() && s[k] == y;
                assert(s.drop_first()[k - 1] == y);
            }
            if set_insert(s, x).contains(y) {
                let k = choose|k: int| 0 <= k < set_insert(s, x).len() && set_insert(s, x)[k] == y;
                if k > 0 {
                    assert(set_insert(s.drop_first(), x)[k - 1] == y);
                }
            }
            assert((seq![s[0]] + set_insert(s.drop_first(), x))[0] == s[0]);
            if s.drop_first().contains(y) {
                let k = choose|k: int| 0 <= k < s.drop_first().len() && s.drop_first()[k] == y;
                assert(s[k + 1] == y);
            }
            if set_insert(s.drop_first(), x).contains(y) {
                let k = choose|k: int| 0 <= k < set_insert(s.drop_first(), x).len() && set_insert(s.drop_first(), x)[k] == y;
                assert((seq![s[0]] + set_insert(s.drop_first(), x))[k + 1] == y);
            }
        } else if s[0] != x {
            if s.contains(y) {
                let k = choose|k: int| 0 <= k < s.len() && s[k] == y;
                assert((seq![x] + s)[k + 1] == y);
            }
            if (seq![x] + s).contains(y) && y != x {
                let k = choose|k: int| 0 <= k < (seq![x] + s).len() && (seq![x] + s)[k] == y;
                assert(s[k - 1] == y);
            }
            assert((seq![x] + s)[0] == x);
        }
    } else {
        assert(seq![x][0] == x);
    }
}

/// Adding a text to a set listed in order keeps it listed in order.
pub proof fn lemma_set_insert_sorted(s: Seq<Seq<char>>, x: Seq<char>)
    requires
        strictly_sorted(s),
    ensures
        strictly_sorted(set_insert(s, x)),
    decreases s.len(),
{
    if s.len() > 0 {
        if s[0] == x {
        } else if text_leq(x, s[0]) {
            let r = seq![x] + s;
            assert forall|i: int, j: int| 0 <= i < j < r.len() implies text_lt(#[trigger] r[i], #[trigger] r[j]) by {
                if i == 0 {
                    assert(r[j] == s[j - 1]);
                    if j - 1 > 0 {
                        assert(text_lt(s[0], s[j - 1]));
                        lemma_text_leq_transitive(x, s[0], s[j - 1]);
                        if x == s[j - 1] {
                            lemma_text_leq_antisymmetric(x, s[0]);
                        }
                    }
                } else {
                    assert(r[i] == s[i - 1] && r[j] == s[j - 1]);
                }
            }
        } else {
            let t = s.drop_first();
            assert(strictly_sorted(t)) by {
                assert forall|i: int, j: int| 0 <= i < j < t.len() implies text_lt(#[trigger] t[i], #[trigger] t[j]) by {
                    assert(t[i] == s[i + 1] && t[j] == s[j + 1]);
                }
            }
            lemma_set_insert_sorted(t, x);
            let u = set_insert(t, x);
            let r = seq![s[0]] + u;
            lemma_text_leq_total(x, s[0]);
            assert forall|i: int, j: int| 0 <= i < j < r.len() implies text_lt(#[trigger] r[i], #[trigger] r[j]) by {
                if i == 0 {
                    assert(r[j] == u[j - 1]);
                    lemma_set_insert_contains(t, x, u[j - 1]);
                    assert(u.contains(u[j - 1]));
                    if u[j - 1] == x {
                    } else {
                        let k = choose|k: int| 0 <= k < t.len() && t[k] == u[j - 1];
                        assert(t[k] == s[k + 1]);
                    }
                } else {
                    assert(r[i] == u[i - 1] && r[j] == u[j - 1]);
                }
            }
        }
    }
}

} // verus!
