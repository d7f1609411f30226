//! Sets of strings kept as strictly increasing sequences, in the order of
//! `String`'s `Ord` (code-point lexicographic order).
use vstd::prelude::*;
use crate::text;

verus! {

/// `a < b` in `String`'s order: lexicographic by code point.
pub open spec fn seq_lt(a: Seq<char>, b: Seq<char>) -> bool
    decreases a.len(),
{
    if b.len() == 0 {
        false
    } else if a.len() == 0 {
        true
    } else if a[0] != b[0] {
        a[0] < b[0]
    } else {
        seq_lt(a.drop_first(), b.drop_first())
    }
}

pub proof fn lemma_lt_irreflexive(a: Seq<char>)
    ensures
        !seq_lt(a, a),
    decreases a.len(),
{
    if a.len() > 0 {
        lemma_lt_irreflexive(a.drop_first());
    }
}

pub proof fn lemma_lt_transitive(a: Seq<char>, b: Seq<char>, c: Seq<char>)
    requires
        seq_lt(a, b),
        seq_lt(b, c),
    ensures
        seq_lt(a, c),
    decreases a.len(),
{
    if a.len() > 0 && b.len() > 0 && c.len() > 0 && a[0] == b[0] && b[0] == c[0] {
        lemma_lt_transitive(a.drop_first(), b.drop_first(), c.drop_first());
    }
}

pub proof fn lemma_lt_total(a: Seq<char>, b: Seq<char>)
    ensures
        a == b || seq_lt(a, b) || seq_lt(b, a),
    decreases a.len(),
{
    if a.len() > 0 && b.len() > 0 {
        if a[0] == b[0] {
            lemma_lt_total(a.drop_first(), b.drop_first());
            if a.drop_first() == b.drop_first() {
                assert(a =~= seq![a[0]] + a.drop_first());
                assert(b =~= seq![b[0]] + b.drop_first());
            }
        }
    } else if a.len() == 0 && b.len() == 0 {
        assert(a =~= b);
    }
}

pub proof fn lemma_lt_asymmetric(a: Seq<char>, b: Seq<char>)
    requires
        seq_lt(a, b),
    ensures
        !seq_lt(b, a),
{
    if seq_lt(b, a) {
        lemma_lt_transitive(a, b, a);
        lemma_lt_irreflexive(a);
    }
}

/// Strictly increasing: sorted and free of duplicates.
pub open spec fn sorted_strict(v: Seq<Seq<char>>) -> bool {
    forall|i: int, j: int| 0 <= i < j < v.len() ==> seq_lt(#[trigger] v[i], #[trigger] v[j])
}

/// Two strictly increasing sequences with the same elements are equal.
pub proof fn lemma_sorted_unique(a: Seq<Seq<char>>, b: Seq<Seq<char>>)
    requires
        sorted_strict(a),
        sorted_strict(b),
        forall|x: Seq<char>| a.contains(x) <==> b.contains(x),
    ensures
        a == b,
    decreases a.len(),
{
    if a.len() == 0 {
        if b.len() > 0 {
            assert(b.contains(b[0]));
        }
        assert(a =~= b);
    } else if b.len() == 0 {
        assert(a.contains(a[0]));
    } else {
        // The first elements are the least of both.
        assert(a.contains(b[0]));
        assert(b.contains(a[0]));
        let ia = choose|i: int| 0 <= i < a.len() && a[i] == b[0];
        let ib = choose|i: int| 0 <= i < b.len() && b[i] == a[0];
        if a[0] != b[0] {
            assert(ia > 0 && ib > 0);
            assert(seq_lt(a[0], a[ia]));
            assert(seq_lt(b[0], b[ib]));
            lemma_lt_asymmetric(a[0], b[0]);
        }
        assert forall|x: Seq<char>| a.drop_first().contains(x) <==> b.drop_first().contains(x) by {
            if a.drop_first().contains(x) {
                let i = choose|i: int| 0 <= i < a.drop_first().len() && a.drop_first()[i] == x;
                assert(seq_lt(a[0], a[i + 1]));
                lemma_lt_irreflexive(x);
                assert(b.contains(x));
                let j = choose|j: int| 0 <= j < b.len() && b[j] == x;
                assert(j != 0);
                assert(b.drop_first()[j - 1] == x);
            }
            if b.drop_first().contains(x) {
                let i = choose|i: int| 0 <= i < b.drop_first().len() && b.drop_first()[i] == x;
                assert(seq_lt(b[0], b[i + 1]));
                lemma_lt_irreflexive(x);
                assert(a.contains(x));
                let j = choose|j: int| 0 <= j < a.len() && a[j] == x;
                assert(j != 0);
                assert(a.drop_first()[j - 1] == x);
            }
        }
        lemma_sorted_unique(a.drop_first(), b.drop_first());
        assert(a =~= seq![a[0]] + a.drop_first());
        assert(b =~= seq![b[0]] + b.drop_first());
    }
}

/// `a < b` on character slices.
pub fn chars_lt(a: &[char], b: &[char]) -> (r: bool)
    ensures
        r == seq_lt(a@, b@),
{
    let mut i: usize = 0;
    assert(a@.skip(0) =~= a@);
    assert(b@.skip(0) =~= b@);
    while i < a.len() && i < b.len()
        invariant
            i <= a@.len(),
            i <= b@.len(),
            seq_lt(a@, b@) == seq_lt(a@.skip(i as int), b@.skip(i as int)),
        decreases a@.len() - i,
    {
        assert(a@.skip(i as int)[0] == a@[i as int]);
        assert(b@.skip(i as int)[0] == b@[i as int]);
        if a[i] != b[i] {
            return a[i] < b[i];
        }
        assert(a@.skip(i as int).drop_first() =~= a@.skip(i + 1));
        assert(b@.skip(i as int).drop_first() =~= b@.skip(i + 1));
        i += 1;
    }
    i < b.len()
}

/// Inserts `x` into a strictly increasing vector, unless already present.
pub fn insert_sorted(v: &mut Vec<Vec<char>>, x: &[char])
    requires
        sorted_strict(text::seqs_of(old(v)@)),
    ensures
        sorted_strict(text::seqs_of(final(v)@)),
        forall|y: Seq<char>| text::seqs_of(final(v)@).contains(y)
            <==> (text::seqs_of(old(v)@).contains(y) || y == x@),
{
    let ghost s0 = text::seqs_of(v@);
    let mut p: usize = 0;
    while p < v.len() && chars_lt(v[p].as_slice(), x)
        invariant
            p <= v@.len(),
            s0 == text::seqs_of(v@),
            forall|i: int| 0 <= i < p ==> seq_lt(#[trigger] s0[i], x@),
        decreases v@.len() - p,
    {
        p += 1;
    }
    if p < v.len() && text::chars_eq(v[p].as_slice(), x) {
        assert(s0[p as int] == x@);
        return;
    }
    let xv = text::slice_to_vec(x, 0, x.len());
    assert(xv@ =~= x@);
    proof {
        if p < s0.len() {
            lemma_lt_total(s0[p as int], x@);
        }
    }
    v.insert(p, xv);
    proof {
        let s1 = text::seqs_of(v@);
        assert(s1 =~= s0.insert(p as int, x@));
        assert forall|i: int, j: int| 0 <= i < j < s1.len() implies seq_lt(#[trigger] s1[i], #[trigger] s1[j]) by {
            if j < p {
            } else if j == p {
            } else if i < p {
                if j > p + 1 {
                    lemma_lt_transitive(x@, s0[p as int], s1[j]);
                }
                lemma_lt_transitive(s1[i], x@, s1[j]);
            } else if i == p {
                if j > p + 1 {
                    lemma_lt_transitive(x@, s0[p as int], s1[j]);
                }
            } else {
            }
        }
        assert forall|y: Seq<char>| s1.contains(y) <==> (s0.contains(y) || y == x@) by {
            if s0.contains(y) {
                let i = choose|i: int| 0 <= i < s0.len() && s0[i] == y;
                if i < p {
                    assert(s1[i] == y);
                } else {
                    assert(s1[i + 1] == y);
                }
            }
            if y == x@ {
                assert(s1[p as int] == y);
            }
            if s1.contains(y) {
                let i = choose|i: int| 0 <= i < s1.len() && s1[i] == y;
                if i < p {
                    assert(s0[i] == y);
                } else if i > p {
                    assert(s0[i - 1] == y);
                }
            }
        }
    }
}


/// Whether `x` is one of the vectors of `v`.
pub fn vec_contains(v: &Vec<Vec<char>>, x: &[char]) -> (r: bool)
    ensures
        r == text::seqs_of(v@).contains(x@),
{
    let mut i: usize = 0;
    while i < v.len()
        invariant
            i <= v@.len(),
            forall|j: int| 0 <= j < i ==> text::seqs_of(v@)[j] != x@,
        decreases v@.len() - i,
    {
        if text::chars_eq(v[i].as_slice(), x) {
            assert(text::seqs_of(v@)[i as int] == x@);
            return true;
        }
        i += 1;
    }
    false
}

/// The elements of `a` that are not in `b`, in the order of `a`.
pub fn difference(a: &Vec<Vec<char>>, b: &Vec<Vec<char>>) -> (r: Vec<Vec<char>>)
    requires
        sorted_strict(text::seqs_of(a@)),
    ensures
        sorted_strict(text::seqs_of(r@)),
        forall|y: Seq<char>| #[trigger] text::seqs_of(r@).contains(y)
            <==> (text::seqs_of(a@).contains(y) && !text::seqs_of(b@).contains(y)),
{
    let ghost sa = text::seqs_of(a@);
    let ghost sb = text::seqs_of(b@);
    let mut r: Vec<Vec<char>> = Vec::new();
    let mut i: usize = 0;
    while i < a.len()
        invariant
            i <= a@.len(),
            sa == text::seqs_of(a@),
            sb == text::seqs_of(b@),
            sorted_strict(sa),
            sorted_strict(text::seqs_of(r@)),
            forall|k: int| #![trigger text::seqs_of(r@)[k]] 0 <= k < text::seqs_of(r@).len() ==> exists|j: int| 0 <= j < i && #[trigger] sa[j] == text::seqs_of(r@)[k],
            forall|y: Seq<char>| #[trigger] text::seqs_of(r@).contains(y)
                <==> (sa.take(i as int).contains(y) && !sb.contains(y)),
        decreases a@.len() - i,
    {
        let ghost r0 = text::seqs_of(r@);
        assert(sa.take(i + 1) =~= sa.take(i as int).push(sa[i as int]));
        assert(forall|y: Seq<char>| #[trigger] r0.contains(y) <==> (sa.take(i as int).contains(y) && !sb.contains(y)));
        proof { lemma_push_contains(sa.take(i as int), sa[i as int]); }
        assert(sa[i as int] == a@[i as int]@);
        if !vec_contains(b, a[i].as_slice()) {
            let c = text::copy_chars(&a[i]);
            let ghost cv = c;
            let ghost rv0 = r@;
            r.push(c);
            proof {
                text::lemma_seqs_of_push(rv0, cv);
                let r1 = text::seqs_of(r@);
                assert(r1 =~= r0.push(sa[i as int]));
                assert forall|p: int, q: int| 0 <= p < q < r1.len() implies sorted_set_lt(r1, p, q) by {
                    if q == r1.len() - 1 {
                        let j = choose|j: int| 0 <= j < i && #[trigger] sa[j] == r0[p];
                        assert(seq_lt(sa[j], sa[i as int]));
                    }
                }
                assert forall|k: int| #![trigger r1[k]] 0 <= k < r1.len() implies exists|j: int| 0 <= j < i + 1 && #[trigger] sa[j] == r1[k] by {
                    if k == r1.len() - 1 {
                        assert(sa[i as int] == r1[k]);
                    } else {
                        let j = choose|j: int| 0 <= j < i && #[trigger] sa[j] == r0[k];
                        assert(sa[j] == r1[k]);
                    }
                }
                assert forall|y: Seq<char>| #[trigger] r1.contains(y)
                    <==> (sa.take(i + 1).contains(y) && !sb.contains(y)) by {
                    if r1.contains(y) && !r0.contains(y) {
                        let k = choose|k: int| 0 <= k < r1.len() && r1[k] == y;
                        assert(k == r1.len() - 1);
                    }
                    if r0.contains(y) {
                        let k = choose|k: int| 0 <= k < r0.len() && r0[k] == y;
                        assert(r1[k] == y);
                    }
                    if sa.take(i + 1).contains(y) && !sa.take(i as int).contains(y) {
                        let k = choose|k: int| 0 <= k < i + 1 && #[trigger] sa.take(i + 1)[k] == y;
                        if k < i {
                            assert(sa.take(i as int)[k] == y);
                        }
                        assert(r1[r1.len() - 1] == y);
                    }
                    if sa.take(i as int).contains(y) {
                        let k = choose|k: int| 0 <= k < i && #[trigger] sa.take(i as int)[k] == y;
                        assert(sa.take(i + 1)[k] == y);
                    }
                }
            }
        } else {
            proof {
                assert forall|y: Seq<char>| #[trigger] text::seqs_of(r@).contains(y)
                    <==> (sa.take(i + 1).contains(y) && !sb.contains(y)) by {
                    if sa.take(i + 1).contains(y) && !sa.take(i as int).contains(y) {
                        let k = choose|k: int| 0 <= k < i + 1 && #[trigger] sa.take(i + 1)[k] == y;
                        if k < i {
                            assert(sa.take(i as int)[k] == y);
                        }
                    }
                    if sa.take(i as int).contains(y) {
                        let k = choose|k: int| 0 <= k < i && #[trigger] sa.take(i as int)[k] == y;
                        assert(sa.take(i + 1)[k] == y);
                    }
                }
            }
        }
        i += 1;
    }
    assert(sa.take(a@.len() as int) =~= sa);
    r
}

/// Membership in a sequence extended by one element.
pub proof fn lemma_push_contains(s: Seq<Seq<char>>, x: Seq<char>)
    ensures
        forall|y: Seq<char>| #[trigger] s.push(x).contains(y) <==> (s.contains(y) || y == x),
{
    assert forall|y: Seq<char>| #[trigger] s.push(x).contains(y) <==> (s.contains(y) || y == x) by {
        if s.contains(y) {
            let k = choose|k: int| 0 <= k < s.len() && s[k] == y;
            assert(s.push(x)[k] == y);
        }
        if y == x {
            assert(s.push(x)[s.len() as int] == y);
        }
        if s.push(x).contains(y) {
            let k = choose|k: int| 0 <= k < s.push(x).len() && s.push(x)[k] == y;
            if k < s.len() {
                assert(s[k] == y);
            }
        }
    }
}

pub open spec fn sorted_set_lt(s: Seq<Seq<char>>, p: int, q: int) -> bool {
    seq_lt(s[p], s[q])
}

/// Adds every element of `items` to a strictly increasing set.
pub fn insert_all(set: &mut Vec<Vec<char>>, items: &Vec<Vec<char>>)
    requires
        sorted_strict(text::seqs_of(old(set)@)),
    ensures
        sorted_strict(text::seqs_of(final(set)@)),
        forall|y: Seq<char>| #[trigger] text::seqs_of(final(set)@).contains(y)
            <==> (text::seqs_of(old(set)@).contains(y) || text::seqs_of(items@).contains(y)),
{
    let ghost s0 = text::seqs_of(set@);
    let ghost it = text::seqs_of(items@);
    let mut i: usize = 0;
    while i < items.len()
        invariant
            i <= items@.len(),
            it == text::seqs_of(items@),
            sorted_strict(text::seqs_of(set@)),
            forall|y: Seq<char>| #[trigger] text::seqs_of(set@).contains(y)
                <==> (s0.contains(y) || it.take(i as int).contains(y)),
        decreases items@.len() - i,
    {
        let ghost prev = text::seqs_of(set@);
        assert(forall|y: Seq<char>| #[trigger] prev.contains(y) <==> (s0.contains(y) || it.take(i as int).contains(y)));
        insert_sorted(set, items[i].as_slice());
        proof {
            assert(it.take(i + 1) =~= it.take(i as int).push(it[i as int]));
            assert(it[i as int] == items@[i as int]@);
            lemma_push_contains(it.take(i as int), it[i as int]);
            assert forall|y: Seq<char>| #[trigger] text::seqs_of(set@).contains(y)
                <==> (s0.contains(y) || it.take(i + 1).contains(y)) by {
                assert(prev.contains(y) <==> (s0.contains(y) || it.take(i as int).contains(y)));
                if it.take(i + 1).contains(y) && !it.take(i as int).contains(y) {
                    let k = choose|k: int| 0 <= k < i + 1 && #[trigger] it.take(i + 1)[k] == y;
                    if k < i {
                        assert(it.take(i as int)[k] == y);
                    }
                }
                if it.take(i as int).contains(y) {
                    let k = choose|k: int| 0 <= k < i && #[trigger] it.take(i as int)[k] == y;
                    assert(it.take(i + 1)[k] == y);
                }
            }
        }
        i += 1;
    }
    assert(it.take(items@.len() as int) =~= it);
}


/// Sorted in `String`'s order (duplicates allowed).
pub open spec fn sorted_le(v: Seq<Seq<char>>) -> bool {
    forall|i: int, j: int| 0 <= i < j < v.len() ==> !seq_lt(#[trigger] v[j], #[trigger] v[i])
}

/// The strings sorted (`slice::sort`): in order, with the same elements as
/// often as in `v`.
pub fn sort_strings(v: &Vec<String>) -> (r: Vec<String>)
    ensures
        sorted_le(text::string_views(r@)),
        text::string_views(r@).to_multiset() == text::string_views(v@).to_multiset(),
{
    let mut r: Vec<String> = Vec::new();
    let mut i: usize = 0;
    assert(text::string_views(r@) =~= text::string_views(v@).take(0));
    while i < v.len()
        invariant
            i <= v@.len(),
            sorted_le(text::string_views(r@)),
            text::string_views(r@).to_multiset() == text::string_views(v@).take(i as int).to_multiset(),
        decreases v@.len() - i,
    {
        let ghost rv = text::string_views(r@);
        let x = text::string_chars(&v[i]);
        let mut p: usize = 0;
        while p < r.len() && !chars_lt(x.as_slice(), text::string_chars(&r[p]).as_slice())
            invariant
                p <= r@.len(),
                rv == text::string_views(r@),
                forall|k: int| 0 <= k < p ==> !seq_lt(x@, #[trigger] rv[k]),
            decreases r@.len() - p,
        {
            p += 1;
        }
        proof {
            if p < rv.len() {
                lemma_lt_asymmetric(x@, rv[p as int]);
            }
        }
        r.insert(p, v[i].clone());
        proof {
            let nv = text::string_views(r@);
            assert(nv =~= rv.insert(p as int, x@));
            assert forall|a: int, b: int| 0 <= a < b < nv.len() implies !seq_lt(#[trigger] nv[b], #[trigger] nv[a]) by {
                if b < p {
                } else if b == p {
                } else if a < p {
                    if seq_lt(nv[b], nv[a]) {
                        // nv[a] <= x < nv[b]
                        lemma_lt_total(x@, nv[a]);
                        if b > p + 1 {
                            lemma_lt_total(rv[p as int], nv[b]);
                            if seq_lt(nv[b], rv[p as int]) {
                            } else {
                                if nv[b] != rv[p as int] {
                                    lemma_lt_transitive(x@, rv[p as int], nv[b]);
                                }
                                if nv[a] == x@ {
                                    lemma_lt_asymmetric(x@, nv[b]);
                                } else {
                                    lemma_lt_transitive(nv[a], x@, nv[b]);
                                    lemma_lt_asymmetric(nv[a], nv[b]);
                                }
                            }
                        } else {
                            if nv[a] == x@ {
                                lemma_lt_asymmetric(x@, nv[b]);
                            } else {
                                lemma_lt_transitive(nv[a], x@, nv[b]);
                                lemma_lt_asymmetric(nv[a], nv[b]);
                            }
                        }
                    }
                } else if a == p {
                    if seq_lt(nv[b], x@) {
                        if b > p + 1 {
                            if seq_lt(nv[b], rv[p as int]) {
                            } else {
                                lemma_lt_total(nv[b], rv[p as int]);
                                if nv[b] == rv[p as int] {
                                    lemma_lt_asymmetric(x@, rv[p as int]);
                                } else {
                                    lemma_lt_transitive(x@, rv[p as int], nv[b]);
                                    lemma_lt_asymmetric(x@, nv[b]);
                                }
                            }
                        }
                    }
                } else {
                }
            }
            assert(text::string_views(v@)[i as int] == x@);
            assert(text::string_views(v@).take(i + 1) =~= text::string_views(v@).take(i as int).push(x@));
            vstd::seq_lib::to_multiset_insert(rv, p as int, x@);
            vstd::seq_lib::to_multiset_build(text::string_views(v@).take(i as int), x@);
            assert(nv.to_multiset() == rv.to_multiset().insert(x@));
            assert(text::string_views(v@).take(i + 1).to_multiset() == text::string_views(v@).take(i as int).to_multiset().insert(x@));
        }
        i += 1;
    }
    assert(text::string_views(v@).take(v@.len() as int) =~= text::string_views(v@));
    r
}


/// The elements of `s` sorted (duplicates kept).
pub open spec fn sorted_strings_of(s: Seq<Seq<char>>) -> Seq<Seq<char>> {
    choose|t: Seq<Seq<char>>| sorted_le(t) && t.to_multiset() == s.to_multiset()
}

/// Two sorted sequences with the same elements, as often, are equal.
pub proof fn lemma_sorted_le_unique(a: Seq<Seq<char>>, b: Seq<Seq<char>>)
    requires
        sorted_le(a),
        sorted_le(b),
        a.to_multiset() == b.to_multiset(),
    ensures
        a == b,
    decreases a.len(),
{
    broadcast use vstd::seq_lib::group_to_multiset_ensures;
    if a.len() == 0 {
        vstd::seq_lib::to_multiset_len(a);
        vstd::seq_lib::to_multiset_len(b);
        assert(b =~= a);
    } else {
        vstd::seq_lib::to_multiset_len(a);
        vstd::seq_lib::to_multiset_len(b);
        assert(b.len() == a.len());
        vstd::seq_lib::to_multiset_contains(a, a[0]);
        vstd::seq_lib::to_multiset_contains(b, a[0]);
        vstd::seq_lib::to_multiset_contains(a, b[0]);
        vstd::seq_lib::to_multiset_contains(b, b[0]);
        assert(a.contains(a[0]));
        assert(b.contains(b[0]));
        assert(b.contains(a[0]));
        assert(a.contains(b[0]));
        let kb = choose|k: int| 0 <= k < b.len() && b[k] == a[0];
        let ka = choose|k: int| 0 <= k < a.len() && a[k] == b[0];
        assert(!seq_lt(a[0], b[0])) by {
            if kb > 0 {
                assert(!seq_lt(b[kb], b[0]));
            } else {
                lemma_lt_irreflexive(a[0]);
            }
        }
        assert(!seq_lt(b[0], a[0])) by {
            if ka > 0 {
                assert(!seq_lt(a[ka], a[0]));
            } else {
                lemma_lt_irreflexive(b[0]);
            }
        }
        lemma_lt_total(a[0], b[0]);
        let ra = a.drop_first();
        let rb = b.drop_first();
        assert(a.remove(0) =~= ra);
        assert(b.remove(0) =~= rb);
        vstd::seq_lib::to_multiset_remove(a, 0);
        vstd::seq_lib::to_multiset_remove(b, 0);
        assert(sorted_le(ra)) by {
            assert forall|i: int, j: int| 0 <= i < j < ra.len() implies !seq_lt(#[trigger] ra[j], #[trigger] ra[i]) by {
                assert(ra[i] == a[i + 1] && ra[j] == a[j + 1]);
            }
        }
        assert(sorted_le(rb)) by {
            assert forall|i: int, j: int| 0 <= i < j < rb.len() implies !seq_lt(#[trigger] rb[j], #[trigger] rb[i]) by {
                assert(rb[i] == b[i + 1] && rb[j] == b[j + 1]);
            }
        }
        lemma_sorted_le_unique(ra, rb);
        assert(a =~= seq![a[0]] + ra);
        assert(b =~= seq![b[0]] + rb);
    }
}

/// The strings sorted (see [`sorted_strings_of`]).
pub fn sorted_strings(v: &Vec<String>) -> (r: Vec<String>)
    ensures
        text::string_views(r@) == sorted_strings_of(text::string_views(v@)),
{
    let r = sort_strings(v);
    proof {
        let t = sorted_strings_of(text::string_views(v@));
        assert(sorted_le(t) && t.to_multiset() == text::string_views(v@).to_multiset());
        lemma_sorted_le_unique(t, text::string_views(r@));
    }
    r
}

} // verus!
