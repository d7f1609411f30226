//! Planning of IMAP fetches by UID: which UIDs a historical fetch or a scan
//! of sent mail takes, in which order and in which batches, and the UID sets
//! and fetch queries that go to the server.
use vstd::prelude::*;
use crate::text;
use crate::mime;
use crate::envelope;
use crate::mime::EddieError;

verus! {

broadcast use vstd::string::group_string_axioms;

// ── Order ───────────────────────────────────────────────────────────────────

/// Non-decreasing.
pub open spec fn ascending(s: Seq<u32>) -> bool {
    forall|i: int, j: int| 0 <= i < j < s.len() ==> s[i] <= s[j]
}

/// Non-increasing.
pub open spec fn descending(s: Seq<u32>) -> bool {
    forall|i: int, j: int| 0 <= i < j < s.len() ==> s[j] <= s[i]
}

/// The elements of `s` in ascending order (duplicates kept).
pub open spec fn ascending_of(s: Seq<u32>) -> Seq<u32> {
    choose|t: Seq<u32>| ascending(t) && t.to_multiset() == s.to_multiset()
}

/// Two ascending sequences with the same elements are equal.
pub proof fn lemma_ascending_unique(a: Seq<u32>, b: Seq<u32>)
    requires
        ascending(a),
        ascending(b),
        a.to_multiset() == b.to_multiset(),
    ensures
        a == b,
    decreases a.len(),
{
    broadcast use vstd::seq_lib::group_to_multiset_ensures;
    vstd::seq_lib::to_multiset_len(a);
    vstd::seq_lib::to_multiset_len(b);
    if a.len() == 0 {
        assert(b =~= a);
    } else {
        vstd::seq_lib::to_multiset_contains(a, a[0]);
        vstd::seq_lib::to_multiset_contains(b, a[0]);
        vstd::seq_lib::to_multiset_contains(a, b[0]);
        vstd::seq_lib::to_multiset_contains(b, b[0]);
        assert(a.contains(a[0]));
        assert(b.contains(b[0]));
        let kb = choose|k: int| 0 <= k < b.len() && b[k] == a[0];
        let ka = choose|k: int| 0 <= k < a.len() && a[k] == b[0];
        assert(b[0] <= b[kb]);
        assert(a[0] <= a[ka]);
        let ra = a.drop_first();
        let rb = b.drop_first();
        assert(a.remove(0) =~= ra);
        assert(b.remove(0) =~= rb);
        vstd::seq_lib::to_multiset_remove(a, 0);
        vstd::seq_lib::to_multiset_remove(b, 0);
        assert(ascending(ra)) by {
            assert forall|i: int, j: int| 0 <= i < j < ra.len() implies ra[i] <= ra[j] by {
                assert(ra[i] == a[i + 1] && ra[j] == a[j + 1]);
            }
        }
        assert(ascending(rb)) by {
            assert forall|i: int, j: int| 0 <= i < j < rb.len() implies rb[i] <= rb[j] by {
                assert(rb[i] == b[i + 1] && rb[j] == b[j + 1]);
            }
        }
        lemma_ascending_unique(ra, rb);
        assert(a =~= seq![a[0]] + ra);
        assert(b =~= seq![b[0]] + rb);
    }
}

/// The UIDs sorted ascending (`sort_unstable`).
pub fn sort_uids(v: &[u32]) -> (r: Vec<u32>)
    ensures
        r@ == ascending_of(v@),
        ascending(r@),
        r@.to_multiset() == v@.to_multiset(),
{
    broadcast use vstd::seq_lib::group_to_multiset_ensures;
    let mut r: Vec<u32> = Vec::new();
    let mut i: usize = 0;
    while i < v.len()
        invariant
            i <= v@.len(),
            ascending(r@),
            r@.to_multiset() == v@.take(i as int).to_multiset(),
        decreases v@.len() - i,
    {
        let x = v[i];
        let ghost rv = r@;
        let mut p: usize = 0;
        while p < r.len() && r[p] <= x
            invariant
                p <= r@.len(),
                rv == r@,
                forall|k: int| 0 <= k < p ==> #[trigger] rv[k] <= x,
            decreases r@.len() - p,
        {
            p += 1;
        }
        r.insert(p, x);
        proof {
            let nv = r@;
            assert(nv =~= rv.insert(p as int, x));
            assert forall|a: int, b: int| 0 <= a < b < nv.len() implies nv[a] <= nv[b] by {
                if b < p {
                    assert(nv[a] == rv[a] && nv[b] == rv[b]);
                } else if b == p {
                    assert(nv[a] == rv[a]);
                } else if a < p {
                    assert(nv[b] == rv[b - 1]);
                    assert(rv[p as int] <= rv[b - 1]);
                } else if a == p {
                    assert(nv[b] == rv[b - 1]);
                    assert(rv[p as int] <= rv[b - 1]);
                } else {
                    assert(nv[a] == rv[a - 1] && nv[b] == rv[b - 1]);
                }
            }
            vstd::seq_lib::to_multiset_insert(rv, p as int, x);
            vstd::seq_lib::to_multiset_build(v@.take(i as int), x);
            assert(v@.take(i + 1) =~= v@.take(i as int).push(x));
        }
        i += 1;
    }
    proof {
        assert(v@.take(v@.len() as int) =~= v@);
        let t = ascending_of(v@);
        assert(ascending(r@) && r@.to_multiset() == v@.to_multiset());
        lemma_ascending_unique(t, r@);
    }
    r
}

// ── Filters ────────────────────────────────────────────────────────────────

/// `u` is below the bound, or there is none.
pub open spec fn below_ok(u: u32, bound: Option<u32>) -> bool {
    match bound {
        Some(b) => u < b,
        None => true,
    }
}

/// `u` is above the bound, or there is none.
pub open spec fn above_ok(u: u32, bound: Option<u32>) -> bool {
    match bound {
        Some(b) => u > b,
        None => true,
    }
}

/// The UIDs of `s` strictly below `bound` (all of them when there is none),
/// in their order.
pub open spec fn keep_below(s: Seq<u32>, bound: Option<u32>) -> Seq<u32>
    decreases s.len(),
{
    if s.len() == 0 {
        Seq::empty()
    } else {
        let rest = keep_below(s.drop_last(), bound);
        if below_ok(s.last(), bound) { rest.push(s.last()) } else { rest }
    }
}

/// The UIDs of `s` strictly above `bound` (all of them when there is none),
/// in their order.
pub open spec fn keep_above(s: Seq<u32>, bound: Option<u32>) -> Seq<u32>
    decreases s.len(),
{
    if s.len() == 0 {
        Seq::empty()
    } else {
        let rest = keep_above(s.drop_last(), bound);
        if above_ok(s.last(), bound) { rest.push(s.last()) } else { rest }
    }
}

fn filter_below(v: &[u32], bound: Option<u32>) -> (r: Vec<u32>)
    ensures
        r@ == keep_below(v@, bound),
{
    let mut r: Vec<u32> = Vec::new();
    let mut i: usize = 0;
    while i < v.len()
        invariant
            i <= v@.len(),
            r@ == keep_below(v@.take(i as int), bound),
        decreases v@.len() - i,
    {
        assert(v@.take(i + 1).drop_last() =~= v@.take(i as int));
        let keep = match bound {
            Some(b) => v[i] < b,
            None => true,
        };
        if keep {
            r.push(v[i]);
        }
        i += 1;
    }
    assert(v@.take(v@.len() as int) =~= v@);
    r
}

fn filter_above(v: &[u32], bound: Option<u32>) -> (r: Vec<u32>)
    ensures
        r@ == keep_above(v@, bound),
{
    let mut r: Vec<u32> = Vec::new();
    let mut i: usize = 0;
    while i < v.len()
        invariant
            i <= v@.len(),
            r@ == keep_above(v@.take(i as int), bound),
        decreases v@.len() - i,
    {
        assert(v@.take(i + 1).drop_last() =~= v@.take(i as int));
        let keep = match bound {
            Some(b) => v[i] > b,
            None => true,
        };
        if keep {
            r.push(v[i]);
        }
        i += 1;
    }
    assert(v@.take(v@.len() as int) =~= v@);
    r
}



proof fn lemma_keep_below_count(s: Seq<u32>, bound: Option<u32>, x: u32)
    ensures
        keep_below(s, bound).to_multiset().count(x) == if below_ok(x, bound) { s.to_multiset().count(x) } else { 0 },
    decreases s.len(),
{
    broadcast use vstd::seq_lib::group_to_multiset_ensures;
    if s.len() > 0 {
        let d = s.drop_last();
        lemma_keep_below_count(d, bound, x);
        assert(d.push(s.last()) =~= s);
        vstd::seq_lib::to_multiset_build(d, s.last());
        if below_ok(s.last(), bound) {
            vstd::seq_lib::to_multiset_build(keep_below(d, bound), s.last());
        }
    }
}

proof fn lemma_keep_above_count(s: Seq<u32>, bound: Option<u32>, x: u32)
    ensures
        keep_above(s, bound).to_multiset().count(x) == if above_ok(x, bound) { s.to_multiset().count(x) } else { 0 },
    decreases s.len(),
{
    broadcast use vstd::seq_lib::group_to_multiset_ensures;
    if s.len() > 0 {
        let d = s.drop_last();
        lemma_keep_above_count(d, bound, x);
        assert(d.push(s.last()) =~= s);
        vstd::seq_lib::to_multiset_build(d, s.last());
        if above_ok(s.last(), bound) {
            vstd::seq_lib::to_multiset_build(keep_above(d, bound), s.last());
        }
    }
}

/// Filtering keeps the multiset relation: equal multisets stay equal.
proof fn lemma_keep_below_multiset(a: Seq<u32>, b: Seq<u32>, bound: Option<u32>)
    requires
        a.to_multiset() == b.to_multiset(),
    ensures
        keep_below(a, bound).to_multiset() == keep_below(b, bound).to_multiset(),
{
    assert forall|x: u32| keep_below(a, bound).to_multiset().count(x) == keep_below(b, bound).to_multiset().count(x) by {
        lemma_keep_below_count(a, bound, x);
        lemma_keep_below_count(b, bound, x);
    }
    assert(keep_below(a, bound).to_multiset() =~= keep_below(b, bound).to_multiset());
}

/// What a filter keeps was there.
proof fn lemma_keep_below_from(s: Seq<u32>, bound: Option<u32>, k: int)
    requires
        0 <= k < keep_below(s, bound).len(),
    ensures
        exists|i: int| 0 <= i < s.len() && s[i] == keep_below(s, bound)[k],
    decreases s.len(),
{
    let d = s.drop_last();
    let rest = keep_below(d, bound);
    if k < rest.len() {
        lemma_keep_below_from(d, bound, k);
        let i = choose|i: int| 0 <= i < d.len() && d[i] == rest[k];
        assert(s[i] == d[i]);
    } else {
        assert(s[s.len() - 1] == keep_below(s, bound)[k]);
    }
}

proof fn lemma_keep_above_from(s: Seq<u32>, bound: Option<u32>, k: int)
    requires
        0 <= k < keep_above(s, bound).len(),
    ensures
        exists|i: int| 0 <= i < s.len() && s[i] == keep_above(s, bound)[k],
    decreases s.len(),
{
    let d = s.drop_last();
    let rest = keep_above(d, bound);
    if k < rest.len() {
        lemma_keep_above_from(d, bound, k);
        let i = choose|i: int| 0 <= i < d.len() && d[i] == rest[k];
        assert(s[i] == d[i]);
    } else {
        assert(s[s.len() - 1] == keep_above(s, bound)[k]);
    }
}

/// Filtering a non-increasing sequence leaves it non-increasing.
proof fn lemma_keep_below_descending(s: Seq<u32>, bound: Option<u32>)
    requires
        descending(s),
    ensures
        descending(keep_below(s, bound)),
    decreases s.len(),
{
    if s.len() > 0 {
        let d = s.drop_last();
        assert(descending(d)) by {
            assert forall|i: int, j: int| 0 <= i < j < d.len() implies d[j] <= d[i] by {
                assert(d[i] == s[i] && d[j] == s[j]);
            }
        }
        lemma_keep_below_descending(d, bound);
        let rest = keep_below(d, bound);
        let r = keep_below(s, bound);
        assert forall|i: int, j: int| 0 <= i < j < r.len() implies r[j] <= r[i] by {
            if j < rest.len() {
            } else {
                lemma_keep_below_from(d, bound, i);
                let q = choose|q: int| 0 <= q < d.len() && d[q] == rest[i];
                assert(s[q] == d[q]);
                assert(s[s.len() - 1] <= s[q]);
            }
        }
    }
}

/// Filtering a non-decreasing sequence leaves it non-decreasing.
proof fn lemma_keep_above_ascending(s: Seq<u32>, bound: Option<u32>)
    requires
        ascending(s),
    ensures
        ascending(keep_above(s, bound)),
    decreases s.len(),
{
    if s.len() > 0 {
        let d = s.drop_last();
        assert(ascending(d)) by {
            assert forall|i: int, j: int| 0 <= i < j < d.len() implies d[i] <= d[j] by {
                assert(d[i] == s[i] && d[j] == s[j]);
            }
        }
        lemma_keep_above_ascending(d, bound);
        let rest = keep_above(d, bound);
        let r = keep_above(s, bound);
        assert forall|i: int, j: int| 0 <= i < j < r.len() implies r[i] <= r[j] by {
            if j < rest.len() {
            } else {
                lemma_keep_above_from(d, bound, i);
                let q = choose|q: int| 0 <= q < d.len() && d[q] == rest[i];
                assert(s[q] == d[q]);
                assert(s[q] <= s[s.len() - 1]);
            }
        }
    }
}

/// The pieces laid end to end.
pub open spec fn concat(cs: Seq<Seq<u32>>) -> Seq<u32>
    decreases cs.len(),
{
    if cs.len() == 0 {
        Seq::empty()
    } else {
        cs[0] + concat(cs.drop_first())
    }
}

/// Batching loses and reorders nothing: the batches laid end to end are
/// the UIDs, every batch is non-empty and holds at most `n` UIDs, and all
/// but the last hold exactly `n`.
pub proof fn law_batches_cover(s: Seq<u32>, n: nat)
    requires
        n > 0,
    ensures
        concat(chunks(s, n)) == s,
        forall|i: int| 0 <= i < chunks(s, n).len() ==> 0 < (#[trigger] chunks(s, n)[i]).len() <= n,
        forall|i: int| 0 <= i < chunks(s, n).len() - 1 ==> (#[trigger] chunks(s, n)[i]).len() == n,
    decreases s.len(),
{
    if s.len() == 0 {
        assert(concat(chunks(s, n)) =~= s);
    } else if s.len() <= n {
        let c = chunks(s, n);
        assert(c == seq![s]);
        assert(c.drop_first() =~= Seq::<Seq<u32>>::empty());
        assert(concat(c.drop_first()) == Seq::<u32>::empty());
        assert(concat(c) == c[0] + concat(c.drop_first()));
        assert(concat(c) =~= s);
    } else {
        let rest = s.skip(n as int);
        law_batches_cover(rest, n);
        let c = chunks(s, n);
        assert(c == seq![s.take(n as int)] + chunks(rest, n));
        assert(c.drop_first() =~= chunks(rest, n));
        assert(c[0] == s.take(n as int));
        assert(s =~= s.take(n as int) + rest);
        assert(concat(c) == c[0] + concat(c.drop_first()));
        assert(concat(c) =~= s);
        assert forall|i: int| 0 <= i < c.len() implies 0 < (#[trigger] c[i]).len() <= n by {
            if i > 0 {
                assert(c[i] == chunks(rest, n)[i - 1]);
            }
        }
        assert forall|i: int| 0 <= i < c.len() - 1 implies (#[trigger] c[i]).len() == n by {
            if i > 0 {
                assert(c[i] == chunks(rest, n)[i - 1]);
            }
        }
    }
}

/// A historical fetch never goes back over processed mail: what the filter
/// keeps is below the bound, and every UID below it is kept.
pub proof fn law_keep_below(s: Seq<u32>, bound: Option<u32>, u: u32)
    ensures
        keep_below(s, bound).contains(u) <==> (s.contains(u) && below_ok(u, bound)),
{
    broadcast use vstd::seq_lib::group_to_multiset_ensures;
    lemma_keep_below_count(s, bound, u);
    vstd::seq_lib::to_multiset_contains(s, u);
    vstd::seq_lib::to_multiset_contains(keep_below(s, bound), u);
}

// ── Historical fetch ────────────────────────────────────────────────────────

/// The UIDs a historical fetch processes: those the search found that are
/// below `below` (all when it is `None`), newest (highest) first. Being
/// non-increasing with these elements determines the sequence.
pub fn historical_uids(found: &[u32], below: Option<u32>) -> (r: Vec<u32>)
    ensures
        descending(r@),
        r@.to_multiset() == keep_below(found@, below).to_multiset(),
{
    let sorted = sort_uids(found);
    let mut rev: Vec<u32> = Vec::new();
    let mut k: usize = sorted.len();
    assert(sorted@.skip(sorted@.len() as int).reverse() =~= Seq::<u32>::empty());
    while k > 0
        invariant
            k <= sorted@.len(),
            rev@ == sorted@.skip(k as int).reverse(),
        decreases k,
    {
        k -= 1;
        rev.push(sorted[k]);
        assert(sorted@.skip(k as int).reverse() =~= sorted@.skip(k + 1).reverse().push(sorted@[k as int]));
    }
    assert(sorted@.skip(0) =~= sorted@);
    let r = filter_below(rev.as_slice(), below);
    proof {
        assert(descending(rev@)) by {
            assert forall|i: int, j: int| 0 <= i < j < rev@.len() implies rev@[j] <= rev@[i] by {
                assert(rev@[i] == sorted@[sorted@.len() - 1 - i]);
                assert(rev@[j] == sorted@[sorted@.len() - 1 - j]);
            }
        }
        lemma_keep_below_descending(rev@, below);
        sorted@.lemma_reverse_to_multiset();
        lemma_keep_below_multiset(rev@, found@, below);
    }
    r
}

/// `s` cut into consecutive pieces of `n` (the last may be shorter):
/// `<[u32]>::chunks`.
pub open spec fn chunks(s: Seq<u32>, n: nat) -> Seq<Seq<u32>>
    decreases s.len(),
{
    if s.len() == 0 || n == 0 {
        Seq::empty()
    } else if s.len() <= n {
        seq![s]
    } else {
        seq![s.take(n as int)] + chunks(s.skip(n as int), n)
    }
}

/// How many batches a fetch processes at most: `max_batches`, where a limit
/// of zero still lets the first batch through (the limit is checked after a
/// batch); no limit when `None`.
pub open spec fn batch_limit(max_batches: Option<u32>, available: nat) -> nat {
    match max_batches {
        Some(m) => {
            let lim: nat = if m == 0 { 1 } else { m as nat };
            if lim < available { lim } else { available }
        },
        None => available,
    }
}

/// The batches' UIDs.
pub open spec fn batch_views(v: Seq<Vec<u32>>) -> Seq<Seq<u32>> {
    v.map_values(|b: Vec<u32>| b@)
}

/// The batches a historical fetch processes, in order: the UIDs cut into
/// pieces of `batch_size`, as many as `max_batches` lets through.
pub fn uid_batches(uids: &[u32], batch_size: u32, max_batches: Option<u32>) -> (r: Vec<Vec<u32>>)
    requires
        batch_size > 0,
    ensures
        batch_views(r@) == chunks(uids@, batch_size as nat).take(
            batch_limit(max_batches, chunks(uids@, batch_size as nat).len()) as int,
        ),
{
    let ghost all = chunks(uids@, batch_size as nat);
    let n: usize = batch_size as usize;
    let mut r: Vec<Vec<u32>> = Vec::new();
    let mut i: usize = 0;
    let mut count: usize = 0;
    let mut done = false;
    assert(uids@.skip(0) =~= uids@);
    assert(batch_views(r@) =~= Seq::<Seq<u32>>::empty());
    while i < uids.len() && !done
        invariant
            n == batch_size,
            n > 0,
            i <= uids@.len(),
            all == chunks(uids@, n as nat),
            all == batch_views(r@) + chunks(uids@.skip(i as int), n as nat),
            count == r@.len(),
            count <= i,
            done ==> (max_batches matches Some(m) && count >= m && count > 0),
            !done ==> (max_batches matches Some(m) ==> count < m || count == 0),
            r@.len() <= batch_limit(max_batches, all.len()),
            max_batches matches Some(m) ==> count <= (if m == 0 { 1 } else { m }),
        decreases uids@.len() - i, if done { 0int } else { 1int },
    {
        let ghost rest = uids@.skip(i as int);
        let end: usize = if uids.len() - i <= n { uids.len() } else { i + n };
        let mut b: Vec<u32> = Vec::new();
        let mut k: usize = i;
        while k < end
            invariant
                i <= k <= end,
                end <= uids@.len(),
                b@ == uids@.subrange(i as int, k as int),
            decreases end - k,
        {
            b.push(uids[k]);
            assert(uids@.subrange(i as int, k + 1) =~= uids@.subrange(i as int, k as int).push(uids@[k as int]));
            k += 1;
        }
        let ghost rv = r@;
        r.push(b);
        proof {
            assert(batch_views(r@) =~= batch_views(rv).push(b@));
            if rest.len() <= n {
                assert(b@ =~= rest);
                assert(uids@.skip(end as int) =~= Seq::<u32>::empty());
                assert(chunks(rest, n as nat) == seq![rest]);
                assert(all =~= batch_views(r@) + chunks(uids@.skip(end as int), n as nat));
            } else {
                assert(b@ =~= rest.take(n as int));
                assert(rest.skip(n as int) =~= uids@.skip(end as int));
                assert(all =~= batch_views(r@) + chunks(uids@.skip(end as int), n as nat));
            }
        }
        i = end;
        count = count + 1;
        match max_batches {
            Some(m) => {
                if count >= m as usize {
                    done = true;
                }
            },
            None => {},
        }
        proof {
            let cs = chunks(uids@.skip(i as int), n as nat);
            assert(all.len() == r@.len() + cs.len());
        }
    }
    proof {
        let cs = chunks(uids@.skip(i as int), n as nat);
        assert(all.len() == r@.len() + cs.len());
        if !done {
            assert(uids@.skip(i as int).len() == 0);
            assert(cs.len() == 0);
            assert(all =~= batch_views(r@));
            assert(batch_limit(max_batches, all.len()) == all.len());
            assert(all.take(all.len() as int) =~= all);
        } else {
            assert(batch_limit(max_batches, all.len()) == r@.len());
            assert(all.take(r@.len() as int) =~= batch_views(r@));
        }
    }
    r
}

/// UIDs in decimal joined with commas: an IMAP sequence set.
pub open spec fn uid_set_text(uids: Seq<u32>) -> Seq<char>
    decreases uids.len(),
{
    if uids.len() == 0 {
        Seq::empty()
    } else if uids.len() == 1 {
        text::decimal(uids[0] as nat)
    } else {
        uid_set_text(uids.drop_last()) + seq![','] + text::decimal(uids.last() as nat)
    }
}

/// The UID set of a batch (`1,5,9`).
pub fn uid_list(uids: &[u32]) -> (r: String)
    ensures
        r@ == uid_set_text(uids@),
{
    let mut out: Vec<char> = Vec::new();
    let mut i: usize = 0;
    assert(uids@.take(0) =~= Seq::<u32>::empty());
    while i < uids.len()
        invariant
            i <= uids@.len(),
            out@ == uid_set_text(uids@.take(i as int)),
        decreases uids@.len() - i,
    {
        assert(uids@.take(i + 1).drop_last() =~= uids@.take(i as int));
        assert(uids@.take(i + 1).last() == uids@[i as int]);
        let ghost o0 = out@;
        if i > 0 {
            out.push(',');
        }
        text::push_decimal(&mut out, uids[i] as u64);
        proof {
            if i == 0 {
                assert(out@ =~= text::decimal(uids@[0] as nat));
            } else {
                assert(out@ =~= o0 + seq![','] + text::decimal(uids@[i as int] as nat));
            }
        }
        i += 1;
    }
    assert(uids@.take(uids@.len() as int) =~= uids@);
    text::chars_to_string(out.as_slice())
}

/// The items fetched for each message of a batch: flags, envelope and body
/// structure, and Gmail's labels where the server has the extension.
pub fn envelope_fetch_query(has_gmail_ext: bool) -> (r: String)
    ensures
        has_gmail_ext ==> r@ == "(UID FLAGS ENVELOPE BODYSTRUCTURE X-GM-LABELS)"@,
        !has_gmail_ext ==> r@ == "(UID FLAGS ENVELOPE BODYSTRUCTURE)"@,
{
    if has_gmail_ext {
        "(UID FLAGS ENVELOPE BODYSTRUCTURE X-GM-LABELS)".to_string()
    } else {
        "(UID FLAGS ENVELOPE BODYSTRUCTURE)".to_string()
    }
}

/// The items fetched for the References header of a batch.
pub fn references_fetch_query() -> (r: String)
    ensures
        r@ == "(UID BODY.PEEK[HEADER.FIELDS (References)])"@,
{
    "(UID BODY.PEEK[HEADER.FIELDS (References)])".to_string()
}

/// The items fetched for one body part, without setting `\Seen`.
pub fn body_fetch_query(part: &[u32]) -> (r: String)
    ensures
        r@ == "(UID BODY.PEEK["@ + crate::mime::part_text(part@) + "])"@,
{
    let p = crate::mime::part_to_string(part);
    let pc = text::string_chars(&p);
    let mut out = text::lit_then("(UID BODY.PEEK[", pc.as_slice());
    let tail = text::str_chars("])");
    text::append_chars(&mut out, tail.as_slice());
    text::chars_to_string(out.as_slice())
}

// ── Text bodies of a batch ──────────────────────────────────────────────────

/// The part of a message whose text is fetched: the first `text/plain`
/// part, else the first `text/html` part; with whether it is HTML and the
/// name of its transfer encoding.
pub open spec fn text_choice(b: mime::BodyPart) -> Option<(Seq<u32>, bool, Seq<char>)> {
    match mime::find_part(b, Seq::empty(), "plain"@) {
        Some((p, e)) => Some((p, false, mime::encoding_name(e))),
        None => match mime::find_part(b, Seq::empty(), "html"@) {
            Some((p, e)) => Some((p, true, mime::encoding_name(e))),
            None => None,
        },
    }
}

/// The part of a message whose text is fetched (see [`text_choice`]).
pub fn text_part_of(body: &mime::BodyPart) -> (r: Option<(Vec<u32>, bool, String)>)
    ensures
        match r {
            Some((p, h, e)) => text_choice(*body) == Some((p@, h, e@)),
            None => text_choice(*body) is None,
        },
{
    let empty: Vec<u32> = Vec::new();
    assert(empty@ =~= Seq::<u32>::empty());
    match mime::find_mime_part(body, empty.as_slice(), "plain") {
        Some((p, e)) => {
            let name = mime::encoding_to_string(e);
            Some((p, false, name))
        },
        None => match mime::find_mime_part(body, empty.as_slice(), "html") {
            Some((p, e)) => {
                let name = mime::encoding_to_string(e);
                Some((p, true, name))
            },
            None => None,
        },
    }
}

/// Where the group of part number `part` stands among `groups` (the first
/// with that part number), or -1.
pub open spec fn group_index(groups: Seq<(Seq<u32>, Seq<u32>)>, part: Seq<u32>) -> int
    decreases groups.len(),
{
    if groups.len() == 0 {
        -1
    } else {
        let i = group_index(groups.drop_last(), part);
        if i >= 0 {
            i
        } else if groups.last().0 == part {
            groups.len() - 1
        } else {
            -1
        }
    }
}

/// The UIDs of a batch grouped by the part number of their text, so that
/// each part number is fetched once for its UIDs: groups in the order their
/// part number first occurs, UIDs in their order.
pub open spec fn grouped(items: Seq<(u32, Seq<u32>)>) -> Seq<(Seq<u32>, Seq<u32>)>
    decreases items.len(),
{
    if items.len() == 0 {
        Seq::empty()
    } else {
        let g = grouped(items.drop_last());
        let uid = items.last().0;
        let part = items.last().1;
        let i = group_index(g, part);
        if i >= 0 {
            g.update(i, (g[i].0, g[i].1.push(uid)))
        } else {
            g.push((part, seq![uid]))
        }
    }
}

proof fn lemma_group_index(groups: Seq<(Seq<u32>, Seq<u32>)>, part: Seq<u32>, j: int)
    requires
        0 <= j <= groups.len(),
        forall|k: int| 0 <= k < j ==> groups[k].0 != part,
        j < groups.len() ==> groups[j].0 == part,
    ensures
        group_index(groups, part) == if j < groups.len() { j } else { -1 },
    decreases groups.len(),
{
    if groups.len() > 0 {
        let d = groups.drop_last();
        if j < groups.len() - 1 {
            lemma_group_index(d, part, j);
        } else {
            lemma_group_index(d, part, d.len() as int);
        }
    }
}

/// The views of text-part items.
pub open spec fn item_views(v: Seq<(u32, Vec<u32>)>) -> Seq<(u32, Seq<u32>)> {
    v.map_values(|x: (u32, Vec<u32>)| (x.0, x.1@))
}

/// The views of groups.
pub open spec fn group_views(v: Seq<(Vec<u32>, Vec<u32>)>) -> Seq<(Seq<u32>, Seq<u32>)> {
    v.map_values(|x: (Vec<u32>, Vec<u32>)| (x.0@, x.1@))
}

fn u32s_eq(a: &[u32], b: &[u32]) -> (r: bool)
    ensures
        r == (a@ == b@),
{
    if a.len() != b.len() {
        return false;
    }
    let mut i: usize = 0;
    while i < a.len()
        invariant
            i <= a@.len(),
            a@.len() == b@.len(),
            forall|k: int| 0 <= k < i ==> a@[k] == b@[k],
        decreases a@.len() - i,
    {
        if a[i] != b[i] {
            return false;
        }
        i += 1;
    }
    assert(a@ =~= b@);
    true
}

fn copy_u32s(v: &[u32]) -> (r: Vec<u32>)
    ensures
        r@ == v@,
{
    let mut r: Vec<u32> = Vec::new();
    let mut i: usize = 0;
    while i < v.len()
        invariant
            i <= v@.len(),
            r@ == v@.take(i as int),
        decreases v@.len() - i,
    {
        r.push(v[i]);
        assert(v@.take(i + 1) =~= v@.take(i as int).push(v@[i as int]));
        i += 1;
    }
    assert(v@.take(v@.len() as int) =~= v@);
    r
}

/// The UIDs of a batch grouped by the part number of their text (see
/// [`grouped`]).
pub fn group_by_part(items: &[(u32, Vec<u32>)]) -> (r: Vec<(Vec<u32>, Vec<u32>)>)
    ensures
        group_views(r@) == grouped(item_views(items@)),
{
    let ghost iv = item_views(items@);
    let mut r: Vec<(Vec<u32>, Vec<u32>)> = Vec::new();
    let mut i: usize = 0;
    assert(iv.take(0) =~= Seq::<(u32, Seq<u32>)>::empty());
    assert(group_views(r@) =~= Seq::<(Seq<u32>, Seq<u32>)>::empty());
    while i < items.len()
        invariant
            i <= items@.len(),
            iv == item_views(items@),
            group_views(r@) == grouped(iv.take(i as int)),
        decreases items@.len() - i,
    {
        let uid = items[i].0;
        let part: &Vec<u32> = &items[i].1;
        let ghost g = group_views(r@);
        assert(iv.take(i + 1).drop_last() =~= iv.take(i as int));
        assert(iv.take(i + 1).last() == iv[i as int]);
        assert(iv[i as int] == (uid, part@));
        let mut j: usize = 0;
        while j < r.len() && !u32s_eq(r[j].0.as_slice(), part.as_slice())
            invariant
                j <= r@.len(),
                g == group_views(r@),
                forall|k: int| 0 <= k < j ==> (#[trigger] g[k]).0 != part@,
            decreases r@.len() - j,
        {
            j += 1;
        }
        proof {
            if j < r@.len() {
                assert(g[j as int].0 == r@[j as int].0@);
            }
            lemma_group_index(g, part@, j as int);
        }
        if j < r.len() {
            r[j].1.push(uid);
            proof {
                assert(group_views(r@) =~= g.update(j as int, (g[j as int].0, g[j as int].1.push(uid))));
            }
        } else {
            let mut first: Vec<u32> = Vec::new();
            first.push(uid);
            let key = copy_u32s(part.as_slice());
            r.push((key, first));
            proof {
                assert(first@ =~= seq![uid]);
                assert(group_views(r@) =~= g.push((part@, seq![uid])));
            }
        }
        i += 1;
    }
    assert(iv.take(items@.len() as int) =~= iv);
    r
}

/// Where the last text part chosen for `uid` stands among `parts`, or -1.
pub open spec fn last_part_of(parts: Seq<(u32, Seq<u32>, bool, Seq<char>)>, uid: u32) -> int
    decreases parts.len(),
{
    if parts.len() == 0 {
        -1
    } else if parts.last().0 == uid {
        parts.len() - 1
    } else {
        last_part_of(parts.drop_last(), uid)
    }
}

/// The views of chosen text parts.
pub open spec fn part_views(v: Seq<(u32, Vec<u32>, bool, String)>) -> Seq<(u32, Seq<u32>, bool, Seq<char>)> {
    v.map_values(|x: (u32, Vec<u32>, bool, String)| (x.0, x.1@, x.2, x.3@))
}

/// The body of a message of a batch: the section the server returned,
/// decoded with the transfer encoding of the text part chosen for its UID
/// (none when no part was chosen) and marked HTML as that part was.
pub fn batch_body(parts: &[(u32, Vec<u32>, bool, String)], uid: u32, section: &[u8]) -> (r: (u32, String, bool))
    ensures
        ({
            let k = last_part_of(part_views(parts@), uid);
            let enc = if k >= 0 { part_views(parts@)[k].3 } else { Seq::<char>::empty() };
            let html = k >= 0 && part_views(parts@)[k].2;
            r.0 == uid && r.1@ == text::utf8_lossy(mime::body_bytes(section@, enc)) && r.2 == html
        }),
{
    let ghost pv = part_views(parts@);
    let mut k: usize = parts.len();
    let mut found = false;
    assert(pv.take(parts@.len() as int) =~= pv);
    while k > 0 && !found
        invariant
            k <= parts@.len(),
            pv == part_views(parts@),
            found ==> k < parts@.len() && parts@[k as int].0 == uid && last_part_of(pv, uid) == k,
            !found ==> last_part_of(pv, uid) == last_part_of(pv.take(k as int), uid),
        decreases k, if found { 0int } else { 1int },
    {
        let ghost t = pv.take(k as int);
        assert(t.drop_last() =~= pv.take(k - 1));
        k -= 1;
        assert(t.last() == pv[k as int]);
        if parts[k].0 == uid {
            found = true;
        }
    }
    proof {
        if !found {
            assert(pv.take(0) =~= Seq::<(u32, Seq<u32>, bool, Seq<char>)>::empty());
        }
    }
    if found {
        assert(pv[k as int].3 == parts@[k as int].3@ && pv[k as int].2 == parts@[k as int].2);
        let d = mime::decode_body(section, parts[k].3.as_str());
        match d {
            Ok(text_) => (uid, text_, parts[k].2),
            Err(_) => (uid, String::new(), false),
        }
    } else {
        let d = mime::decode_body(section, "");
        proof {
            reveal_strlit("");
            assert(""@ =~= Seq::<char>::empty());
            assert(last_part_of(pv, uid) == -1);
        }
        match d {
            Ok(text_) => (uid, text_, false),
            Err(_) => (uid, String::new(), false),
        }
    }
}

/// Where the first envelope with `uid` stands, or -1.
pub open spec fn first_with_uid(envs: Seq<envelope::Envelope>, uid: u32) -> int
    decreases envs.len(),
{
    if envs.len() == 0 {
        -1
    } else {
        let i = first_with_uid(envs.drop_last(), uid);
        if i >= 0 {
            i
        } else if envs.last().uid == uid {
            envs.len() - 1
        } else {
            -1
        }
    }
}

/// Gives the first envelope of `uid` the references read from its
/// References header; the envelopes are unchanged when none has that UID.
pub fn attach_references(envelopes: &mut Vec<envelope::Envelope>, uid: u32, refs: Vec<String>)
    ensures
        ({
            let i = first_with_uid(old(envelopes)@, uid);
            if i >= 0 {
                final(envelopes)@.len() == old(envelopes)@.len()
                && (forall|k: int| 0 <= k < old(envelopes)@.len() && k != i ==> final(envelopes)@[k] == old(envelopes)@[k])
                && final(envelopes)@[i].references == refs
                && final(envelopes)@[i].uid == uid
                && final(envelopes)@[i].message_id == old(envelopes)@[i].message_id
                && final(envelopes)@[i].date == old(envelopes)@[i].date
                && final(envelopes)@[i].subject == old(envelopes)@[i].subject
                && final(envelopes)@[i].from_address == old(envelopes)@[i].from_address
                && final(envelopes)@[i].from_name == old(envelopes)@[i].from_name
                && final(envelopes)@[i].to_addresses == old(envelopes)@[i].to_addresses
                && final(envelopes)@[i].cc_addresses == old(envelopes)@[i].cc_addresses
                && final(envelopes)@[i].imap_flags == old(envelopes)@[i].imap_flags
                && final(envelopes)@[i].size_bytes == old(envelopes)@[i].size_bytes
                && final(envelopes)@[i].has_attachments == old(envelopes)@[i].has_attachments
                && final(envelopes)@[i].gmail_labels == old(envelopes)@[i].gmail_labels
                && final(envelopes)@[i].in_reply_to == old(envelopes)@[i].in_reply_to
                && final(envelopes)@[i].classification_headers == old(envelopes)@[i].classification_headers
            } else {
                final(envelopes)@ == old(envelopes)@
            }
        }),
{
    let ghost e0 = envelopes@;
    let mut j: usize = 0;
    while j < envelopes.len() && envelopes[j].uid != uid
        invariant
            j <= envelopes@.len(),
            envelopes@ == e0,
            forall|k: int| 0 <= k < j ==> (#[trigger] e0[k]).uid != uid,
        decreases envelopes@.len() - j,
    {
        j += 1;
    }
    proof { lemma_first_with_uid(e0, uid, j as int); }
    if j < envelopes.len() {
        envelopes[j].references = refs;
    }
}

proof fn lemma_first_with_uid(envs: Seq<envelope::Envelope>, uid: u32, j: int)
    requires
        0 <= j <= envs.len(),
        forall|k: int| 0 <= k < j ==> (#[trigger] envs[k]).uid != uid,
        j < envs.len() ==> envs[j].uid == uid,
    ensures
        first_with_uid(envs, uid) == if j < envs.len() { j } else { -1 },
    decreases envs.len(),
{
    if envs.len() > 0 {
        let d = envs.drop_last();
        if j < envs.len() - 1 {
            lemma_first_with_uid(d, uid, j);
        } else {
            lemma_first_with_uid(d, uid, d.len() as int);
        }
    }
}

// ── Scan of sent mail ───────────────────────────────────────────────────────

/// The search for the sent messages after a cursor: `UID <n+1>:*`, or
/// `ALL` without a cursor.
pub fn sent_search_query(above_uid: Option<u32>) -> (r: String)
    requires
        above_uid matches Some(u) ==> u < u32::MAX,
    ensures
        match above_uid {
            Some(u) => r@ == "UID "@ + text::decimal((u + 1) as nat) + ":*"@,
            None => r@ == "ALL"@,
        },
{
    match above_uid {
        Some(u) => {
            let mut out = text::str_chars("UID ");
            text::push_decimal(&mut out, (u + 1) as u64);
            let tail = text::str_chars(":*");
            text::append_chars(&mut out, tail.as_slice());
            text::chars_to_string(out.as_slice())
        },
        None => "ALL".to_string(),
    }
}

/// The number of batch UIDs: `batch_size`, or all when fewer remain.
pub open spec fn batch_len(batch_size: nat, available: nat) -> nat {
    if batch_size < available { batch_size } else { available }
}

/// One batch of a scan of sent mail: of the UIDs found strictly above the
/// cursor (all without one), the lowest `batch_size` in ascending order,
/// the highest of them, and how many found UIDs stay for later batches;
/// `None` when no UID is above the cursor.
pub fn sent_batch(found: &[u32], above_uid: Option<u32>, batch_size: usize) -> (r: Option<(Vec<u32>, u32, usize)>)
    requires
        batch_size > 0 || keep_above(found@, above_uid).len() == 0,
    ensures
        ({
            let t = ascending_of(keep_above(found@, above_uid));
            let n = batch_len(batch_size as nat, t.len());
            match r {
                None => t.len() == 0,
                Some((b, m, rest)) => t.len() > 0 && b@ == t.take(n as int) && m == t[n - 1] && rest == t.len() - n,
            }
        }),
{
    broadcast use vstd::seq_lib::group_to_multiset_ensures;
    let kept = filter_above(found, above_uid);
    let sorted = sort_uids(kept.as_slice());
    proof {
        vstd::seq_lib::to_multiset_len(sorted@);
        vstd::seq_lib::to_multiset_len(kept@);
    }
    if sorted.len() == 0 {
        return None;
    }
    let total: usize = sorted.len();
    let n: usize = if batch_size < total { batch_size } else { total };
    let mut b: Vec<u32> = Vec::new();
    let mut i: usize = 0;
    while i < n
        invariant
            i <= n,
            n <= sorted@.len(),
            b@ == sorted@.take(i as int),
        decreases n - i,
    {
        b.push(sorted[i]);
        assert(sorted@.take(i + 1) =~= sorted@.take(i as int).push(sorted@[i as int]));
        i += 1;
    }
    let m = b[n - 1];
    Some((b, m, total - n))
}

/// A UID occurs at most once among distinct UIDs.
proof fn lemma_count_at_most_one(s: Seq<u32>, x: u32)
    requires
        s.no_duplicates(),
    ensures
        s.to_multiset().count(x) <= 1,
{
    broadcast use vstd::seq_lib::group_to_multiset_ensures;
    s.lemma_multiset_has_no_duplicates();
    vstd::seq_lib::to_multiset_contains(s, x);
}

/// A scan of sent mail in batches visits every message once: when a batch
/// taken from the ascending UIDs `t` above the cursor ends at UID `m` (its
/// `n`-th), the next scan, with `m` as the cursor, works on exactly the UIDs
/// the batch left (the server's UIDs are distinct).
pub proof fn law_sent_scan_resumes(found: Seq<u32>, above: Option<u32>, t: Seq<u32>, n: nat)
    requires
        found.no_duplicates(),
        ascending(t),
        t.to_multiset() == keep_above(found, above).to_multiset(),
        0 < n <= t.len(),
    ensures
        ascending_of(keep_above(found, above)) == t,
        ascending_of(keep_above(found, Some(t[n - 1]))) == t.skip(n as int),
{
    broadcast use vstd::seq_lib::group_to_multiset_ensures;
    let m = t[n - 1];
    let a = t.take(n as int);
    let b = t.skip(n as int);
    assert(t =~= a + b);
    vstd::seq_lib::lemma_multiset_commutative(a, b);
    assert(ascending(b)) by {
        assert forall|i: int, j: int| 0 <= i < j < b.len() implies b[i] <= b[j] by {
            assert(b[i] == t[i + n] && b[j] == t[j + n]);
        }
    }
    let next = keep_above(found, Some(m));
    assert forall|x: u32| next.to_multiset().count(x) == b.to_multiset().count(x) by {
        lemma_keep_above_count(found, Some(m), x);
        lemma_keep_above_count(found, above, x);
        lemma_keep_above_count(found, above, m);
        lemma_count_at_most_one(found, x);
        vstd::seq_lib::to_multiset_contains(a, x);
        vstd::seq_lib::to_multiset_contains(b, x);
        vstd::seq_lib::to_multiset_contains(t, m);
        assert(t.contains(m)) by {
            assert(t[n - 1] == m);
        }
        if x > m {
            assert(!a.contains(x)) by {
                if a.contains(x) {
                    let i = choose|i: int| 0 <= i < a.len() && a[i] == x;
                    assert(a[i] == t[i]);
                    assert(t[i] <= t[n - 1]);
                }
            }
        } else if x < m {
            assert(!b.contains(x)) by {
                if b.contains(x) {
                    let i = choose|i: int| 0 <= i < b.len() && b[i] == x;
                    assert(b[i] == t[i + n]);
                    assert(t[n - 1] <= t[i + n]);
                }
            }
        } else {
            assert(a.contains(m)) by {
                assert(a[n - 1] == m);
            }
        }
    }
    assert(next.to_multiset() =~= b.to_multiset());
    let t0 = ascending_of(keep_above(found, above));
    assert(ascending(t) && t.to_multiset() == keep_above(found, above).to_multiset());
    lemma_ascending_unique(t0, t);
    let t1 = ascending_of(next);
    assert(ascending(b) && b.to_multiset() == next.to_multiset());
    lemma_ascending_unique(t1, b);
}

/// How often `x` occurs in `s`.
pub open spec fn occurrences(s: Seq<Seq<char>>, x: Seq<char>) -> nat
    decreases s.len(),
{
    if s.len() == 0 {
        0
    } else {
        occurrences(s.drop_last(), x) + if s.last() == x { 1nat } else { 0nat }
    }
}

/// Where `x` stands among the tallied addresses, or -1.
pub open spec fn tally_index(t: Seq<(Seq<char>, nat)>, x: Seq<char>) -> int
    decreases t.len(),
{
    if t.len() == 0 {
        -1
    } else {
        let i = tally_index(t.drop_last(), x);
        if i >= 0 {
            i
        } else if t.last().0 == x {
            t.len() - 1
        } else {
            -1
        }
    }
}

/// The addresses with how often each occurs, in the order each first
/// occurs.
pub open spec fn tally(s: Seq<Seq<char>>) -> Seq<(Seq<char>, nat)>
    decreases s.len(),
{
    if s.len() == 0 {
        Seq::empty()
    } else {
        let t = tally(s.drop_last());
        let x = s.last();
        let i = tally_index(t, x);
        if i >= 0 {
            t.update(i, (x, t[i].1 + 1))
        } else {
            t.push((x, 1nat))
        }
    }
}

/// The recipients named by one header block fetched from the server (none
/// when the server returned no header).
pub open spec fn block_recipients(h: Option<Vec<u8>>) -> Seq<Seq<char>> {
    match h {
        Some(b) => crate::headers::recipients_of(crate::headers::folded_headers(text::lines(text::utf8_lossy(b@)))),
        None => Seq::empty(),
    }
}

/// The recipients named by the header blocks, in order.
pub open spec fn all_recipients(hs: Seq<Option<Vec<u8>>>) -> Seq<Seq<char>>
    decreases hs.len(),
{
    if hs.len() == 0 {
        Seq::empty()
    } else {
        all_recipients(hs.drop_last()) + block_recipients(hs.last())
    }
}

/// The views of tallied addresses.
pub open spec fn tally_views(v: Seq<(String, usize)>) -> Seq<(Seq<char>, nat)> {
    v.map_values(|x: (String, usize)| (x.0@, x.1 as nat))
}

proof fn lemma_tally_index(t: Seq<(Seq<char>, nat)>, x: Seq<char>, j: int)
    requires
        0 <= j <= t.len(),
        forall|k: int| 0 <= k < j ==> (#[trigger] t[k]).0 != x,
        j < t.len() ==> t[j].0 == x,
    ensures
        tally_index(t, x) == if j < t.len() { j } else { -1 },
    decreases t.len(),
{
    if t.len() > 0 {
        let d = t.drop_last();
        if j < t.len() - 1 {
            lemma_tally_index(d, x, j);
        } else {
            lemma_tally_index(d, x, d.len() as int);
        }
    }
}

proof fn lemma_tally_bounded(s: Seq<Seq<char>>)
    ensures
        forall|k: int| 0 <= k < tally(s).len() ==> (#[trigger] tally(s)[k]).1 <= s.len(),
        tally(s).len() <= s.len(),
    decreases s.len(),
{
    if s.len() > 0 {
        lemma_tally_bounded(s.drop_last());
        lemma_tally_index_range(tally(s.drop_last()), s.last());
        let t = tally(s.drop_last());
        let i = tally_index(t, s.last());
        if i >= 0 {
            assert forall|k: int| 0 <= k < tally(s).len() implies (#[trigger] tally(s)[k]).1 <= s.len() by {
                if k != i {
                    assert(tally(s)[k] == t[k]);
                }
            }
        }
    }
}

proof fn lemma_tally_index_range(t: Seq<(Seq<char>, nat)>, x: Seq<char>)
    ensures
        -1 <= tally_index(t, x) < t.len(),
    decreases t.len(),
{
    if t.len() > 0 {
        lemma_tally_index_range(t.drop_last(), x);
    }
}

/// Tallying counts right: each address listed occurs as often as its count
/// says, no address is listed twice, and every address that occurs is
/// listed.
pub proof fn law_tally_counts(s: Seq<Seq<char>>)
    ensures
        forall|k: int| 0 <= k < tally(s).len() ==> (#[trigger] tally(s)[k]).1 == occurrences(s, tally(s)[k].0),
        forall|j: int, k: int| 0 <= j < k < tally(s).len() ==> (#[trigger] tally(s)[j]).0 != (#[trigger] tally(s)[k]).0,
        forall|i: int| 0 <= i < s.len() ==> tally_index(tally(s), #[trigger] s[i]) >= 0,
        forall|x: Seq<char>| tally_index(tally(s), x) < 0 ==> occurrences(s, x) == 0,
    decreases s.len(),
{
    if s.len() > 0 {
        let d = s.drop_last();
        let x = s.last();
        law_tally_counts(d);
        let t = tally(d);
        lemma_tally_index_range(t, x);
        let i = tally_index(t, x);
        let r = tally(s);
        assert forall|y: Seq<char>| occurrences(s, y) == occurrences(d, y) + if x == y { 1nat } else { 0nat } by {}
        if i >= 0 {
            lemma_tally_index_found(t, x);
            assert forall|y: Seq<char>| tally_index(r, y) == tally_index(t, y) by {
                lemma_tally_index_same_keys(t, r, y);
            }
        } else {
            assert forall|y: Seq<char>| y != x implies tally_index(r, y) == tally_index(t, y) by {
                assert(r.drop_last() =~= t);
            }
            assert(r.drop_last() =~= t);
            assert(tally_index(r, x) == r.len() - 1);
            assert forall|k: int| 0 <= k < t.len() implies (#[trigger] t[k]).0 != x by {
                lemma_tally_index_absent(t, x, k);
            }
        }
        assert forall|k: int| 0 <= k < r.len() implies (#[trigger] r[k]).1 == occurrences(s, r[k].0) by {
            if i >= 0 {
                if k == i {
                } else {
                    assert(r[k] == t[k]);
                    if t[k].0 == x {
                        lemma_tally_index_distinct(t, k, i);
                    }
                }
            } else {
                if k < t.len() {
                    assert(r[k] == t[k]);
                }
            }
        }
        assert forall|i2: int| 0 <= i2 < s.len() implies tally_index(r, #[trigger] s[i2]) >= 0 by {
            if i2 < d.len() {
                assert(s[i2] == d[i2]);
                if i < 0 {
                    if s[i2] != x {
                        assert(tally_index(r, s[i2]) == tally_index(t, s[i2]));
                    }
                }
            }
        }
    }
}

proof fn lemma_tally_index_found(t: Seq<(Seq<char>, nat)>, x: Seq<char>)
    requires
        tally_index(t, x) >= 0,
    ensures
        tally_index(t, x) < t.len(),
        t[tally_index(t, x)].0 == x,
    decreases t.len(),
{
    if t.len() > 0 {
        if tally_index(t.drop_last(), x) >= 0 {
            lemma_tally_index_found(t.drop_last(), x);
        }
    }
}

proof fn lemma_tally_index_absent(t: Seq<(Seq<char>, nat)>, x: Seq<char>, k: int)
    requires
        tally_index(t, x) < 0,
        0 <= k < t.len(),
    ensures
        t[k].0 != x,
    decreases t.len(),
{
    let d = t.drop_last();
    if k < d.len() {
        lemma_tally_index_absent(d, x, k);
    }
}

proof fn lemma_tally_index_distinct(t: Seq<(Seq<char>, nat)>, k: int, i: int)
    requires
        0 <= k < t.len(),
        i == tally_index(t, t[k].0),
    ensures
        0 <= i <= k,
    decreases t.len(),
{
    let d = t.drop_last();
    lemma_tally_index_range(d, t[k].0);
    if k < d.len() {
        assert(d[k] == t[k]);
        lemma_tally_index_distinct(d, k, tally_index(d, d[k].0));
    }
}

proof fn lemma_tally_index_same_keys(t: Seq<(Seq<char>, nat)>, r: Seq<(Seq<char>, nat)>, y: Seq<char>)
    requires
        r.len() == t.len(),
        forall|k: int| 0 <= k < t.len() ==> (#[trigger] r[k]).0 == t[k].0,
    ensures
        tally_index(r, y) == tally_index(t, y),
    decreases t.len(),
{
    if t.len() > 0 {
        lemma_tally_index_same_keys(t.drop_last(), r.drop_last(), y);
    }
}

/// Adds addresses to a tally.
fn tally_into(counts: &mut Vec<(String, usize)>, addrs: &Vec<String>, Ghost(before): Ghost<Seq<Seq<char>>>)
    requires
        tally_views(old(counts)@) == tally(before),
        before.len() + addrs@.len() <= usize::MAX,
    ensures
        tally_views(final(counts)@) == tally(before + text::string_views(addrs@)),
{
    let ghost av = text::string_views(addrs@);
    let mut i: usize = 0;
    assert(before + av.take(0) =~= before);
    while i < addrs.len()
        invariant
            i <= addrs@.len(),
            av == text::string_views(addrs@),
            before.len() + addrs@.len() <= usize::MAX,
            tally_views(counts@) == tally(before + av.take(i as int)),
        decreases addrs@.len() - i,
    {
        let ghost s0 = before + av.take(i as int);
        let ghost t = tally(s0);
        let x = text::string_chars(&addrs[i]);
        assert((before + av.take(i + 1)).drop_last() =~= s0);
        assert((before + av.take(i + 1)).last() == av[i as int]);
        proof { lemma_tally_bounded(s0); }
        let mut j: usize = 0;
        while j < counts.len() && !text::chars_eq(text::string_chars(&counts[j].0).as_slice(), x.as_slice())
            invariant
                j <= counts@.len(),
                t == tally_views(counts@),
                forall|k: int| 0 <= k < j ==> (#[trigger] t[k]).0 != x@,
            decreases counts@.len() - j,
        {
            j += 1;
        }
        proof {
            if j < counts@.len() {
                assert(t[j as int].0 == counts@[j as int].0@);
            }
            lemma_tally_index(t, x@, j as int);
        }
        if j < counts.len() {
            assert(t[j as int].1 <= s0.len());
            let c = counts[j].1;
            counts[j].1 = c + 1;
            proof {
                assert(tally_views(counts@) =~= t.update(j as int, (x@, t[j as int].1 + 1)));
            }
        } else {
            let key = text::chars_to_string(x.as_slice());
            counts.push((key, 1));
            proof {
                assert(tally_views(counts@) =~= t.push((x@, 1nat)));
            }
        }
        i += 1;
    }
    assert(av.take(addrs@.len() as int) =~= av);
}

/// The recipients of a batch of sent messages with how often each occurs,
/// in the order each first occurs; from the `To`, `Cc` and `Bcc` headers
/// the server returned for each message.
pub fn count_recipients(header_blocks: &[Option<Vec<u8>>]) -> (r: Vec<(String, usize)>)
    ensures
        tally_views(r@) == tally(all_recipients(header_blocks@)),
{
    let mut all: Vec<String> = Vec::new();
    let mut i: usize = 0;
    assert(text::string_views(all@) =~= Seq::<Seq<char>>::empty());
    while i < header_blocks.len()
        invariant
            i <= header_blocks@.len(),
            text::string_views(all@) == all_recipients(header_blocks@.take(i as int)),
        decreases header_blocks@.len() - i,
    {
        assert(header_blocks@.take(i + 1).drop_last() =~= header_blocks@.take(i as int));
        assert(header_blocks@.take(i + 1).last() == header_blocks@[i as int]);
        match &header_blocks[i] {
            Some(bytes) => {
                let text_ = text::from_utf8_lossy(bytes.as_slice());
                let addrs = crate::headers::parse_recipient_headers(text_.as_str());
                let mut k: usize = 0;
                let ghost a0 = text::string_views(all@);
                while k < addrs.len()
                    invariant
                        k <= addrs@.len(),
                        text::string_views(all@) == a0 + text::string_views(addrs@).take(k as int),
                    decreases addrs@.len() - k,
                {
                    let ghost a1 = text::string_views(all@);
                    let c = addrs[k].clone();
                    all.push(c);
                    assert(text::string_views(all@) =~= a1.push(addrs@[k as int]@));
                    assert(text::string_views(addrs@).take(k + 1) =~= text::string_views(addrs@).take(k as int).push(addrs@[k as int]@));
                    k += 1;
                }
                assert(text::string_views(addrs@).take(addrs@.len() as int) =~= text::string_views(addrs@));
            },
            None => {
                assert(text::string_views(all@) =~= text::string_views(all@) + Seq::<Seq<char>>::empty());
            },
        }
        i += 1;
    }
    assert(header_blocks@.take(header_blocks@.len() as int) =~= header_blocks@);
    let n: usize = all.len();
    let mut counts: Vec<(String, usize)> = Vec::new();
    assert(tally_views(counts@) =~= tally(Seq::<Seq<char>>::empty()));
    tally_into(&mut counts, &all, Ghost(Seq::<Seq<char>>::empty()));
    assert(Seq::<Seq<char>>::empty() + text::string_views(all@) =~= text::string_views(all@));
    counts
}



// ── Running the batches of a historical fetch ───────────────────────────────

/// What a historical fetch does next: fetch and hand over batch `k`, or end
/// with its result.
pub enum HistoricalAction {
    Batch(usize),
    Done(Result<usize, EddieError>),
}

/// The first step of a historical fetch of `total` UIDs in `n_batches`
/// batches (see [`uid_batches`]): nothing to do without UIDs, else the first
/// batch.
pub fn historical_start(total: usize, n_batches: usize) -> (r: HistoricalAction)
    ensures
        total == 0 ==> (r matches HistoricalAction::Done(Ok(n)) && n == 0),
        total > 0 && n_batches > 0 ==> r == HistoricalAction::Batch(0),
        total > 0 && n_batches == 0 ==> (r matches HistoricalAction::Done(Ok(n)) && n == total),
{
    if total == 0 {
        HistoricalAction::Done(Ok(0))
    } else if n_batches > 0 {
        HistoricalAction::Batch(0)
    } else {
        HistoricalAction::Done(Ok(total))
    }
}

/// The step after batch `k` of `n_batches` was handed over and the caller
/// answered `handled`: a refusal ends the fetch with a backend error carrying
/// the caller's message; otherwise the next batch, or, after the last, the
/// number of UIDs the fetch covered.
pub fn historical_after_batch(k: usize, n_batches: usize, handled: Result<(), String>, total: usize) -> (r: HistoricalAction)
    requires
        k < n_batches,
    ensures
        match handled {
            Err(e) => r matches HistoricalAction::Done(Err(EddieError::Backend(m))) && m@ == e@,
            Ok(()) => if k + 1 < n_batches {
                r == HistoricalAction::Batch((k + 1) as usize)
            } else {
                r matches HistoricalAction::Done(Ok(n)) && n == total
            },
        },
{
    match handled {
        Err(e) => HistoricalAction::Done(Err(EddieError::Backend(e))),
        Ok(()) => if k + 1 < n_batches {
            HistoricalAction::Batch(k + 1)
        } else {
            HistoricalAction::Done(Ok(total))
        },
    }
}

} // verus!
