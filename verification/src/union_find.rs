//! Union-find over message identifiers, used to group messages into threads.
//!
//! Identifiers are interned: each known identifier has an index, and the
//! forest is a parent array over those indices. A ghost rank strictly grows
//! along every parent edge, which bounds every path to a root.
use vstd::prelude::*;
use crate::text;

verus! {

/// Every parent edge leads to a node of strictly higher rank, below `bound`.
pub open spec fn ranked(parent: Seq<usize>, rank: Seq<nat>, bound: nat) -> bool {
    &&& parent.len() == rank.len()
    &&& forall|i: int| 0 <= i < parent.len() ==> (#[trigger] parent[i] as int) < parent.len()
    &&& forall|i: int| 0 <= i < parent.len() ==> #[trigger] rank[i] < bound
    &&& forall|i: int| 0 <= i < parent.len() && parent[i] != i ==> #[trigger] rank[i] < rank[parent[i] as int]
}

/// The root reached from node `i` by following parent edges.
pub open spec fn root_of(parent: Seq<usize>, rank: Seq<nat>, bound: nat, i: int) -> int
    decreases bound - rank[i],
    when ranked(parent, rank, bound) && 0 <= i < parent.len()
{
    if parent[i] == i {
        i
    } else {
        root_of(parent, rank, bound, parent[i] as int)
    }
}

/// The root of a node is a node, is a root, and has at least the node's rank
/// (strictly more unless the node is its own root).
pub proof fn lemma_root_props(parent: Seq<usize>, rank: Seq<nat>, bound: nat, i: int)
    requires
        ranked(parent, rank, bound),
        0 <= i < parent.len(),
    ensures
        0 <= root_of(parent, rank, bound, i) < parent.len(),
        parent[root_of(parent, rank, bound, i)] == root_of(parent, rank, bound, i),
        root_of(parent, rank, bound, i) == i || rank[i] < rank[root_of(parent, rank, bound, i)],
    decreases bound - rank[i],
{
    if parent[i] != i {
        lemma_root_props(parent, rank, bound, parent[i] as int);
    }
}

/// Redirecting node `x` straight to its root keeps every node's root.
pub proof fn lemma_compress(parent: Seq<usize>, rank: Seq<nat>, bound: nat, x: int, j: int)
    requires
        ranked(parent, rank, bound),
        0 <= x < parent.len(),
        0 <= j < parent.len(),
    ensures
        ranked(parent.update(x, root_of(parent, rank, bound, x) as usize), rank, bound),
        root_of(parent.update(x, root_of(parent, rank, bound, x) as usize), rank, bound, j)
            == root_of(parent, rank, bound, j),
    decreases bound - rank[j],
{
    let r = root_of(parent, rank, bound, x);
    lemma_root_props(parent, rank, bound, x);
    let p2 = parent.update(x, r as usize);
    assert(ranked(p2, rank, bound));
    if j == x {
        if r != x {
            assert(p2[r] == r);
            assert(root_of(p2, rank, bound, r) == r);
        }
    } else if parent[j] != j {
        lemma_compress(parent, rank, bound, x, parent[j] as int);
    }
}

/// Hanging root `ra` under root `rb` (raising `rb`'s rank above `ra`'s): the
/// nodes rooted at `ra` become rooted at `rb`, the others keep their root.
pub proof fn lemma_link(parent: Seq<usize>, rank: Seq<nat>, bound: nat, ra: int, rb: int, j: int)
    requires
        ranked(parent, rank, bound),
        0 <= ra < parent.len(),
        0 <= rb < parent.len(),
        ra != rb,
        parent[ra] == ra,
        parent[rb] == rb,
        0 <= j < parent.len(),
    ensures
        ({
            let new_rank = if rank[rb] > rank[ra] { rank[rb] } else { rank[ra] + 1 };
            let rank2 = rank.update(rb, new_rank);
            let bound2 = if bound > new_rank { bound } else { new_rank + 1 };
            let p2 = parent.update(ra, rb as usize);
            &&& ranked(p2, rank2, bound2)
            &&& root_of(p2, rank2, bound2, j) == (if root_of(parent, rank, bound, j) == ra {
                rb
            } else {
                root_of(parent, rank, bound, j)
            })
        }),
    decreases bound - rank[j],
{
    let new_rank = if rank[rb] > rank[ra] { rank[rb] } else { rank[ra] + 1 };
    let rank2 = rank.update(rb, new_rank);
    let bound2 = if bound > new_rank { bound } else { new_rank + 1 };
    let p2 = parent.update(ra, rb as usize);
    assert forall|i: int| 0 <= i < p2.len() && p2[i] != i implies #[trigger] rank2[i] < rank2[p2[i] as int] by {
        if i == ra {
        } else {
            assert(parent[i] != i);
            if parent[i] as int == rb {
            }
        }
    }
    assert(ranked(p2, rank2, bound2));
    if j == ra {
        assert(p2[rb] == rb);
        assert(root_of(p2, rank2, bound2, rb) == rb);
    } else if parent[j] == j {
    } else {
        lemma_link(parent, rank, bound, ra, rb, parent[j] as int);
    }
}

/// Appending a fresh self-rooted node keeps every other node's root.
pub proof fn lemma_extend(parent: Seq<usize>, rank: Seq<nat>, bound: nat, j: int)
    requires
        ranked(parent, rank, bound),
        0 <= j < parent.len(),
        parent.len() < usize::MAX,
    ensures
        ranked(parent.push(parent.len() as usize), rank.push(0), bound + 1),
        root_of(parent.push(parent.len() as usize), rank.push(0), bound + 1, j)
            == root_of(parent, rank, bound, j),
    decreases bound - rank[j],
{
    let p2 = parent.push(parent.len() as usize);
    let r2 = rank.push(0);
    assert(ranked(p2, r2, bound + 1)) by {
        assert forall|i: int| 0 <= i < p2.len() && p2[i] != i implies #[trigger] r2[i] < r2[p2[i] as int] by {
            assert(i < parent.len());
        }
    }
    if parent[j] != j {
        lemma_extend(parent, rank, bound, parent[j] as int);
    }
}

/// A union-find forest over interned string identifiers.
pub struct UnionFind {
    names: Vec<Vec<char>>,
    parent: Vec<usize>,
    rank: Ghost<Seq<nat>>,
    bound: Ghost<nat>,
}

impl UnionFind {
    /// The identifiers are distinct and the forest is ranked.
    pub closed spec fn wf(&self) -> bool {
        &&& self.names@.len() == self.parent@.len()
        &&& self.parent@.len() < usize::MAX
        &&& ranked(self.parent@, self.rank@, self.bound@)
        &&& forall|i: int, j: int|
            0 <= i < self.names@.len() && 0 <= j < self.names@.len() && i != j
                ==> #[trigger] self.names@[i]@ != #[trigger] self.names@[j]@
    }

    /// The number of known identifiers.
    pub closed spec fn size(&self) -> nat {
        self.names@.len()
    }

    /// The known identifiers, in order of first appearance.
    pub closed spec fn ids(&self) -> Seq<Seq<char>> {
        text::seqs_of(self.names@)
    }

    /// The index of a known identifier.
    pub closed spec fn index_of(&self, k: Seq<char>) -> int {
        choose|i: int| 0 <= i < self.names@.len() && self.names@[i]@ == k
    }

    /// The root index of node `i`.
    pub closed spec fn root(&self, i: int) -> int {
        root_of(self.parent@, self.rank@, self.bound@, i)
    }
}

impl View for UnionFind {
    type V = Map<Seq<char>, Seq<char>>;

    /// The representative of every known identifier: the identifier at the
    /// root of its tree.
    closed spec fn view(&self) -> Map<Seq<char>, Seq<char>> {
        Map::new(
            |k: Seq<char>| self.ids().contains(k),
            |k: Seq<char>| self.names@[self.root(self.index_of(k))]@,
        )
    }
}

/// The representatives after `find(x)`: `x` becomes known, as its own class
/// if it was not known before.
pub open spec fn with_id(v: Map<Seq<char>, Seq<char>>, x: Seq<char>) -> Map<Seq<char>, Seq<char>> {
    if v.dom().contains(x) {
        v
    } else {
        v.insert(x, x)
    }
}

/// The representatives after `union(a, b)`: both become known, and the class
/// of `a` joins the class of `b`, whose representative it takes.
pub open spec fn joined(v: Map<Seq<char>, Seq<char>>, a: Seq<char>, b: Seq<char>) -> Map<Seq<char>, Seq<char>> {
    let v1 = with_id(with_id(v, a), b);
    Map::new(
        |k: Seq<char>| v1.dom().contains(k),
        |k: Seq<char>| if v1[k] == v1[a] { v1[b] } else { v1[k] },
    )
}

/// Every representative is a known identifier that represents itself.
pub open spec fn canonical(v: Map<Seq<char>, Seq<char>>) -> bool {
    forall|k: Seq<char>| #[trigger] v.dom().contains(k) ==> v.dom().contains(v[k]) && v[v[k]] == v[k]
}



/// After `union(a, b)` both identifiers are known and share a
/// representative.
pub proof fn law_union_joins(v: Map<Seq<char>, Seq<char>>, a: Seq<char>, b: Seq<char>)
    ensures
        joined(v, a, b).dom().contains(a),
        joined(v, a, b).dom().contains(b),
        joined(v, a, b)[a] == joined(v, a, b)[b],
{
}

/// `union` only merges: identifiers that shared a representative before
/// still share one after, and known identifiers stay known.
pub proof fn law_union_keeps_classes(v: Map<Seq<char>, Seq<char>>, a: Seq<char>, b: Seq<char>, x: Seq<char>, y: Seq<char>)
    requires
        v.dom().contains(x),
        v.dom().contains(y),
        v[x] == v[y],
    ensures
        joined(v, a, b).dom().contains(x),
        joined(v, a, b).dom().contains(y),
        joined(v, a, b)[x] == joined(v, a, b)[y],
{
}

/// `union` merges only the classes of `a` and `b`: two identifiers outside
/// both classes share a representative after it exactly when they did
/// before.
pub proof fn law_union_only_merges(v: Map<Seq<char>, Seq<char>>, a: Seq<char>, b: Seq<char>, x: Seq<char>, y: Seq<char>)
    requires
        canonical(v),
        v.dom().contains(a),
        v.dom().contains(b),
        v.dom().contains(x),
        v.dom().contains(y),
        v[x] != v[a],
        v[y] != v[a],
        v[x] != v[b],
        v[y] != v[b],
    ensures
        (joined(v, a, b)[x] == joined(v, a, b)[y]) == (v[x] == v[y]),
{
}

/// `union(a, b)` merges exactly the classes of `a` and `b`: two known
/// identifiers that share a representative after it shared one before, or
/// their classes were those of `a` and `b` (as `union` first finds them).
pub proof fn law_union_merges_exactly(v: Map<Seq<char>, Seq<char>>, a: Seq<char>, b: Seq<char>, x: Seq<char>, y: Seq<char>)
    requires
        v.dom().contains(x),
        v.dom().contains(y),
        joined(v, a, b)[x] == joined(v, a, b)[y],
    ensures
        ({
            let w = with_id(with_id(v, a), b);
            ||| v[x] == v[y]
            ||| (v[x] == w[a] && v[y] == w[b])
            ||| (v[x] == w[b] && v[y] == w[a])
        }),
{
}

/// `union` keeps the representatives canonical: each is known and
/// represents itself.
pub proof fn law_union_canonical(v: Map<Seq<char>, Seq<char>>, a: Seq<char>, b: Seq<char>)
    requires
        canonical(v),
    ensures
        canonical(joined(v, a, b)),
{
    let v1 = with_id(with_id(v, a), b);
    assert(canonical(v1));
    let w = joined(v, a, b);
    assert forall|k: Seq<char>| #[trigger] w.dom().contains(k) implies w.dom().contains(w[k]) && w[w[k]] == w[k] by {
        assert(v1.dom().contains(v1[k]));
        assert(v1.dom().contains(v1[b]));
        assert(v1[v1[b]] == v1[b]);
        if v1[k] == v1[a] {
            assert(w[k] == v1[b]);
            if v1[v1[b]] == v1[a] {
            } else {
                assert(v1[b] != v1[a]);
            }
        } else {
            assert(w[k] == v1[k]);
            assert(v1[v1[k]] == v1[k]);
        }
    }
}

/// `find` is idempotent: asking again changes nothing, and asking never
/// changes a known identifier's representative.
pub proof fn law_find_idempotent(v: Map<Seq<char>, Seq<char>>, x: Seq<char>, y: Seq<char>)
    ensures
        with_id(with_id(v, x), x) == with_id(v, x),
        v.dom().contains(y) ==> with_id(v, x)[y] == v[y],
{
}

impl UnionFind {
    proof fn lemma_index_of(&self, i: int)
        requires
            self.wf(),
            0 <= i < self.names@.len(),
        ensures
            self.index_of(self.names@[i]@) == i,
            self.ids().contains(self.names@[i]@),
    {
        let k = self.names@[i]@;
        assert(self.ids()[i] == k);
        let j = self.index_of(k);
        assert(0 <= j < self.names@.len() && self.names@[j]@ == k);
    }

    proof fn lemma_ids_index(&self, k: Seq<char>)
        requires
            self.wf(),
            self.ids().contains(k),
        ensures
            0 <= self.index_of(k) < self.names@.len(),
            self.names@[self.index_of(k)]@ == k,
    {
        let i = choose|i: int| 0 <= i < self.ids().len() && self.ids()[i] == k;
        assert(self.names@[i]@ == k);
    }

    /// The representatives form a canonical map.
    pub proof fn lemma_canonical(&self)
        requires
            self.wf(),
        ensures
            canonical(self@),
    {
        assert forall|k: Seq<char>| #[trigger] self@.dom().contains(k) implies self@.dom().contains(self@[k])
            && self@[self@[k]] == self@[k] by {
            self.lemma_ids_index(k);
            let i = self.index_of(k);
            lemma_root_props(self.parent@, self.rank@, self.bound@, i);
            let r = self.root(i);
            self.lemma_index_of(r);
            assert(self.root(r) == r);
        }
    }

    /// An empty forest.
    pub fn new() -> (uf: Self)
        ensures
            uf.wf(),
            uf.size() == 0,
            uf@ == Map::<Seq<char>, Seq<char>>::empty(),
    {
        let uf = UnionFind { names: Vec::new(), parent: Vec::new(), rank: Ghost(Seq::empty()), bound: Ghost(0) };
        assert(uf@ =~= Map::<Seq<char>, Seq<char>>::empty());
        uf
    }

    /// The index of a known identifier.
    fn lookup(&self, x: &[char]) -> (r: Option<usize>)
        requires
            self.wf(),
        ensures
            r matches Some(i) ==> i < self.names@.len() && self.names@[i as int]@ == x@,
            r is None ==> !self.ids().contains(x@),
    {
        let mut i: usize = 0;
        while i < self.names.len()
            invariant
                self.wf(),
                i <= self.names@.len(),
                forall|j: int| 0 <= j < i ==> self.names@[j]@ != x@,
            decreases self.names@.len() - i,
        {
            if text::chars_eq(self.names[i].as_slice(), x) {
                return Some(i);
            }
            i += 1;
        }
        assert forall|j: int| 0 <= j < self.ids().len() implies self.ids()[j] != x@ by {
            assert(self.ids()[j] == self.names@[j]@);
        }
        None
    }

    /// Adds a new identifier as its own class.
    fn add(&mut self, x: Vec<char>) -> (r: usize)
        requires
            old(self).wf(),
            !old(self).ids().contains(x@),
            old(self).names@.len() + 1 < usize::MAX,
        ensures
            final(self).wf(),
            r == old(self).names@.len(),
            final(self).names@ == old(self).names@.push(x),
            final(self).root(r as int) == r,
            forall|j: int| 0 <= j < old(self).names@.len() ==> final(self).root(j) == old(self).root(j),
    {
        let n = self.names.len();
        let ghost old_parent = self.parent@;
        let ghost old_rank = self.rank@;
        let ghost old_bound = self.bound@;
        let ghost old_names = self.names@;
        proof {
            assert forall|j: int| 0 <= j < old_names.len() implies old_names[j]@ != x@ by {
                assert(text::seqs_of(old_names)[j] == old_names[j]@);
            }
        }
        self.names.push(x);
        self.parent.push(n);
        self.rank = Ghost(self.rank@.push(0));
        self.bound = Ghost(self.bound@ + 1);
        proof {
            assert forall|j: int| 0 <= j < old_parent.len() implies #[trigger] self.root(j) == root_of(old_parent, old_rank, old_bound, j) by {
                lemma_extend(old_parent, old_rank, old_bound, j);
            }
            if old_parent.len() > 0 {
                lemma_extend(old_parent, old_rank, old_bound, 0);
            } else {
                assert(ranked(self.parent@, self.rank@, self.bound@));
            }
            assert(self.parent@[n as int] == n);
        }
        n
    }

    /// Follows parent edges from node `i` to its root, redirecting `i`
    /// straight to the root on the way back.
    fn find_root(&mut self, i: usize) -> (r: usize)
        requires
            old(self).wf(),
            i < old(self).names@.len(),
        ensures
            final(self).wf(),
            final(self).names@ == old(self).names@,
            final(self).rank@ == old(self).rank@,
            final(self).bound@ == old(self).bound@,
            r == old(self).root(i as int),
            forall|j: int| 0 <= j < old(self).names@.len() ==> final(self).root(j) == old(self).root(j),
        decreases old(self).bound@ - old(self).rank@[i as int],
    {
        let p = self.parent[i];
        if p == i {
            return i;
        }
        proof {
            assert(self.rank@[i as int] < self.rank@[p as int]);
        }
        let ghost before = self.parent@;
        let r = self.find_root(p);
        let ghost mid = self.parent@;
        proof {
            assert(self.root(i as int) == root_of(before, self.rank@, self.bound@, i as int));
            lemma_root_props(mid, self.rank@, self.bound@, i as int);
        }
        assert(r == root_of(mid, self.rank@, self.bound@, i as int)) by {
            if mid[i as int] == i {
                // i is a root now, yet it was not one before: its root is preserved.
                assert(root_of(mid, self.rank@, self.bound@, i as int) == i);
                assert(root_of(before, self.rank@, self.bound@, i as int) == root_of(before, self.rank@, self.bound@, p as int));
            }
        }
        self.parent.set(i, r);
        proof {
            assert forall|j: int| 0 <= j < mid.len() implies #[trigger] self.root(j) == root_of(mid, self.rank@, self.bound@, j) by {
                lemma_compress(mid, self.rank@, self.bound@, i as int, j);
            }
            lemma_compress(mid, self.rank@, self.bound@, i as int, i as int);
        }
        r
    }
}


impl UnionFind {
    /// Two forests over the same identifiers with the same roots have the
    /// same representatives.
    proof fn lemma_same_view(a: &UnionFind, b: &UnionFind)
        requires
            a.wf(),
            b.wf(),
            a.names@ == b.names@,
            forall|j: int| 0 <= j < a.names@.len() ==> a.root(j) == b.root(j),
        ensures
            a@ == b@,
    {
        assert(a.ids() == b.ids());
        assert forall|k: Seq<char>| a@.dom().contains(k) implies a@[k] == b@[k] by {
            a.lemma_ids_index(k);
        }
        assert(a@ =~= b@);
    }

    /// Linking root `ra` under root `rb` moves the class of `ra` into the class
    /// of `rb`.
    proof fn lemma_linked_view(s2: &UnionFind, s3: &UnionFind, ra: int, rb: int, a: Seq<char>, b: Seq<char>)
        requires
            s2.wf(),
            s3.wf(),
            s2.names@ == s3.names@,
            0 <= ra < s2.names@.len(),
            0 <= rb < s2.names@.len(),
            s2@.dom().contains(a),
            s2@.dom().contains(b),
            s2@[a] == s2.names@[ra]@,
            s2@[b] == s2.names@[rb]@,
            forall|j: int| 0 <= j < s2.names@.len() ==> #[trigger] s3.root(j) == (if s2.root(j) == ra { rb } else { s2.root(j) }),
        ensures
            s3@ == Map::new(
                |k: Seq<char>| s2@.dom().contains(k),
                |k: Seq<char>| if s2@[k] == s2@[a] { s2@[b] } else { s2@[k] },
            ),
    {
        assert(s3.ids() == s2.ids());
        assert forall|k: Seq<char>| #[trigger] s2@.dom().contains(k)
            implies s3@.dom().contains(k) && s3@[k] == (if s2@[k] == s2@[a] { s2@[b] } else { s2@[k] }) by {
            s2.lemma_ids_index(k);
            let j = s2.index_of(k);
            lemma_root_props(s2.parent@, s2.rank@, s2.bound@, j);
            if s2.root(j) != ra {
                assert(s2.names@[s2.root(j)]@ != s2.names@[ra]@);
            }
        }
        assert(s3@ =~= Map::new(
            |k: Seq<char>| s2@.dom().contains(k),
            |k: Seq<char>| if s2@[k] == s2@[a] { s2@[b] } else { s2@[k] },
        ));
    }

    /// Makes `x` known (as its own class if new) and returns its index.
    fn ensure_id(&mut self, x: &[char]) -> (r: usize)
        requires
            old(self).wf(),
            old(self).names@.len() + 1 < usize::MAX,
        ensures
            final(self).wf(),
            final(self)@ == with_id(old(self)@, x@),
            r < final(self).names@.len(),
            final(self).names@[r as int]@ == x@,
            final(self).names@.len() <= old(self).names@.len() + 1,
            final(self).names@.len() >= old(self).names@.len(),
            forall|j: int| 0 <= j < old(self).names@.len() ==> final(self).names@[j] == old(self).names@[j],
    {
        match self.lookup(x) {
            Some(i) => {
                proof { self.lemma_index_of(i as int); }
                i
            },
            None => {
                let ghost old_self = *self;
                let v = text::slice_to_vec(x, 0, x.len());
                assert(v@ =~= x@);
                let ghost vv = v;
                let i = self.add(v);
                proof {
                    text::lemma_seqs_of_push(old_self.names@, vv);
                    assert(self.ids() =~= old_self.ids().push(x@));
                    assert forall|k: Seq<char>| #[trigger] with_id(old_self@, x@).dom().contains(k)
                        implies self@.dom().contains(k) && self@[k] == with_id(old_self@, x@)[k] by {
                        if k == x@ {
                            self.lemma_index_of(i as int);
                        } else {
                            old_self.lemma_ids_index(k);
                            let j = old_self.index_of(k);
                            self.lemma_index_of(j);
                            lemma_root_props(old_self.parent@, old_self.rank@, old_self.bound@, j);
                        }
                    }
                    assert forall|k: Seq<char>| #[trigger] self@.dom().contains(k)
                        implies with_id(old_self@, x@).dom().contains(k) by {
                        let j = choose|j: int| 0 <= j < self.ids().len() && self.ids()[j] == k;
                        if j < old_self.ids().len() {
                            assert(old_self.ids()[j] == k);
                        }
                    }
                    assert(self@ =~= with_id(old_self@, x@));
                }
                i
            },
        }
    }

    /// The representative of `x`, which becomes known if it was not
    /// (`UnionFind::find`).
    pub fn find(&mut self, x: &str) -> (r: String)
        requires
            old(self).wf(),
            old(self).size() + 1 < usize::MAX,
        ensures
            final(self).wf(),
            final(self)@ == with_id(old(self)@, x@),
            r@ == final(self)@[x@],
            final(self).size() <= old(self).size() + 1,
    {
        let xs = text::str_chars(x);
        let i = self.ensure_id(xs.as_slice());
        let ghost mid = *self;
        let r = self.find_root(i);
        proof {
            UnionFind::lemma_same_view(&mid, self);
            self.lemma_index_of(i as int);
            lemma_root_props(mid.parent@, mid.rank@, mid.bound@, i as int);
        }
        text::chars_to_string(self.names[r].as_slice())
    }

    /// The representative of the identifier at index `i`.
    proof fn lemma_view_at(&self, i: int)
        requires
            self.wf(),
            0 <= i < self.names@.len(),
        ensures
            self@.dom().contains(self.names@[i]@),
            self@[self.names@[i]@] == self.names@[self.root(i)]@,
            0 <= self.root(i) < self.names@.len(),
    {
        self.lemma_index_of(i);
        lemma_root_props(self.parent@, self.rank@, self.bound@, i);
    }

    /// Makes `a` and `b` known and returns the roots of their trees.
    fn root_pair(&mut self, a: &str, b: &str) -> (r: (usize, usize))
        requires
            old(self).wf(),
            old(self).size() + 2 < usize::MAX,
        ensures
            final(self).wf(),
            final(self)@ == with_id(with_id(old(self)@, a@), b@),
            final(self).size() <= old(self).size() + 2,
            r.0 < final(self).names@.len(),
            r.1 < final(self).names@.len(),
            final(self).parent@[r.0 as int] == r.0,
            final(self).parent@[r.1 as int] == r.1,
            final(self)@.dom().contains(a@),
            final(self)@.dom().contains(b@),
            final(self)@[a@] == final(self).names@[r.0 as int]@,
            final(self)@[b@] == final(self).names@[r.1 as int]@,
    {
        let ac = text::str_chars(a);
        let bc = text::str_chars(b);
        let ia = self.ensure_id(ac.as_slice());
        let ib = self.ensure_id(bc.as_slice());
        let ghost s1 = *self;
        let ra = self.find_root(ia);
        let ghost mid = *self;
        let rb = self.find_root(ib);
        proof {
            assert(mid.root(ia as int) == s1.root(ia as int));
            assert(self.root(ia as int) == mid.root(ia as int));
            assert(self.root(ib as int) == mid.root(ib as int));
            UnionFind::lemma_same_view(&s1, &mid);
            UnionFind::lemma_same_view(&mid, self);
            self.lemma_view_at(ia as int);
            self.lemma_view_at(ib as int);
            lemma_root_props(self.parent@, self.rank@, self.bound@, ia as int);
            lemma_root_props(self.parent@, self.rank@, self.bound@, ib as int);
        }
        (ra, rb)
    }

    /// Hangs root `ra` under root `rb`.
    fn link(&mut self, ra: usize, rb: usize, Ghost(a): Ghost<Seq<char>>, Ghost(b): Ghost<Seq<char>>)
        requires
            old(self).wf(),
            ra < old(self).names@.len(),
            rb < old(self).names@.len(),
            ra != rb,
            old(self).parent@[ra as int] == ra,
            old(self).parent@[rb as int] == rb,
            old(self)@.dom().contains(a),
            old(self)@.dom().contains(b),
            old(self)@[a] == old(self).names@[ra as int]@,
            old(self)@[b] == old(self).names@[rb as int]@,
        ensures
            final(self).wf(),
            final(self).size() == old(self).size(),
            final(self)@ == Map::new(
                |k: Seq<char>| old(self)@.dom().contains(k),
                |k: Seq<char>| if old(self)@[k] == old(self)@[a] { old(self)@[b] } else { old(self)@[k] },
            ),
    {
        let ghost s2 = *self;
        let ghost p = self.parent@;
        let ghost rk = self.rank@;
        let ghost bd = self.bound@;
        let ghost new_rank: nat = if rk[rb as int] > rk[ra as int] { rk[rb as int] } else { rk[ra as int] + 1 };
        self.parent.set(ra, rb);
        self.rank = Ghost(rk.update(rb as int, new_rank));
        self.bound = Ghost(if bd > new_rank { bd } else { new_rank + 1 });
        proof {
            lemma_link(p, rk, bd, ra as int, rb as int, ra as int);
            assert forall|j: int| 0 <= j < p.len() implies #[trigger] self.root(j) == (if s2.root(j) == ra { rb as int } else { s2.root(j) }) by {
                lemma_link(p, rk, bd, ra as int, rb as int, j);
            }
            UnionFind::lemma_linked_view(&s2, self, ra as int, rb as int, a, b);
        }
    }

    /// Joins the classes of `a` and `b` under the representative of `b`
    /// (`UnionFind::union`).
    pub fn union(&mut self, a: &str, b: &str)
        requires
            old(self).wf(),
            old(self).size() + 2 < usize::MAX,
        ensures
            final(self).wf(),
            final(self)@ == joined(old(self)@, a@, b@),
            final(self).size() <= old(self).size() + 2,
    {
        let ghost v0 = self@;
        let (ra, rb) = self.root_pair(a, b);
        let ghost v1 = self@;
        if ra != rb {
            self.link(ra, rb, Ghost(a@), Ghost(b@));
        } else {
            proof { lemma_joined_same(v1, a@, b@); }
        }
    }
}

/// When `a` and `b` already share a representative, joining changes nothing.
proof fn lemma_joined_same(v: Map<Seq<char>, Seq<char>>, a: Seq<char>, b: Seq<char>)
    requires
        v.dom().contains(a),
        v.dom().contains(b),
        v[a] == v[b],
    ensures
        Map::new(
            |k: Seq<char>| v.dom().contains(k),
            |k: Seq<char>| if v[k] == v[a] { v[b] } else { v[k] },
        ) == v,
{
    assert(Map::new(
        |k: Seq<char>| v.dom().contains(k),
        |k: Seq<char>| if v[k] == v[a] { v[b] } else { v[k] },
    ) =~= v);
}

} // verus!
