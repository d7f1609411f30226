//! Thread detection and per-message conversation assignments.
//!
//! Messages are linked into threads through `In-Reply-To` and `References`
//! with a union-find; each thread gets a participant key (the union of its
//! messages' participants), a conversation identifier derived from that key,
//! and each message records how its participants changed from the message
//! before it in the thread.
use vstd::prelude::*;
use crate::text;
use crate::union_find::{self, UnionFind};
use crate::sorted_set;
use crate::participants::{self, AddressRule};
use crate::digest;

verus! {

broadcast use vstd::string::group_string_axioms;

/// One stored message, as far as threading needs it.
pub struct ThreadMsg {
    pub db_id: String,
    pub message_id: String,
    pub in_reply_to: Option<String>,
    pub references: Vec<String>,
    pub date: i64,
    pub from_address: String,
    pub to_addresses: Vec<String>,
    pub cc_addresses: Vec<String>,
}

/// What threading assigns to one message.
pub struct ThreadAssignment {
    pub db_id: String,
    pub participant_key: String,
    pub conversation_id: String,
    pub participant_changes: Option<String>,
    pub thread_id: String,
}

// ── Linking ─────────────────────────────────────────────────────────────────

/// Joins `id` with each of `refs`, in order.
pub open spec fn link_refs(v: Map<Seq<char>, Seq<char>>, id: Seq<char>, refs: Seq<Seq<char>>) -> Map<Seq<char>, Seq<char>>
    decreases refs.len(),
{
    if refs.len() == 0 {
        v
    } else {
        union_find::joined(link_refs(v, id, refs.drop_last()), id, refs.last())
    }
}

/// Joins a message with the message it replies to, then with each message
/// it references.
pub open spec fn link_message(v: Map<Seq<char>, Seq<char>>, m: ThreadMsg) -> Map<Seq<char>, Seq<char>> {
    let v1 = match m.in_reply_to {
        Some(r) => union_find::joined(v, m.message_id@, r@),
        None => v,
    };
    link_refs(v1, m.message_id@, participants::views(m.references@))
}

/// The representatives after linking all messages in order.
pub open spec fn link_all(msgs: Seq<ThreadMsg>) -> Map<Seq<char>, Seq<char>>
    decreases msgs.len(),
{
    if msgs.len() == 0 {
        Map::<Seq<char>, Seq<char>>::empty()
    } else {
        link_message(link_all(msgs.drop_last()), msgs.last())
    }
}

/// Upper bound on the identifiers that linking can introduce.
pub open spec fn link_count(msgs: Seq<ThreadMsg>) -> int
    decreases msgs.len(),
{
    if msgs.len() == 0 {
        0
    } else {
        link_count(msgs.drop_last()) + 2 * (msgs.last().references@.len() + 1) + 1
    }
}

pub proof fn lemma_link_count_mono(msgs: Seq<ThreadMsg>, k: int)
    requires
        0 <= k <= msgs.len(),
    ensures
        link_count(msgs.take(k)) <= link_count(msgs),
        link_count(msgs.take(k)) >= 0,
    decreases msgs.len(),
{
    if k < msgs.len() {
        assert(msgs.drop_last().take(k) =~= msgs.take(k));
        lemma_link_count_mono(msgs.drop_last(), k);
    } else {
        assert(msgs.take(k) =~= msgs);
        if msgs.len() > 0 {
            lemma_link_count_mono(msgs.drop_last(), 0);
            assert(msgs.drop_last().take(0) =~= msgs.take(0));
        }
    }
}

/// Links one message into the forest.
fn link_one(uf: &mut UnionFind, m: &ThreadMsg)
    requires
        old(uf).wf(),
        old(uf).size() + 2 * (m.references@.len() + 1) + 2 < usize::MAX,
    ensures
        final(uf).wf(),
        final(uf)@ == link_message(old(uf)@, *m),
        final(uf).size() <= old(uf).size() + 2 * (m.references@.len() + 1),
{
    let ghost v0 = uf@;
    let ghost s0 = uf.size();
    if let Some(reply_to) = &m.in_reply_to {
        uf.union(m.message_id.as_str(), reply_to.as_str());
    }
    let ghost v1 = uf@;
    let ghost refs = participants::views(m.references@);
    assert(refs.take(0) =~= Seq::<Seq<char>>::empty());
    let mut k: usize = 0;
    while k < m.references.len()
        invariant
            k <= m.references@.len(),
            refs == participants::views(m.references@),
            uf.wf(),
            uf@ == link_refs(v1, m.message_id@, refs.take(k as int)),
            uf.size() <= s0 + 2 + 2 * k,
            s0 + 2 * (m.references@.len() + 1) + 2 < usize::MAX,
        decreases m.references@.len() - k,
    {
        uf.union(m.message_id.as_str(), m.references[k].as_str());
        assert(refs.take(k + 1).drop_last() =~= refs.take(k as int));
        assert(refs.take(k + 1).last() == m.references@[k as int]@);
        k += 1;
    }
    assert(refs.take(m.references@.len() as int) =~= refs);
}

/// Links all messages into a fresh forest.
fn link_messages(msgs: &[ThreadMsg]) -> (uf: UnionFind)
    requires
        link_count(msgs@) + 2 < usize::MAX,
    ensures
        uf.wf(),
        uf@ == link_all(msgs@),
        uf.size() <= link_count(msgs@),
{
    let mut uf = UnionFind::new();
    let mut i: usize = 0;
    assert(msgs@.take(0) =~= Seq::<ThreadMsg>::empty());
    while i < msgs.len()
        invariant
            i <= msgs@.len(),
            uf.wf(),
            uf@ == link_all(msgs@.take(i as int)),
            uf.size() <= link_count(msgs@.take(i as int)),
            link_count(msgs@) + 2 < usize::MAX,
        decreases msgs@.len() - i,
    {
        proof {
            lemma_link_count_mono(msgs@, i + 1);
            assert(msgs@.take(i + 1).drop_last() =~= msgs@.take(i as int));
            assert(msgs@.take(i + 1).last() == msgs@[i as int]);
        }
        link_one(&mut uf, &msgs[i]);
        i += 1;
    }
    assert(msgs@.take(msgs@.len() as int) =~= msgs@);
    uf
}


// ── Laws of linking ─────────────────────────────────────────────────────────

proof fn lemma_link_refs_keeps(v: Map<Seq<char>, Seq<char>>, id: Seq<char>, refs: Seq<Seq<char>>, x: Seq<char>, y: Seq<char>)
    requires
        v.dom().contains(x),
        v.dom().contains(y),
        v[x] == v[y],
    ensures
        link_refs(v, id, refs).dom().contains(x),
        link_refs(v, id, refs).dom().contains(y),
        link_refs(v, id, refs)[x] == link_refs(v, id, refs)[y],
    decreases refs.len(),
{
    if refs.len() > 0 {
        lemma_link_refs_keeps(v, id, refs.drop_last(), x, y);
        union_find::law_union_keeps_classes(link_refs(v, id, refs.drop_last()), id, refs.last(), x, y);
    }
}

proof fn lemma_link_refs_joins(v: Map<Seq<char>, Seq<char>>, id: Seq<char>, refs: Seq<Seq<char>>, k: int)
    requires
        0 <= k < refs.len(),
    ensures
        link_refs(v, id, refs).dom().contains(id),
        link_refs(v, id, refs).dom().contains(refs[k]),
        link_refs(v, id, refs)[id] == link_refs(v, id, refs)[refs[k]],
    decreases refs.len(),
{
    let d = refs.drop_last();
    let w = link_refs(v, id, d);
    if k == refs.len() - 1 {
        union_find::law_union_joins(w, id, refs.last());
    } else {
        lemma_link_refs_joins(v, id, d, k);
        assert(d[k] == refs[k]);
        union_find::law_union_keeps_classes(w, id, refs.last(), id, refs[k]);
    }
}

proof fn lemma_link_message_keeps(v: Map<Seq<char>, Seq<char>>, m: ThreadMsg, x: Seq<char>, y: Seq<char>)
    requires
        v.dom().contains(x),
        v.dom().contains(y),
        v[x] == v[y],
    ensures
        link_message(v, m).dom().contains(x),
        link_message(v, m).dom().contains(y),
        link_message(v, m)[x] == link_message(v, m)[y],
{
    let v1 = match m.in_reply_to {
        Some(r) => union_find::joined(v, m.message_id@, r@),
        None => v,
    };
    if let Some(r) = m.in_reply_to {
        union_find::law_union_keeps_classes(v, m.message_id@, r@, x, y);
    }
    lemma_link_refs_keeps(v1, m.message_id@, participants::views(m.references@), x, y);
}

proof fn lemma_link_all_keeps(msgs: Seq<ThreadMsg>, k: int, x: Seq<char>, y: Seq<char>)
    requires
        0 <= k <= msgs.len(),
        link_all(msgs.take(k)).dom().contains(x),
        link_all(msgs.take(k)).dom().contains(y),
        link_all(msgs.take(k))[x] == link_all(msgs.take(k))[y],
    ensures
        link_all(msgs).dom().contains(x),
        link_all(msgs).dom().contains(y),
        link_all(msgs)[x] == link_all(msgs)[y],
    decreases msgs.len(),
{
    if k == msgs.len() {
        assert(msgs.take(k) =~= msgs);
    } else {
        assert(msgs.drop_last().take(k) =~= msgs.take(k));
        lemma_link_all_keeps(msgs.drop_last(), k, x, y);
        lemma_link_message_keeps(link_all(msgs.drop_last()), msgs.last(), x, y);
    }
}

/// The representatives after linking the first `j + 1` messages.
proof fn lemma_link_all_step(msgs: Seq<ThreadMsg>, j: int)
    requires
        0 <= j < msgs.len(),
    ensures
        link_all(msgs.take(j + 1)) == link_message(link_all(msgs.take(j)), msgs[j]),
{
    assert(msgs.take(j + 1).drop_last() =~= msgs.take(j));
    assert(msgs.take(j + 1).last() == msgs[j]);
}

/// A reply is in the thread of the message it replies to.
pub proof fn law_reply_joins_thread(msgs: Seq<ThreadMsg>, i: int, j: int, empty_as_own: bool)
    requires
        0 <= i < msgs.len(),
        0 <= j < msgs.len(),
        msgs[j].in_reply_to matches Some(r) && r@ == msgs[i].message_id@,
        empty_as_own ==> msgs[i].message_id@.len() > 0 && msgs[j].message_id@.len() > 0,
    ensures
        root_at(msgs, i, empty_as_own) == root_at(msgs, j, empty_as_own),
{
    let m = msgs[j];
    let r = m.in_reply_to->0;
    let pre = link_all(msgs.take(j));
    lemma_link_all_step(msgs, j);
    union_find::law_union_joins(pre, m.message_id@, r@);
    let v1 = union_find::joined(pre, m.message_id@, r@);
    lemma_link_refs_keeps(v1, m.message_id@, participants::views(m.references@), m.message_id@, r@);
    lemma_link_all_keeps(msgs, j + 1, m.message_id@, r@);
}

/// A message is in the thread of every message it references.
pub proof fn law_reference_joins_thread(msgs: Seq<ThreadMsg>, i: int, j: int, k: int, empty_as_own: bool)
    requires
        0 <= i < msgs.len(),
        0 <= j < msgs.len(),
        0 <= k < msgs[j].references@.len(),
        msgs[j].references@[k]@ == msgs[i].message_id@,
        empty_as_own ==> msgs[i].message_id@.len() > 0 && msgs[j].message_id@.len() > 0,
    ensures
        root_at(msgs, i, empty_as_own) == root_at(msgs, j, empty_as_own),
{
    let m = msgs[j];
    let pre = link_all(msgs.take(j));
    let v1 = match m.in_reply_to {
        Some(r) => union_find::joined(pre, m.message_id@, r@),
        None => pre,
    };
    let refs = participants::views(m.references@);
    lemma_link_all_step(msgs, j);
    lemma_link_refs_joins(v1, m.message_id@, refs, k);
    assert(refs[k] == msgs[i].message_id@);
    lemma_link_all_keeps(msgs, j + 1, m.message_id@, refs[k]);
}

// ── Thread roots ────────────────────────────────────────────────────────────

/// The thread of a message: the representative of its identifier after
/// linking (the identifier itself when it was never linked). When
/// `empty_as_own` holds, a message without identifier is a thread of its own,
/// named by its database id.
pub open spec fn thread_root(v: Map<Seq<char>, Seq<char>>, m: ThreadMsg, empty_as_own: bool) -> Seq<char> {
    if empty_as_own && m.message_id@.len() == 0 {
        m.db_id@
    } else if v.dom().contains(m.message_id@) {
        v[m.message_id@]
    } else {
        m.message_id@
    }
}

/// The thread root of message `i`.
pub open spec fn root_at(msgs: Seq<ThreadMsg>, i: int, empty_as_own: bool) -> Seq<char> {
    thread_root(link_all(msgs), msgs[i], empty_as_own)
}

/// `uf` holds the representatives of `v`, plus identifiers of their own.
pub open spec fn extends(uf: Map<Seq<char>, Seq<char>>, v: Map<Seq<char>, Seq<char>>) -> bool {
    &&& forall|x: Seq<char>| #[trigger] v.dom().contains(x) ==> uf.dom().contains(x)
    &&& forall|x: Seq<char>| #[trigger] uf.dom().contains(x) ==> uf[x] == (if v.dom().contains(x) { v[x] } else { x })
}

/// The thread root of every message (finding each identifier in the forest).
fn thread_roots(uf: &mut UnionFind, msgs: &[ThreadMsg], empty_as_own: bool) -> (r: Vec<Vec<char>>)
    requires
        old(uf).wf(),
        old(uf)@ == link_all(msgs@),
        old(uf).size() + msgs@.len() + 1 < usize::MAX,
    ensures
        r@.len() == msgs@.len(),
        forall|i: int| 0 <= i < msgs@.len() ==> #[trigger] r@[i]@ == root_at(msgs@, i, empty_as_own),
{
    let ghost v = uf@;
    let ghost s0 = uf.size();
    let mut r: Vec<Vec<char>> = Vec::new();
    let mut i: usize = 0;
    while i < msgs.len()
        invariant
            i <= msgs@.len(),
            uf.wf(),
            v == link_all(msgs@),
            extends(uf@, v),
            uf.size() <= s0 + i,
            s0 + msgs@.len() + 1 < usize::MAX,
            r@.len() == i,
            forall|j: int| 0 <= j < i ==> #[trigger] r@[j]@ == root_at(msgs@, j, empty_as_own),
        decreases msgs@.len() - i,
    {
        let m = &msgs[i];
        if empty_as_own && m.message_id.as_str().unicode_len() == 0 {
            r.push(text::string_chars(&m.db_id));
        } else {
            let root = uf.find(m.message_id.as_str());
            proof {
                assert forall|x: Seq<char>| #[trigger] uf@.dom().contains(x)
                    implies uf@[x] == (if v.dom().contains(x) { v[x] } else { x }) by {
                }
            }
            r.push(text::string_chars(&root));
        }
        i += 1;
    }
    r
}

// ── Participants per thread ─────────────────────────────────────────────────

/// The participants of message `m` under `rule`.
pub open spec fn msg_participants(rule: AddressRule, m: ThreadMsg, selfs: Seq<Seq<char>>) -> Set<Seq<char>> {
    Set::new(|y: Seq<char>| participants::is_participant(
        rule,
        participants::message_addresses(m.from_address@, participants::views(m.to_addresses@), participants::views(m.cc_addresses@)),
        selfs,
        y,
    ))
}

/// The participants of the whole thread of message `i`.
pub open spec fn thread_participants(msgs: Seq<ThreadMsg>, i: int, rule: AddressRule, empty_as_own: bool, selfs: Seq<Seq<char>>) -> Set<Seq<char>> {
    Set::new(|y: Seq<char>| exists|j: int| 0 <= j < msgs.len()
        && root_at(msgs, j, empty_as_own) == root_at(msgs, i, empty_as_own)
        && #[trigger] msg_participants(rule, msgs[j], selfs).contains(y))
}

/// The strictly increasing list of the elements of a set.
pub open spec fn sorted_of(s: Set<Seq<char>>) -> Seq<Seq<char>> {
    choose|l: Seq<Seq<char>>| sorted_set::sorted_strict(l) && forall|y: Seq<char>| #[trigger] l.contains(y) <==> s.contains(y)
}

/// A strictly increasing list of a set's elements is its `sorted_of`.
pub proof fn lemma_sorted_of(l: Seq<Seq<char>>, s: Set<Seq<char>>)
    requires
        sorted_set::sorted_strict(l),
        forall|y: Seq<char>| #[trigger] l.contains(y) <==> s.contains(y),
    ensures
        sorted_of(s) == l,
{
    let c = sorted_of(s);
    assert(sorted_set::sorted_strict(c) && forall|y: Seq<char>| #[trigger] c.contains(y) <==> s.contains(y));
    sorted_set::lemma_sorted_unique(c, l);
}

/// The participant key of a thread: its participants sorted and joined with
/// newlines.
pub open spec fn thread_key(msgs: Seq<ThreadMsg>, i: int, rule: AddressRule, empty_as_own: bool, selfs: Seq<Seq<char>>) -> Seq<char> {
    text::join(sorted_of(thread_participants(msgs, i, rule, empty_as_own, selfs)), seq!['\n'])
}

// ── Participant changes ─────────────────────────────────────────────────────

/// Message `j` comes before message `i` in date order (ties by position).
pub open spec fn earlier(msgs: Seq<ThreadMsg>, j: int, i: int) -> bool {
    msgs[j].date < msgs[i].date || (msgs[j].date == msgs[i].date && j < i)
}

/// `j` is the last message of `i`'s thread before `i`.
pub open spec fn is_previous(msgs: Seq<ThreadMsg>, i: int, j: int, empty_as_own: bool) -> bool {
    &&& 0 <= j < msgs.len()
    &&& root_at(msgs, j, empty_as_own) == root_at(msgs, i, empty_as_own)
    &&& earlier(msgs, j, i)
    &&& forall|k: int| #![trigger earlier(msgs, k, i)] 0 <= k < msgs.len()
        && root_at(msgs, k, empty_as_own) == root_at(msgs, i, empty_as_own)
        && earlier(msgs, k, i) ==> k == j || earlier(msgs, k, j)
}

/// The JSON record of a participant change.
pub open spec fn change_json(added: Seq<Seq<char>>, removed: Seq<Seq<char>>) -> Seq<char> {
    "{\"added\":"@ + digest::json_string_list(added) + ",\"removed\":"@ + digest::json_string_list(removed) + "}"@
}

/// The participant change recorded on message `i`: none for the first
/// message of a thread or when the participants did not change; otherwise
/// the sorted participants added and removed since the previous message.
pub open spec fn changes_at(msgs: Seq<ThreadMsg>, i: int, rule: AddressRule, empty_as_own: bool, selfs: Seq<Seq<char>>) -> Option<Seq<char>> {
    if exists|j: int| is_previous(msgs, i, j, empty_as_own) {
        let j = choose|j: int| is_previous(msgs, i, j, empty_as_own);
        let cur = msg_participants(rule, msgs[i], selfs);
        let prev = msg_participants(rule, msgs[j], selfs);
        let added = sorted_of(cur.difference(prev));
        let removed = sorted_of(prev.difference(cur));
        if added.len() == 0 && removed.len() == 0 {
            None
        } else {
            Some(change_json(added, removed))
        }
    } else {
        None
    }
}

/// The change recorded on a message, against the previous message of its
/// thread: under "added" the sorted participants it has that the previous
/// message had not, under "removed" the sorted participants the previous
/// message had that it has not; nothing is recorded when both are empty.
pub proof fn law_participant_change(
    msgs: Seq<ThreadMsg>,
    i: int,
    j: int,
    rule: AddressRule,
    empty_as_own: bool,
    selfs: Seq<Seq<char>>,
    joined: Seq<Seq<char>>,
    left: Seq<Seq<char>>,
)
    requires
        is_previous(msgs, i, j, empty_as_own),
        sorted_set::sorted_strict(joined),
        sorted_set::sorted_strict(left),
        forall|y: Seq<char>| #[trigger] joined.contains(y) <==>
            (msg_participants(rule, msgs[i], selfs).contains(y) && !msg_participants(rule, msgs[j], selfs).contains(y)),
        forall|y: Seq<char>| #[trigger] left.contains(y) <==>
            (msg_participants(rule, msgs[j], selfs).contains(y) && !msg_participants(rule, msgs[i], selfs).contains(y)),
    ensures
        changes_at(msgs, i, rule, empty_as_own, selfs) == if joined.len() == 0 && left.len() == 0 {
            None
        } else {
            Some("{\"added\":"@ + digest::json_string_list(joined) + ",\"removed\":"@ + digest::json_string_list(left) + "}"@)
        },
{
    let cur = msg_participants(rule, msgs[i], selfs);
    let prev = msg_participants(rule, msgs[j], selfs);
    let c = choose|k: int| is_previous(msgs, i, k, empty_as_own);
    lemma_previous_unique(msgs, i, c, j, empty_as_own);
    lemma_sorted_of(joined, cur.difference(prev));
    lemma_sorted_of(left, prev.difference(cur));
}

/// When a message keeps every participant of the previous message of its
/// thread and adds some (`carol` joins `alice` and `me`), the change
/// recorded on it lists the newcomers, sorted, under "added" and nothing
/// under "removed".
pub proof fn law_newcomers_are_added(
    msgs: Seq<ThreadMsg>,
    i: int,
    j: int,
    rule: AddressRule,
    empty_as_own: bool,
    selfs: Seq<Seq<char>>,
    joined: Seq<Seq<char>>,
)
    requires
        is_previous(msgs, i, j, empty_as_own),
        msg_participants(rule, msgs[j], selfs).subset_of(msg_participants(rule, msgs[i], selfs)),
        msg_participants(rule, msgs[j], selfs) != msg_participants(rule, msgs[i], selfs),
        sorted_set::sorted_strict(joined),
        forall|y: Seq<char>| #[trigger] joined.contains(y) <==>
            (msg_participants(rule, msgs[i], selfs).contains(y) && !msg_participants(rule, msgs[j], selfs).contains(y)),
    ensures
        joined.len() > 0,
        changes_at(msgs, i, rule, empty_as_own, selfs) == Some(
            "{\"added\":"@ + digest::json_string_list(joined) + ",\"removed\":"@
                + digest::json_string_list(Seq::empty()) + "}"@),
{
    let cur = msg_participants(rule, msgs[i], selfs);
    let prev = msg_participants(rule, msgs[j], selfs);
    let none: Seq<Seq<char>> = Seq::empty();
    assert forall|y: Seq<char>| #[trigger] none.contains(y) <==> (prev.contains(y) && !cur.contains(y)) by {}
    if joined.len() == 0 {
        assert forall|y: Seq<char>| #[trigger] cur.contains(y) <==> prev.contains(y) by {
            if cur.contains(y) && !prev.contains(y) {
                assert(joined.contains(y));
            }
        }
        assert(cur =~= prev);
    }
    law_participant_change(msgs, i, j, rule, empty_as_own, selfs, joined, none);
}


// ── Per-message computation ─────────────────────────────────────────────────

/// The precomputed roots and participant lists agree with the specification.
pub open spec fn tables_ok(
    msgs: Seq<ThreadMsg>,
    roots: Seq<Vec<char>>,
    parts: Seq<Vec<Vec<char>>>,
    rule: AddressRule,
    empty_as_own: bool,
    selfs: Seq<Seq<char>>,
) -> bool {
    &&& roots.len() == msgs.len()
    &&& parts.len() == msgs.len()
    &&& forall|j: int| 0 <= j < msgs.len() ==> #[trigger] roots[j]@ == root_at(msgs, j, empty_as_own)
    &&& forall|j: int| 0 <= j < msgs.len() ==> sorted_set::sorted_strict(text::seqs_of(#[trigger] parts[j]@))
    &&& forall|j: int, y: Seq<char>| 0 <= j < msgs.len() ==> (#[trigger] text::seqs_of(parts[j]@).contains(y)
        <==> msg_participants(rule, msgs[j], selfs).contains(y))
}

/// The participants of the thread of message `i`, strictly increasing.
fn thread_set(
    roots: &Vec<Vec<char>>,
    parts: &Vec<Vec<Vec<char>>>,
    i: usize,
    Ghost(msgs): Ghost<Seq<ThreadMsg>>,
    Ghost(rule): Ghost<AddressRule>,
    Ghost(empty_as_own): Ghost<bool>,
    Ghost(selfs): Ghost<Seq<Seq<char>>>,
) -> (r: Vec<Vec<char>>)
    requires
        tables_ok(msgs, roots@, parts@, rule, empty_as_own, selfs),
        i < msgs.len(),
    ensures
        sorted_set::sorted_strict(text::seqs_of(r@)),
        forall|y: Seq<char>| #[trigger] text::seqs_of(r@).contains(y)
            <==> thread_participants(msgs, i as int, rule, empty_as_own, selfs).contains(y),
{
    let mut set: Vec<Vec<char>> = Vec::new();
    assert(text::seqs_of(set@) =~= Seq::<Seq<char>>::empty());
    let mut j: usize = 0;
    while j < roots.len()
        invariant
            tables_ok(msgs, roots@, parts@, rule, empty_as_own, selfs),
            i < msgs.len(),
            j <= msgs.len(),
            sorted_set::sorted_strict(text::seqs_of(set@)),
            forall|y: Seq<char>| #[trigger] text::seqs_of(set@).contains(y) <==> exists|k: int| 0 <= k < j
                && root_at(msgs, k, empty_as_own) == root_at(msgs, i as int, empty_as_own)
                && #[trigger] msg_participants(rule, msgs[k], selfs).contains(y),
        decreases msgs.len() - j,
    {
        let ghost prev = text::seqs_of(set@);
        let same = text::chars_eq(roots[j].as_slice(), roots[i].as_slice());
        assert(roots@[j as int]@ == root_at(msgs, j as int, empty_as_own));
        assert(roots@[i as int]@ == root_at(msgs, i as int, empty_as_own));
        if same {
            sorted_set::insert_all(&mut set, &parts[j]);
        }
        proof {
            assert forall|y: Seq<char>| #[trigger] text::seqs_of(set@).contains(y) <==> exists|k: int| 0 <= k < j + 1
                && root_at(msgs, k, empty_as_own) == root_at(msgs, i as int, empty_as_own)
                && #[trigger] msg_participants(rule, msgs[k], selfs).contains(y) by {
                assert(text::seqs_of(parts@[j as int]@).contains(y) <==> msg_participants(rule, msgs[j as int], selfs).contains(y));
                assert(prev.contains(y) <==> exists|k: int| 0 <= k < j
                    && root_at(msgs, k, empty_as_own) == root_at(msgs, i as int, empty_as_own)
                    && #[trigger] msg_participants(rule, msgs[k], selfs).contains(y));
            }
        }
        j += 1;
    }
    set
}

/// Whether message `j` comes before message `i` in date order.
fn earlier_exec(msgs: &[ThreadMsg], j: usize, i: usize) -> (r: bool)
    requires
        j < msgs@.len(),
        i < msgs@.len(),
    ensures
        r == earlier(msgs@, j as int, i as int),
{
    msgs[j].date < msgs[i].date || (msgs[j].date == msgs[i].date && j < i)
}

pub proof fn lemma_previous_unique(msgs: Seq<ThreadMsg>, i: int, a: int, b: int, empty_as_own: bool)
    requires
        is_previous(msgs, i, a, empty_as_own),
        is_previous(msgs, i, b, empty_as_own),
    ensures
        a == b,
{
    assert(earlier(msgs, a, i));
    assert(earlier(msgs, b, i));
    assert(a == b || earlier(msgs, a, b));
    assert(b == a || earlier(msgs, b, a));
}

/// The last message of `i`'s thread before `i`, if any.
fn previous_in_thread(msgs: &[ThreadMsg], roots: &Vec<Vec<char>>, i: usize, Ghost(empty_as_own): Ghost<bool>) -> (r: Option<usize>)
    requires
        roots@.len() == msgs@.len(),
        forall|j: int| 0 <= j < msgs@.len() ==> #[trigger] roots@[j]@ == root_at(msgs@, j, empty_as_own),
        i < msgs@.len(),
    ensures
        r matches Some(j) ==> is_previous(msgs@, i as int, j as int, empty_as_own),
        r is None ==> !exists|j: int| is_previous(msgs@, i as int, j, empty_as_own),
{
    let mut best: Option<usize> = None;
    let mut j: usize = 0;
    while j < roots.len()
        invariant
            roots@.len() == msgs@.len(),
            forall|k: int| 0 <= k < msgs@.len() ==> #[trigger] roots@[k]@ == root_at(msgs@, k, empty_as_own),
            i < msgs@.len(),
            j <= msgs@.len(),
            best is None ==> forall|k: int| #![trigger earlier(msgs@, k, i as int)] 0 <= k < j
                && root_at(msgs@, k, empty_as_own) == root_at(msgs@, i as int, empty_as_own) ==> !earlier(msgs@, k, i as int),
            best matches Some(b) ==> {
                &&& b < j
                &&& root_at(msgs@, b as int, empty_as_own) == root_at(msgs@, i as int, empty_as_own)
                &&& earlier(msgs@, b as int, i as int)
                &&& forall|k: int| #![trigger earlier(msgs@, k, i as int)] 0 <= k < j
                    && root_at(msgs@, k, empty_as_own) == root_at(msgs@, i as int, empty_as_own)
                    && earlier(msgs@, k, i as int) ==> k == b || earlier(msgs@, k, b as int)
            },
        decreases msgs@.len() - j,
    {
        assert(roots@[j as int]@ == root_at(msgs@, j as int, empty_as_own));
        assert(roots@[i as int]@ == root_at(msgs@, i as int, empty_as_own));
        if text::chars_eq(roots[j].as_slice(), roots[i].as_slice()) && earlier_exec(msgs, j, i) {
            match best {
                None => {
                    best = Some(j);
                },
                Some(b) => {
                    if earlier_exec(msgs, b, j) {
                        best = Some(j);
                    }
                },
            }
        }
        j += 1;
    }
    proof {
        if best is None {
            assert forall|k: int| !is_previous(msgs@, i as int, k, empty_as_own) by {
                if is_previous(msgs@, i as int, k, empty_as_own) {
                    assert(earlier(msgs@, k, i as int));
                }
            }
        }
    }
    best
}

/// Converts character vectors to strings.
fn to_strings(v: &Vec<Vec<char>>) -> (r: Vec<String>)
    ensures
        r@.map_values(|s: String| s@) == text::seqs_of(v@),
{
    let mut r: Vec<String> = Vec::new();
    let mut i: usize = 0;
    while i < v.len()
        invariant
            i <= v@.len(),
            r@.map_values(|s: String| s@) == text::seqs_of(v@).take(i as int),
        decreases v@.len() - i,
    {
        let s = text::chars_to_string(v[i].as_slice());
        let ghost r0 = r@;
        r.push(s);
        assert(r@.map_values(|s: String| s@) =~= r0.map_values(|s: String| s@).push(s@));
        assert(text::seqs_of(v@).take(i + 1) =~= text::seqs_of(v@).take(i as int).push(v@[i as int]@));
        i += 1;
    }
    assert(text::seqs_of(v@).take(v@.len() as int) =~= text::seqs_of(v@));
    r
}

/// The participant change recorded on message `i`.
fn changes_exec(
    msgs: &[ThreadMsg],
    roots: &Vec<Vec<char>>,
    parts: &Vec<Vec<Vec<char>>>,
    i: usize,
    Ghost(rule): Ghost<AddressRule>,
    Ghost(empty_as_own): Ghost<bool>,
    Ghost(selfs): Ghost<Seq<Seq<char>>>,
) -> (r: Option<String>)
    requires
        tables_ok(msgs@, roots@, parts@, rule, empty_as_own, selfs),
        i < msgs@.len(),
    ensures
        text::opt_view(r) == changes_at(msgs@, i as int, rule, empty_as_own, selfs),
{
    match previous_in_thread(msgs, roots, i, Ghost(empty_as_own)) {
        None => None,
        Some(p) => {
            let ghost cur = msg_participants(rule, msgs@[i as int], selfs);
            let ghost prv = msg_participants(rule, msgs@[p as int], selfs);
            proof {
                let c = choose|j: int| is_previous(msgs@, i as int, j, empty_as_own);
                lemma_previous_unique(msgs@, i as int, c, p as int, empty_as_own);
            }
            let added = sorted_set::difference(&parts[i], &parts[p]);
            let removed = sorted_set::difference(&parts[p], &parts[i]);
            proof {
                assert(sorted_set::sorted_strict(text::seqs_of(parts@[i as int]@)));
                assert(sorted_set::sorted_strict(text::seqs_of(parts@[p as int]@)));
                assert forall|y: Seq<char>| #[trigger] text::seqs_of(added@).contains(y) <==> cur.difference(prv).contains(y) by {
                    assert(text::seqs_of(parts@[i as int]@).contains(y) <==> cur.contains(y));
                    assert(text::seqs_of(parts@[p as int]@).contains(y) <==> prv.contains(y));
                }
                assert forall|y: Seq<char>| #[trigger] text::seqs_of(removed@).contains(y) <==> prv.difference(cur).contains(y) by {
                    assert(text::seqs_of(parts@[i as int]@).contains(y) <==> cur.contains(y));
                    assert(text::seqs_of(parts@[p as int]@).contains(y) <==> prv.contains(y));
                }
                lemma_sorted_of(text::seqs_of(added@), cur.difference(prv));
                lemma_sorted_of(text::seqs_of(removed@), prv.difference(cur));
            }
            if added.len() == 0 && removed.len() == 0 {
                None
            } else {
                let a = to_strings(&added);
                let rm = to_strings(&removed);
                let aj = digest::to_json_string_list(&a);
                let rj = digest::to_json_string_list(&rm);
                let mut out = text::str_chars("{\"added\":");
                let ajc = text::string_chars(&aj);
                text::append_chars(&mut out, ajc.as_slice());
                let mid = text::str_chars(",\"removed\":");
                text::append_chars(&mut out, mid.as_slice());
                let rjc = text::string_chars(&rj);
                text::append_chars(&mut out, rjc.as_slice());
                let close = text::str_chars("}");
                text::append_chars(&mut out, close.as_slice());
                Some(text::chars_to_string(out.as_slice()))
            }
        },
    }
}


/// What threading assigns to message `i`.
pub open spec fn assignment_ok(
    a: ThreadAssignment,
    msgs: Seq<ThreadMsg>,
    i: int,
    rule: AddressRule,
    empty_as_own: bool,
    selfs: Seq<Seq<char>>,
) -> bool {
    &&& a.db_id@ == msgs[i].db_id@
    &&& a.participant_key@ == thread_key(msgs, i, rule, empty_as_own, selfs)
    &&& a.conversation_id@ == digest::short_digest_id(thread_key(msgs, i, rule, empty_as_own, selfs))
    &&& text::opt_view(a.participant_changes) == changes_at(msgs, i, rule, empty_as_own, selfs)
    &&& a.thread_id@ == digest::short_digest_id(root_at(msgs, i, empty_as_own))
}

/// Threads the messages and computes every message's assignment, in input
/// order. Messages are linked through `In-Reply-To` and `References`; a
/// thread's participants are those of all its messages (addresses compared
/// under `rule`); `empty_as_own` makes each message without identifier a
/// thread of its own.
pub fn assign_threads_with(
    msgs: &[ThreadMsg],
    self_emails: &[String],
    rule: AddressRule,
    empty_as_own: bool,
) -> (r: Vec<ThreadAssignment>)
    requires
        link_count(msgs@) + msgs@.len() + 3 < usize::MAX,
    ensures
        r@.len() == msgs@.len(),
        forall|i: int| 0 <= i < msgs@.len() ==> #[trigger] assignment_ok(
            r@[i], msgs@, i, rule, empty_as_own, participants::views(self_emails@)),
{
    let ghost selfs = participants::views(self_emails@);
    let mut uf = link_messages(msgs);
    let roots = thread_roots(&mut uf, msgs, empty_as_own);
    let mut parts: Vec<Vec<Vec<char>>> = Vec::new();
    let mut j: usize = 0;
    while j < msgs.len()
        invariant
            j <= msgs@.len(),
            selfs == participants::views(self_emails@),
            parts@.len() == j,
            forall|k: int| 0 <= k < j ==> sorted_set::sorted_strict(text::seqs_of(#[trigger] parts@[k]@)),
            forall|k: int, y: Seq<char>| 0 <= k < j ==> (#[trigger] text::seqs_of(parts@[k]@).contains(y)
                <==> msg_participants(rule, msgs@[k], selfs).contains(y)),
        decreases msgs@.len() - j,
    {
        let m = &msgs[j];
        let to_s = m.to_addresses.as_slice();
        let cc_s = m.cc_addresses.as_slice();
        let from_s = m.from_address.as_str();
        assert(to_s@ == m.to_addresses@);
        assert(cc_s@ == m.cc_addresses@);
        assert(from_s@ == m.from_address@);
        let p = participants::collect_participants_with(&rule, from_s, to_s, cc_s, self_emails);
        let ghost pv = p;
        let ghost addrs = participants::message_addresses(m.from_address@, participants::views(m.to_addresses@), participants::views(m.cc_addresses@));
        assert(forall|y: Seq<char>| #[trigger] text::seqs_of(pv@).contains(y) <==> participants::is_participant(rule, addrs, selfs, y));
        let ghost parts0 = parts@;
        parts.push(p);
        proof {
            assert forall|k: int, y: Seq<char>| 0 <= k < j + 1 implies (#[trigger] text::seqs_of(parts@[k]@).contains(y)
                <==> msg_participants(rule, msgs@[k], selfs).contains(y)) by {
                if k == j {
                    assert(parts@[k] == pv);
                    assert(msgs@[k] == *m);
                    assert(text::seqs_of(pv@).contains(y) <==> participants::is_participant(rule, addrs, selfs, y));
                    assert(msg_participants(rule, msgs@[k], selfs).contains(y) <==> participants::is_participant(rule, addrs, selfs, y));
                } else {
                    assert(parts@[k] == parts0[k]);
                }
            }
        }
        j += 1;
    }
    assert(tables_ok(msgs@, roots@, parts@, rule, empty_as_own, selfs));
    let mut out: Vec<ThreadAssignment> = Vec::new();
    let mut i: usize = 0;
    while i < msgs.len()
        invariant
            i <= msgs@.len(),
            tables_ok(msgs@, roots@, parts@, rule, empty_as_own, selfs),
            selfs == participants::views(self_emails@),
            out@.len() == i,
            forall|k: int| 0 <= k < i ==> #[trigger] assignment_ok(out@[k], msgs@, k, rule, empty_as_own, selfs),
        decreases msgs@.len() - i,
    {
        let set = thread_set(&roots, &parts, i, Ghost(msgs@), Ghost(rule), Ghost(empty_as_own), Ghost(selfs));
        proof { lemma_sorted_of(text::seqs_of(set@), thread_participants(msgs@, i as int, rule, empty_as_own, selfs)); }
        let sep: Vec<char> = vec!['\n'];
        assert(sep@ =~= seq!['\n']);
        let key = text::join_exec(&set, sep.as_slice());
        let key_s = text::chars_to_string(key.as_slice());
        let conversation_id = digest::compute_conversation_id(key_s.as_str());
        let changes = changes_exec(msgs, &roots, &parts, i, Ghost(rule), Ghost(empty_as_own), Ghost(selfs));
        let root_s = text::chars_to_string(roots[i].as_slice());
        assert(roots@[i as int]@ == root_at(msgs@, i as int, empty_as_own));
        let thread_id = digest::compute_thread_id(root_s.as_str());
        let a = ThreadAssignment {
            db_id: msgs[i].db_id.clone(),
            participant_key: key_s,
            conversation_id,
            participant_changes: changes,
            thread_id,
        };
        out.push(a);
        i += 1;
    }
    out
}

} // verus!
