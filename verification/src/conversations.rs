//! Conversation summaries: per-conversation aggregation of message rows and
//! the conversation's final classification.
use vstd::prelude::*;
use crate::text;
use crate::participants;
use crate::participants::AddressRule;
use crate::sorted_set;
use crate::digest;

verus! {

broadcast use vstd::string::group_string_axioms;

/// One message row, as aggregation needs it. Rows come ordered by
/// conversation and, within a conversation, newest first.
pub struct ConversationRow {
    pub conversation_id: String,
    pub participant_key: String,
    pub date: i64,
    /// The preview text this row offers (already extracted).
    pub preview: Option<String>,
    pub from_address: String,
    pub classification: Option<String>,
    pub is_important: i32,
    /// Whether the row's flags lack `Seen`.
    pub unread: bool,
    pub is_trusted: i32,
}

/// The aggregate of all rows of one conversation.
pub struct ConversationSummary {
    pub id: String,
    pub participant_key: String,
    pub last_message_date: i64,
    pub last_message_preview: Option<String>,
    pub has_chat: bool,
    pub has_trusted: bool,
    pub has_important: bool,
    pub unread_count: i32,
    pub total_count: i32,
    pub initial_sender_email: Option<String>,
}

/// Row `j` belongs to conversation `c`.
pub open spec fn in_conv(rows: Seq<ConversationRow>, j: int, c: Seq<char>) -> bool {
    rows[j].conversation_id@ == c
}

/// Rows among the first `n` that belong to `c`.
pub open spec fn conv_count(rows: Seq<ConversationRow>, c: Seq<char>, n: int) -> int
    decreases n,
{
    if n <= 0 {
        0
    } else {
        conv_count(rows, c, n - 1) + if in_conv(rows, n - 1, c) { 1int } else { 0int }
    }
}

/// Unread rows among the first `n` that belong to `c`.
pub open spec fn conv_unread(rows: Seq<ConversationRow>, c: Seq<char>, n: int) -> int
    decreases n,
{
    if n <= 0 {
        0
    } else {
        conv_unread(rows, c, n - 1) + if in_conv(rows, n - 1, c) && rows[n - 1].unread { 1int } else { 0int }
    }
}

pub proof fn lemma_counts_bounded(rows: Seq<ConversationRow>, c: Seq<char>, n: int)
    requires
        n >= 0,
    ensures
        0 <= conv_unread(rows, c, n) <= conv_count(rows, c, n) <= n,
    decreases n,
{
    if n > 0 {
        lemma_counts_bounded(rows, c, n - 1);
    }
}

/// Some row among the first `n` of `c` is classified `chat`.
pub open spec fn conv_has_chat(rows: Seq<ConversationRow>, c: Seq<char>, n: int) -> bool {
    exists|j: int| 0 <= j < n && in_conv(rows, j, c) && text::opt_view(#[trigger] rows[j].classification) == Some("chat"@)
}

/// Some row among the first `n` of `c` has a trusted sender.
pub open spec fn conv_has_trusted(rows: Seq<ConversationRow>, c: Seq<char>, n: int) -> bool {
    exists|j: int| 0 <= j < n && in_conv(rows, j, c) && #[trigger] rows[j].is_trusted != 0
}

/// Some row among the first `n` of `c` is important.
pub open spec fn conv_has_important(rows: Seq<ConversationRow>, c: Seq<char>, n: int) -> bool {
    exists|j: int| 0 <= j < n && in_conv(rows, j, c) && #[trigger] rows[j].is_important != 0
}

/// The initial sender among the first `n` rows of `c`: the lowercased sender
/// of the last such row whose sender is not a self address (rows are newest
/// first, so that is the earliest message).
pub open spec fn conv_initial_sender(rows: Seq<ConversationRow>, c: Seq<char>, n: int, selfs: Seq<Seq<char>>) -> Option<Seq<char>>
    decreases n,
{
    if n <= 0 {
        None
    } else if in_conv(rows, n - 1, c) && !participants::is_self_normalized(rows[n - 1].from_address@, selfs) {
        Some(text::lowercase(rows[n - 1].from_address@))
    } else {
        conv_initial_sender(rows, c, n - 1, selfs)
    }
}

/// Summary `s` aggregates the first `n` rows of its conversation, whose first
/// row is row `f`.
pub open spec fn summary_ok(s: ConversationSummary, rows: Seq<ConversationRow>, f: int, n: int, selfs: Seq<Seq<char>>) -> bool {
    let c = s.id@;
    &&& 0 <= f < n
    &&& in_conv(rows, f, c)
    &&& forall|j: int| 0 <= j < f ==> !in_conv(rows, j, c)
    &&& s.participant_key@ == rows[f].participant_key@
    &&& s.last_message_date == rows[f].date
    &&& text::opt_view(s.last_message_preview) == text::opt_view(rows[f].preview)
    &&& s.has_chat == conv_has_chat(rows, c, n)
    &&& s.has_trusted == conv_has_trusted(rows, c, n)
    &&& s.has_important == conv_has_important(rows, c, n)
    &&& s.unread_count == conv_unread(rows, c, n)
    &&& s.total_count == conv_count(rows, c, n)
    &&& text::opt_view(s.initial_sender_email) == conv_initial_sender(rows, c, n, selfs)
}

/// The summaries of the first `n` rows: one per conversation, in order of
/// first appearance.
pub open spec fn summaries_ok(out: Seq<ConversationSummary>, firsts: Seq<int>, rows: Seq<ConversationRow>, n: int, selfs: Seq<Seq<char>>) -> bool {
    &&& out.len() == firsts.len()
    &&& forall|k: int| 0 <= k < out.len() ==> #[trigger] summary_ok(out[k], rows, firsts[k], n, selfs)
    &&& forall|k: int, l: int| 0 <= k < l < out.len() ==> #[trigger] firsts[k] < #[trigger] firsts[l]
    &&& forall|j: int| 0 <= j < n ==> #[trigger] covered(out, rows, j)
}

/// Row `j` belongs to the conversation of some summary in `out`.
pub open spec fn covered(out: Seq<ConversationSummary>, rows: Seq<ConversationRow>, j: int) -> bool {
    exists|k: int| 0 <= k < out.len() && #[trigger] in_conv(rows, j, out[k].id@)
}



// ── The latest message and the identifier ──────────────────────────────────

/// Rows of one conversation come newest first.
pub open spec fn newest_first(rows: Seq<ConversationRow>) -> bool {
    forall|j: int, k: int| 0 <= j < k < rows.len() && #[trigger] rows[j].conversation_id@ == #[trigger] rows[k].conversation_id@
        ==> rows[j].date >= rows[k].date
}

/// Each row's conversation identifier is the digest of its participant key.
pub open spec fn ids_from_keys(rows: Seq<ConversationRow>) -> bool {
    forall|j: int| 0 <= j < rows.len() ==> (#[trigger] rows[j]).conversation_id@ == digest::short_digest_id(rows[j].participant_key@)
}

/// A rebuilt conversation, from rows that come newest first within each
/// conversation and whose identifiers are the digests of their keys: its
/// identifier is the digest of its participant key, its counts are those of
/// all and of the unread rows of the conversation, and its date is the
/// latest date of the conversation.
pub proof fn law_rebuilt_conversation(
    out: Seq<ConversationSummary>,
    firsts: Seq<int>,
    rows: Seq<ConversationRow>,
    selfs: Seq<Seq<char>>,
    k: int,
)
    requires
        summaries_ok(out, firsts, rows, rows.len() as int, selfs),
        0 <= k < out.len(),
        newest_first(rows),
        ids_from_keys(rows),
    ensures
        out[k].id@ == digest::short_digest_id(out[k].participant_key@),
        out[k].total_count == conv_count(rows, out[k].id@, rows.len() as int),
        out[k].unread_count == conv_unread(rows, out[k].id@, rows.len() as int),
        forall|j: int| 0 <= j < rows.len() && #[trigger] in_conv(rows, j, out[k].id@) ==> rows[j].date <= out[k].last_message_date,
        exists|j: int| 0 <= j < rows.len() && #[trigger] in_conv(rows, j, out[k].id@) && rows[j].date == out[k].last_message_date,
{
    let f = firsts[k];
    assert(summary_ok(out[k], rows, f, rows.len() as int, selfs));
    assert(rows[f].conversation_id@ == digest::short_digest_id(rows[f].participant_key@));
    assert forall|j: int| 0 <= j < rows.len() && #[trigger] in_conv(rows, j, out[k].id@) implies rows[j].date <= out[k].last_message_date by {
        if j != f {
            assert(j > f);
            assert(rows[f].conversation_id@ == rows[j].conversation_id@);
        }
    }
    assert(in_conv(rows, f, out[k].id@));
}

// ── Every row is counted once ───────────────────────────────────────────────

/// The sum of the summaries' total counts.
pub open spec fn total_of(out: Seq<ConversationSummary>) -> int
    decreases out.len(),
{
    if out.len() == 0 {
        0
    } else {
        total_of(out.drop_last()) + out.last().total_count
    }
}

/// The rows among the first `m` of the conversations of the first `k`
/// summaries.
pub open spec fn counted(out: Seq<ConversationSummary>, rows: Seq<ConversationRow>, k: int, m: int) -> int
    decreases k,
{
    if k <= 0 {
        0
    } else {
        counted(out, rows, k - 1, m) + conv_count(rows, out[k - 1].id@, m)
    }
}

/// How many of the first `k` summaries row `j` belongs to.
pub open spec fn hits(out: Seq<ConversationSummary>, rows: Seq<ConversationRow>, j: int, k: int) -> int
    decreases k,
{
    if k <= 0 {
        0
    } else {
        hits(out, rows, j, k - 1) + if in_conv(rows, j, out[k - 1].id@) { 1int } else { 0int }
    }
}

proof fn lemma_counted_step(out: Seq<ConversationSummary>, rows: Seq<ConversationRow>, k: int, m: int)
    requires
        0 <= k,
        m > 0,
    ensures
        counted(out, rows, k, m) == counted(out, rows, k, m - 1) + hits(out, rows, m - 1, k),
    decreases k,
{
    if k > 0 {
        lemma_counted_step(out, rows, k - 1, m);
    }
}

proof fn lemma_counted_zero(out: Seq<ConversationSummary>, rows: Seq<ConversationRow>, k: int)
    requires
        0 <= k,
    ensures
        counted(out, rows, k, 0) == 0,
    decreases k,
{
    if k > 0 {
        lemma_counted_zero(out, rows, k - 1);
    }
}

/// A row belongs to exactly one of summaries with distinct identifiers
/// that cover it.
proof fn lemma_hits(out: Seq<ConversationSummary>, rows: Seq<ConversationRow>, j: int, k: int)
    requires
        0 <= k <= out.len(),
        forall|a: int, b: int| 0 <= a < b < out.len() ==> (#[trigger] out[a]).id@ != (#[trigger] out[b]).id@,
    ensures
        hits(out, rows, j, k) == if (exists|q: int| 0 <= q < k && #[trigger] in_conv(rows, j, out[q].id@)) { 1int } else { 0int },
    decreases k,
{
    if k > 0 {
        lemma_hits(out, rows, j, k - 1);
        if in_conv(rows, j, out[k - 1].id@) {
            assert(in_conv(rows, j, out[k - 1].id@));
            if exists|q: int| 0 <= q < k - 1 && #[trigger] in_conv(rows, j, out[q].id@) {
                let q = choose|q: int| 0 <= q < k - 1 && #[trigger] in_conv(rows, j, out[q].id@);
                assert(out[q].id@ == out[k - 1].id@);
            }
        } else {
            if exists|q: int| 0 <= q < k && #[trigger] in_conv(rows, j, out[q].id@) {
                let q = choose|q: int| 0 <= q < k && #[trigger] in_conv(rows, j, out[q].id@);
                assert(q < k - 1);
            }
        }
    }
}

proof fn lemma_total_counted(out: Seq<ConversationSummary>, rows: Seq<ConversationRow>, n: int)
    requires
        forall|k: int| 0 <= k < out.len() ==> (#[trigger] out[k]).total_count == conv_count(rows, out[k].id@, n),
    ensures
        total_of(out) == counted(out, rows, out.len() as int, n),
    decreases out.len(),
{
    if out.len() > 0 {
        let d = out.drop_last();
        assert forall|k: int| 0 <= k < d.len() implies (#[trigger] d[k]).total_count == conv_count(rows, d[k].id@, n) by {
            assert(d[k] == out[k]);
        }
        lemma_total_counted(d, rows, n);
        lemma_counted_prefix(out, rows, out.len() - 1, n);
    }
}

proof fn lemma_counted_prefix(out: Seq<ConversationSummary>, rows: Seq<ConversationRow>, k: int, m: int)
    requires
        0 <= k <= out.len(),
    ensures
        counted(out.take(k), rows, k, m) == counted(out, rows, k, m),
    decreases k,
{
    if k > 0 {
        assert(out.take(k)[k - 1] == out[k - 1]);
        assert(out.take(k).take(k - 1) =~= out.take(k - 1));
        lemma_counted_prefix(out, rows, k - 1, m);
        lemma_counted_prefix(out.take(k), rows, k - 1, m);
    }
}

proof fn lemma_counted_upto(out: Seq<ConversationSummary>, rows: Seq<ConversationRow>, m: int, n: int)
    requires
        0 <= m <= n,
        forall|a: int, b: int| 0 <= a < b < out.len() ==> (#[trigger] out[a]).id@ != (#[trigger] out[b]).id@,
        forall|j: int| 0 <= j < n ==> #[trigger] covered(out, rows, j),
    ensures
        counted(out, rows, out.len() as int, m) == m,
    decreases m,
{
    if m == 0 {
        lemma_counted_zero(out, rows, out.len() as int);
    } else {
        lemma_counted_upto(out, rows, m - 1, n);
        lemma_counted_step(out, rows, out.len() as int, m);
        lemma_hits(out, rows, m - 1, out.len() as int);
        assert(covered(out, rows, m - 1));
    }
}

/// Aggregation counts every row once: the total counts of the summaries
/// add up to the number of rows.
pub proof fn law_every_row_counted_once(out: Seq<ConversationSummary>, firsts: Seq<int>, rows: Seq<ConversationRow>, selfs: Seq<Seq<char>>)
    requires
        summaries_ok(out, firsts, rows, rows.len() as int, selfs),
    ensures
        total_of(out) == rows.len(),
{
    let n = rows.len() as int;
    assert forall|a: int, b: int| 0 <= a < b < out.len() implies (#[trigger] out[a]).id@ != (#[trigger] out[b]).id@ by {
        assert(summary_ok(out[a], rows, firsts[a], n, selfs));
        assert(summary_ok(out[b], rows, firsts[b], n, selfs));
        assert(firsts[a] < firsts[b]);
        if out[a].id@ == out[b].id@ {
            assert(in_conv(rows, firsts[a], out[b].id@));
        }
    }
    assert forall|k: int| 0 <= k < out.len() implies (#[trigger] out[k]).total_count == conv_count(rows, out[k].id@, n) by {
        assert(summary_ok(out[k], rows, firsts[k], n, selfs));
    }
    lemma_total_counted(out, rows, n);
    lemma_counted_upto(out, rows, n, n);
}

pub proof fn lemma_any_step(rows: Seq<ConversationRow>, c: Seq<char>, n: int)
    requires
        0 <= n < rows.len(),
    ensures
        conv_has_chat(rows, c, n + 1) == (conv_has_chat(rows, c, n)
            || (in_conv(rows, n, c) && text::opt_view(rows[n].classification) == Some("chat"@))),
        conv_has_trusted(rows, c, n + 1) == (conv_has_trusted(rows, c, n)
            || (in_conv(rows, n, c) && rows[n].is_trusted != 0)),
        conv_has_important(rows, c, n + 1) == (conv_has_important(rows, c, n)
            || (in_conv(rows, n, c) && rows[n].is_important != 0)),
{
    if conv_has_chat(rows, c, n + 1) && !conv_has_chat(rows, c, n) {
        let j = choose|j: int| 0 <= j < n + 1 && in_conv(rows, j, c) && text::opt_view(#[trigger] rows[j].classification) == Some("chat"@);
        assert(j == n);
    }
    if conv_has_trusted(rows, c, n + 1) && !conv_has_trusted(rows, c, n) {
        let j = choose|j: int| 0 <= j < n + 1 && in_conv(rows, j, c) && #[trigger] rows[j].is_trusted != 0;
        assert(j == n);
    }
    if conv_has_important(rows, c, n + 1) && !conv_has_important(rows, c, n) {
        let j = choose|j: int| 0 <= j < n + 1 && in_conv(rows, j, c) && #[trigger] rows[j].is_important != 0;
        assert(j == n);
    }
}

/// Whether an optional string is exactly `chat`.
fn is_chat(c: &Option<String>) -> (r: bool)
    ensures
        r == (text::opt_view(*c) == Some("chat"@)),
{
    match c {
        Some(s) => {
            let v = text::string_chars(s);
            let chat = text::str_chars("chat");
            text::chars_eq(v.as_slice(), chat.as_slice())
        },
        None => false,
    }
}


/// Every row among the first `n` has a summary.
pub proof fn lemma_covered(out: Seq<ConversationSummary>, firsts: Seq<int>, rows: Seq<ConversationRow>, n: int, selfs: Seq<Seq<char>>, j: int)
    requires
        summaries_ok(out, firsts, rows, n, selfs),
        0 <= j < n,
    ensures
        exists|k: int| 0 <= k < out.len() && #[trigger] in_conv(rows, j, out[k].id@),
{
    assert(covered(out, rows, j));
}

/// Conversation `c` has no row among the first `n`.
pub open spec fn unseen(rows: Seq<ConversationRow>, c: Seq<char>, n: int) -> bool {
    forall|j: int| 0 <= j < n ==> !in_conv(rows, j, c)
}

pub proof fn lemma_unseen(rows: Seq<ConversationRow>, c: Seq<char>, n: int, selfs: Seq<Seq<char>>)
    requires
        0 <= n <= rows.len(),
        unseen(rows, c, n),
    ensures
        conv_count(rows, c, n) == 0,
        conv_unread(rows, c, n) == 0,
        !conv_has_chat(rows, c, n),
        !conv_has_trusted(rows, c, n),
        !conv_has_important(rows, c, n),
        conv_initial_sender(rows, c, n, selfs) is None,
    decreases n,
{
    if n > 0 {
        lemma_unseen(rows, c, n - 1, selfs);
        lemma_any_step(rows, c, n - 1);
    }
}

/// A summary of another conversation is unaffected by row `n`.
pub proof fn lemma_summary_other(s: ConversationSummary, rows: Seq<ConversationRow>, f: int, n: int, selfs: Seq<Seq<char>>)
    requires
        0 <= n < rows.len(),
        summary_ok(s, rows, f, n, selfs),
        !in_conv(rows, n, s.id@),
    ensures
        summary_ok(s, rows, f, n + 1, selfs),
{
    lemma_any_step(rows, s.id@, n);
}

/// The summary of row `n`'s conversation after adding the row.
fn add_row(s: &ConversationSummary, row: &ConversationRow, own: bool, Ghost(rows): Ghost<Seq<ConversationRow>>, Ghost(f): Ghost<int>, Ghost(n): Ghost<int>, Ghost(selfs): Ghost<Seq<Seq<char>>>) -> (r: ConversationSummary)
    requires
        0 <= n < rows.len(),
        rows.len() < i32::MAX,
        rows[n] == *row,
        summary_ok(*s, rows, f, n, selfs),
        in_conv(rows, n, s.id@),
        own == participants::is_self_normalized(row.from_address@, selfs),
    ensures
        summary_ok(r, rows, f, n + 1, selfs),
        r.id@ == s.id@,
{
    proof {
        lemma_any_step(rows, s.id@, n);
        lemma_counts_bounded(rows, s.id@, n + 1);
    }
    let row_chat = is_chat(&row.classification);
    let initial = if !own {
        Some(text::to_lowercase(row.from_address.as_str()))
    } else {
        text::copy_opt(&s.initial_sender_email)
    };
    ConversationSummary {
        id: s.id.clone(),
        participant_key: s.participant_key.clone(),
        last_message_date: s.last_message_date,
        last_message_preview: text::copy_opt(&s.last_message_preview),
        has_chat: s.has_chat || row_chat,
        has_trusted: s.has_trusted || row.is_trusted != 0,
        has_important: s.has_important || row.is_important != 0,
        unread_count: if row.unread { s.unread_count + 1 } else { s.unread_count },
        total_count: s.total_count + 1,
        initial_sender_email: initial,
    }
}

/// The summary of a conversation first seen at row `n`.
fn start_conversation(row: &ConversationRow, own: bool, Ghost(rows): Ghost<Seq<ConversationRow>>, Ghost(n): Ghost<int>, Ghost(selfs): Ghost<Seq<Seq<char>>>) -> (r: ConversationSummary)
    requires
        0 <= n < rows.len(),
        rows[n] == *row,
        unseen(rows, row.conversation_id@, n),
        own == participants::is_self_normalized(row.from_address@, selfs),
    ensures
        summary_ok(r, rows, n, n + 1, selfs),
{
    proof {
        lemma_unseen(rows, row.conversation_id@, n, selfs);
        lemma_any_step(rows, row.conversation_id@, n);
    }
    let initial = if !own { Some(text::to_lowercase(row.from_address.as_str())) } else { None };
    ConversationSummary {
        id: row.conversation_id.clone(),
        participant_key: row.participant_key.clone(),
        last_message_date: row.date,
        last_message_preview: text::copy_opt(&row.preview),
        has_chat: is_chat(&row.classification),
        has_trusted: row.is_trusted != 0,
        has_important: row.is_important != 0,
        unread_count: if row.unread { 1 } else { 0 },
        total_count: 1,
        initial_sender_email: initial,
    }
}

/// The index of the summary of conversation `c`, if any.
fn find_summary(out: &Vec<ConversationSummary>, c: &String) -> (r: Option<usize>)
    ensures
        r matches Some(k) ==> k < out@.len() && out@[k as int].id@ == c@,
        r is None ==> forall|k: int| 0 <= k < out@.len() ==> (#[trigger] out@[k]).id@ != c@,
{
    let cc = text::string_chars(c);
    let mut k: usize = 0;
    while k < out.len()
        invariant
            k <= out@.len(),
            cc@ == c@,
            forall|l: int| 0 <= l < k ==> (#[trigger] out@[l]).id@ != c@,
        decreases out@.len() - k,
    {
        let idk = text::string_chars(&out[k].id);
        if text::chars_eq(idk.as_slice(), cc.as_slice()) {
            return Some(k);
        }
        k += 1;
    }
    None
}

/// Aggregates message rows into one summary per conversation, in order of
/// first appearance. The first row of a conversation gives its participant
/// key, date and preview; the flags say whether any row is classified
/// `chat`, has a trusted sender, or is important; the counts are of unread
/// and of all rows; the initial sender is the lowercased sender of the
/// conversation's last row whose sender is not a self address.
pub fn aggregate_conversations(rows: &[ConversationRow], self_emails: &[String]) -> (r: Vec<ConversationSummary>)
    requires
        rows@.len() < i32::MAX,
    ensures
        exists|firsts: Seq<int>| summaries_ok(r@, firsts, rows@, rows@.len() as int, participants::views(self_emails@)),
{
    let ghost selfs = participants::views(self_emails@);
    let ghost mut firsts: Seq<int> = Seq::empty();
    let mut out: Vec<ConversationSummary> = Vec::new();
    let mut i: usize = 0;
    while i < rows.len()
        invariant
            i <= rows@.len(),
            rows@.len() < i32::MAX,
            selfs == participants::views(self_emails@),
            summaries_ok(out@, firsts, rows@, i as int, selfs),
        decreases rows@.len() - i,
    {
        let row = &rows[i];
        let own = participants::is_self_normalized_exec(row.from_address.as_str(), self_emails);
        let ghost out0 = out@;
        match find_summary(&out, &row.conversation_id) {
            Some(k) => {
                let updated = add_row(&out[k], row, own, Ghost(rows@), Ghost(firsts[k as int]), Ghost(i as int), Ghost(selfs));
                let ghost upd = updated;
                assert(upd.id@ == out0[k as int].id@);
                out.set(k, updated);
                assert(out@ == out0.update(k as int, upd));
                proof {
                    assert forall|l: int| 0 <= l < out@.len() implies #[trigger] summary_ok(out@[l], rows@, firsts[l], i + 1, selfs) by {
                        if l != k as int {
                            assert(out@[l] == out0[l]);
                            assert(summary_ok(out0[l], rows@, firsts[l], i as int, selfs));
                            if in_conv(rows@, i as int, out0[l].id@) {
                                assert(out0[l].id@ == out0[k as int].id@);
                                assert(summary_ok(out0[k as int], rows@, firsts[k as int], i as int, selfs));
                                let fl = firsts[l];
                                let fk = firsts[k as int];
                                if fl < fk {
                                    assert(!in_conv(rows@, fl, out0[k as int].id@));
                                } else if fk < fl {
                                    assert(!in_conv(rows@, fk, out0[l].id@));
                                }
                                if l < k {
                                    assert(firsts[l] < firsts[k as int]);
                                } else {
                                    assert(firsts[k as int] < firsts[l]);
                                }
                            }
                            lemma_summary_other(out0[l], rows@, firsts[l], i as int, selfs);
                        }
                    }
                    assert forall|j: int| 0 <= j < i + 1 implies #[trigger] covered(out@, rows@, j) by {
                        if j < i {
                            lemma_covered(out0, firsts, rows@, i as int, selfs, j);
                            let kk = choose|kk: int| 0 <= kk < out0.len() && #[trigger] in_conv(rows@, j, out0[kk].id@);
                            if kk == k as int {
                                assert(out@[kk] == upd);
                            } else {
                                assert(out@[kk] == out0[kk]);
                            }
                            assert(out@[kk].id@ == out0[kk].id@);
                            assert(in_conv(rows@, j, out@[kk].id@));
                        } else {
                            assert(out@[k as int] == upd);
                            assert(in_conv(rows@, j, out@[k as int].id@));
                        }
                    }
                }
            },
            None => {
                proof {
                    assert forall|j: int| 0 <= j < i implies !in_conv(rows@, j, row.conversation_id@) by {
                        lemma_covered(out0, firsts, rows@, i as int, selfs, j);
                        let kk = choose|kk: int| 0 <= kk < out0.len() && #[trigger] in_conv(rows@, j, out0[kk].id@);
                        assert(out0[kk].id@ != row.conversation_id@);
                    }
                }
                let fresh = start_conversation(row, own, Ghost(rows@), Ghost(i as int), Ghost(selfs));
                out.push(fresh);
                proof {
                    let f0 = firsts;
                    firsts = firsts.push(i as int);
                    assert forall|l: int| 0 <= l < out@.len() implies #[trigger] summary_ok(out@[l], rows@, firsts[l], i + 1, selfs) by {
                        if l < out0.len() {
                            assert(out@[l] == out0[l]);
                            assert(summary_ok(out0[l], rows@, f0[l], i as int, selfs));
                            assert(out0[l].id@ != row.conversation_id@);
                            lemma_summary_other(out0[l], rows@, f0[l], i as int, selfs);
                        }
                    }
                    assert forall|kk: int, l: int| 0 <= kk < l < out@.len() implies #[trigger] firsts[kk] < #[trigger] firsts[l] by {
                        if l == out0.len() {
                            assert(summary_ok(out0[kk], rows@, f0[kk], i as int, selfs));
                        }
                    }
                    assert forall|j: int| 0 <= j < i + 1 implies #[trigger] covered(out@, rows@, j) by {
                        if j < i {
                            lemma_covered(out0, f0, rows@, i as int, selfs, j);
                            let kk = choose|kk: int| 0 <= kk < out0.len() && #[trigger] in_conv(rows@, j, out0[kk].id@);
                            assert(out@[kk] == out0[kk]);
                            assert(in_conv(rows@, j, out@[kk].id@));
                        } else {
                            assert(in_conv(rows@, j, out@[out0.len() as int].id@));
                        }
                    }
                }
            },
        }
        i += 1;
    }
    out
}


// ── Final conversation records ──────────────────────────────────────────────

/// A conversation as it is stored after aggregation.
pub struct NewConversation {
    pub id: String,
    pub participant_key: String,
    /// JSON object from participant address to display name.
    pub participant_names: String,
    /// `connections`, `others` or `automated`.
    pub classification: String,
    pub last_message_date: i64,
    pub last_message_preview: Option<String>,
    pub unread_count: i32,
    pub total_count: i32,
    pub is_important: bool,
    pub initial_sender_email: Option<String>,
}

/// The participant addresses of a participant key: its non-empty lines.
pub open spec fn key_parts(key: Seq<char>) -> Seq<Seq<char>> {
    text::nonempty_parts(text::split_char(key, '\n'))
}

/// A conversation is left out when there are blocked addresses and either it
/// is a group whose initial sender is blocked, or it has participants and
/// all of them are blocked.
pub open spec fn is_blocked_conversation(parts: Seq<Seq<char>>, initial: Option<Seq<char>>, blocked: Seq<Seq<char>>) -> bool {
    &&& blocked.len() > 0
    &&& if parts.len() > 1 {
        initial matches Some(s) && blocked.contains(s)
    } else {
        parts.len() > 0 && forall|i: int| 0 <= i < parts.len() ==> blocked.contains(#[trigger] parts[i])
    }
}

/// The display name of an address: the name of the last pair for it, or the
/// address itself.
pub open spec fn display_name(names: Seq<(Seq<char>, Seq<char>)>, addr: Seq<char>) -> Seq<char>
    decreases names.len(),
{
    if names.len() == 0 {
        addr
    } else if names.last().0 == addr {
        names.last().1
    } else {
        display_name(names.drop_last(), addr)
    }
}

/// The views of a list of string pairs.
pub open spec fn pair_views(v: Seq<(String, String)>) -> Seq<(Seq<char>, Seq<char>)> {
    v.map_values(|p: (String, String)| (p.0@, p.1@))
}

/// The keys of the participant name map: the participant addresses that are
/// not the account's own, strictly increasing.
pub open spec fn name_keys_ok(keys: Seq<Seq<char>>, parts: Seq<Seq<char>>, rule: AddressRule, selfs: Seq<Seq<char>>) -> bool {
    &&& sorted_set::sorted_strict(keys)
    &&& forall|y: Seq<char>| #[trigger] keys.contains(y) <==> (parts.contains(y) && !participants::is_own(rule, y, selfs))
}

/// The classification of a conversation from whether it has a chat message
/// and whether it is trusted.
pub open spec fn conversation_class(has_chat: bool, has_trusted: bool) -> Seq<char> {
    if has_chat && has_trusted {
        "connections"@
    } else if has_chat {
        "others"@
    } else {
        "automated"@
    }
}

/// `r` is the record of summary `s`.
pub open spec fn record_ok(
    r: NewConversation,
    s: ConversationSummary,
    rule: AddressRule,
    selfs: Seq<Seq<char>>,
    names: Seq<(Seq<char>, Seq<char>)>,
    trusted: Seq<Seq<char>>,
) -> bool {
    let parts = key_parts(s.participant_key@);
    let has_trusted = s.has_trusted || exists|i: int| 0 <= i < parts.len() && trusted.contains(#[trigger] parts[i]);
    &&& r.id@ == s.id@
    &&& r.participant_key@ == s.participant_key@
    &&& r.classification@ == conversation_class(s.has_chat, has_trusted)
    &&& r.last_message_date == s.last_message_date
    &&& text::opt_view(r.last_message_preview) == text::opt_view(s.last_message_preview)
    &&& r.unread_count == s.unread_count
    &&& r.total_count == s.total_count
    &&& r.is_important == s.has_important
    &&& text::opt_view(r.initial_sender_email) == text::opt_view(s.initial_sender_email)
    &&& exists|keys: Seq<Seq<char>>| #[trigger] name_keys_ok(keys, parts, rule, selfs)
        && r.participant_names@ == digest::json_string_map(keys, keys.map_values(|k: Seq<char>| display_name(names, k)))
}

/// Whether `x` is one of the strings of `list`.
fn list_has(list: &[String], x: &[char]) -> (r: bool)
    ensures
        r == participants::views(list@).contains(x@),
{
    let mut i: usize = 0;
    while i < list.len()
        invariant
            i <= list@.len(),
            forall|j: int| 0 <= j < i ==> participants::views(list@)[j] != x@,
        decreases list@.len() - i,
    {
        let e = text::string_chars(&list[i]);
        if text::chars_eq(e.as_slice(), x) {
            assert(participants::views(list@)[i as int] == x@);
            return true;
        }
        i += 1;
    }
    false
}

/// Whether every piece of `parts` is in `list`.
fn all_listed(parts: &Vec<Vec<char>>, list: &[String]) -> (r: bool)
    ensures
        r == forall|i: int| 0 <= i < parts@.len() ==> participants::views(list@).contains(#[trigger] text::seqs_of(parts@)[i]),
{
    let mut i: usize = 0;
    while i < parts.len()
        invariant
            i <= parts@.len(),
            forall|j: int| 0 <= j < i ==> participants::views(list@).contains(#[trigger] text::seqs_of(parts@)[j]),
        decreases parts@.len() - i,
    {
        if !list_has(list, parts[i].as_slice()) {
            assert(!participants::views(list@).contains(text::seqs_of(parts@)[i as int]));
            return false;
        }
        i += 1;
    }
    true
}

/// Whether some piece of `parts` is in `list`.
fn any_listed(parts: &Vec<Vec<char>>, list: &[String]) -> (r: bool)
    ensures
        r == exists|i: int| 0 <= i < parts@.len() && participants::views(list@).contains(#[trigger] text::seqs_of(parts@)[i]),
{
    let mut i: usize = 0;
    while i < parts.len()
        invariant
            i <= parts@.len(),
            forall|j: int| 0 <= j < i ==> !participants::views(list@).contains(#[trigger] text::seqs_of(parts@)[j]),
        decreases parts@.len() - i,
    {
        if list_has(list, parts[i].as_slice()) {
            assert(participants::views(list@).contains(text::seqs_of(parts@)[i as int]));
            return true;
        }
        i += 1;
    }
    false
}

/// Whether an address is the account's own under `rule`.
fn is_own_exec(rule: &AddressRule, a: &[char], self_emails: &[String]) -> (r: bool)
    ensures
        r == participants::is_own(*rule, a@, participants::views(self_emails@)),
{
    match rule {
        AddressRule::Lowercase => participants::is_self_ascii_exec(a, self_emails),
        AddressRule::Normalized => {
            let s = text::chars_to_string(a);
            participants::is_self_normalized_exec(s.as_str(), self_emails)
        },
    }
}

/// The display name of `addr` in `names`.
fn display_name_exec(names: &[(String, String)], addr: &[char]) -> (r: Vec<char>)
    ensures
        r@ == display_name(pair_views(names@), addr@),
{
    let ghost nv = pair_views(names@);
    let mut i: usize = names.len();
    assert(nv.take(i as int) =~= nv);
    while i > 0
        invariant
            i <= names@.len(),
            nv == pair_views(names@),
            display_name(nv, addr@) == display_name(nv.take(i as int), addr@),
        decreases i,
    {
        let ghost t = nv.take(i as int);
        assert(t.drop_last() =~= nv.take(i - 1));
        assert(t.last() == (names@[i - 1].0@, names@[i - 1].1@));
        let k = text::string_chars(&names[i - 1].0);
        if text::chars_eq(k.as_slice(), addr) {
            return text::string_chars(&names[i - 1].1);
        }
        i -= 1;
    }
    assert(nv.take(0) =~= Seq::<(Seq<char>, Seq<char>)>::empty());
    text::slice_to_vec(addr, 0, addr.len())
}


/// Strings of character vectors.
fn to_strings(v: &Vec<Vec<char>>) -> (r: Vec<String>)
    ensures
        participants::views(r@) == text::seqs_of(v@),
{
    let mut r: Vec<String> = Vec::new();
    let mut i: usize = 0;
    while i < v.len()
        invariant
            i <= v@.len(),
            participants::views(r@) == text::seqs_of(v@).take(i as int),
        decreases v@.len() - i,
    {
        let ghost r0 = r@;
        r.push(text::chars_to_string(v[i].as_slice()));
        assert(participants::views(r@) =~= participants::views(r0).push(v@[i as int]@));
        assert(text::seqs_of(v@).take(i + 1) =~= text::seqs_of(v@).take(i as int).push(v@[i as int]@));
        i += 1;
    }
    assert(text::seqs_of(v@).take(v@.len() as int) =~= text::seqs_of(v@));
    r
}

/// The conversation record of a summary, or `None` when the conversation is
/// left out because of blocked addresses. The record is trusted when the
/// summary is, or when a participant is in `trusted`; it is classified
/// `connections` (chat and trusted), `others` (chat) or `automated`; its
/// participant names map each participant that is not the account's own
/// (under `rule`) to its display name in `sender_names` (the last pair for
/// the address wins), or to the address itself.
pub fn build_conversation(
    s: &ConversationSummary,
    rule: AddressRule,
    self_emails: &[String],
    sender_names: &[(String, String)],
    blocked: &[String],
    trusted: &[String],
) -> (r: Option<NewConversation>)
    ensures
        r is None <==> is_blocked_conversation(key_parts(s.participant_key@), text::opt_view(s.initial_sender_email), participants::views(blocked@)),
        r matches Some(c) ==> record_ok(c, *s, rule, participants::views(self_emails@), pair_views(sender_names@), participants::views(trusted@)),
{
    let ghost selfs = participants::views(self_emails@);
    let kc = text::string_chars(&s.participant_key);
    let pieces = text::split_char_exec(kc.as_slice(), '\n');
    let parts = text::nonempty_exec(&pieces);
    let ghost pv = text::seqs_of(parts@);
    assert(pv == key_parts(s.participant_key@));
    if blocked.len() > 0 {
        if parts.len() > 1 {
            match &s.initial_sender_email {
                Some(init) => {
                    let ic = text::string_chars(init);
                    if list_has(blocked, ic.as_slice()) {
                        return None;
                    }
                },
                None => {},
            }
        } else if parts.len() > 0 && all_listed(&parts, blocked) {
            return None;
        }
    }
    let trusted_part = any_listed(&parts, trusted);
    let has_trusted = s.has_trusted || trusted_part;
    let mut keys: Vec<Vec<char>> = Vec::new();
    let mut i: usize = 0;
    while i < parts.len()
        invariant
            i <= parts@.len(),
            pv == text::seqs_of(parts@),
            selfs == participants::views(self_emails@),
            name_keys_ok(text::seqs_of(keys@), pv.take(i as int), rule, selfs),
        decreases parts@.len() - i,
    {
        let own = is_own_exec(&rule, parts[i].as_slice(), self_emails);
        let ghost k0 = text::seqs_of(keys@);
        assert(pv[i as int] == parts@[i as int]@);
        if !own {
            sorted_set::insert_sorted(&mut keys, parts[i].as_slice());
        }
        proof {
            assert(pv.take(i + 1) =~= pv.take(i as int).push(pv[i as int]));
            sorted_set::lemma_push_contains(pv.take(i as int), pv[i as int]);
            assert forall|y: Seq<char>| #[trigger] text::seqs_of(keys@).contains(y)
                <==> (pv.take(i + 1).contains(y) && !participants::is_own(rule, y, selfs)) by {
                assert(pv.take(i + 1).contains(y) == (pv.take(i as int).contains(y) || y == pv[i as int]));
                assert(k0.contains(y) <==> (pv.take(i as int).contains(y) && !participants::is_own(rule, y, selfs)));
                if !own {
                    assert(text::seqs_of(keys@).contains(y) <==> (k0.contains(y) || y == pv[i as int]));
                } else {
                    assert(text::seqs_of(keys@) == k0);
                }
            }
        }
        i += 1;
    }
    assert(pv.take(parts@.len() as int) =~= pv);
    let mut values: Vec<Vec<char>> = Vec::new();
    let mut j: usize = 0;
    while j < keys.len()
        invariant
            j <= keys@.len(),
            text::seqs_of(values@) == text::seqs_of(keys@).take(j as int).map_values(|k: Seq<char>| display_name(pair_views(sender_names@), k)),
        decreases keys@.len() - j,
    {
        let ghost v0 = values@;
        let name = display_name_exec(sender_names, keys[j].as_slice());
        values.push(name);
        proof {
            text::lemma_seqs_of_push(v0, name);
            assert(text::seqs_of(keys@).take(j + 1) =~= text::seqs_of(keys@).take(j as int).push(keys@[j as int]@));
            assert(text::seqs_of(values@) =~= text::seqs_of(keys@).take(j + 1).map_values(|k: Seq<char>| display_name(pair_views(sender_names@), k)));
        }
        j += 1;
    }
    assert(text::seqs_of(keys@).take(keys@.len() as int) =~= text::seqs_of(keys@));
    let key_strings = to_strings(&keys);
    let value_strings = to_strings(&values);
    let names_json = digest::to_json_string_map(&key_strings, &value_strings);
    let class = if s.has_chat && has_trusted {
        "connections"
    } else if s.has_chat {
        "others"
    } else {
        "automated"
    };
    let r = NewConversation {
        id: s.id.clone(),
        participant_key: s.participant_key.clone(),
        participant_names: names_json,
        classification: class.to_string(),
        last_message_date: s.last_message_date,
        last_message_preview: text::copy_opt(&s.last_message_preview),
        unread_count: s.unread_count,
        total_count: s.total_count,
        is_important: s.has_important,
        initial_sender_email: text::copy_opt(&s.initial_sender_email),
    };
    proof {
        reveal_strlit("connections");
        reveal_strlit("others");
        reveal_strlit("automated");
        let keys_v = text::seqs_of(keys@);
        assert(name_keys_ok(keys_v, pv, rule, selfs));
    }
    Some(r)
}


// ── User preferences across a rebuild ──────────────────────────────────────

/// The preferences a conversation had before a rebuild: the muted and
/// pinned marks of the stored conversation with its identifier (the last one
/// listed), or neither when there was none.
pub open spec fn previous_preferences(previous: Seq<(Seq<char>, bool, bool)>, id: Seq<char>) -> (bool, bool)
    decreases previous.len(),
{
    if previous.len() == 0 {
        (false, false)
    } else if previous.last().0 == id {
        (previous.last().1, previous.last().2)
    } else {
        previous_preferences(previous.drop_last(), id)
    }
}

/// The views of stored preferences.
pub open spec fn preference_views(v: Seq<(String, bool, bool)>) -> Seq<(Seq<char>, bool, bool)> {
    v.map_values(|p: (String, bool, bool)| (p.0@, p.1, p.2))
}

/// The muted and pinned marks a rebuilt conversation keeps (see
/// [`previous_preferences`]).
pub fn carried_preferences(previous: &[(String, bool, bool)], id: &str) -> (r: (bool, bool))
    ensures
        r == previous_preferences(preference_views(previous@), id@),
{
    let ghost pv = preference_views(previous@);
    let idc = text::str_chars(id);
    let mut i: usize = previous.len();
    assert(pv.take(i as int) =~= pv);
    while i > 0
        invariant
            i <= previous@.len(),
            pv == preference_views(previous@),
            idc@ == id@,
            previous_preferences(pv, id@) == previous_preferences(pv.take(i as int), id@),
        decreases i,
    {
        assert(pv.take(i as int).drop_last() =~= pv.take(i - 1));
        assert(pv.take(i as int).last() == pv[i - 1]);
        let e = &previous[i - 1];
        if text::chars_eq(text::string_chars(&e.0).as_slice(), idc.as_slice()) {
            return (e.1, e.2);
        }
        i -= 1;
    }
    assert(pv.take(0) =~= Seq::<(Seq<char>, bool, bool)>::empty());
    (false, false)
}

} // verus!
