//! RFC 2822 header blocks: unfolding, the headers used for classification,
//! recipients and `References`.
use vstd::prelude::*;
use crate::text;

verus! {

broadcast use vstd::string::group_string_axioms;

/// Whether a line continues the previous header (starts with a space or a
/// tab).
pub open spec fn is_continuation(line: Seq<char>) -> bool {
    line.len() > 0 && (line[0] == ' ' || line[0] == '\t')
}

/// Whether a line continues the previous header.
fn is_continuation_exec(line: &[char]) -> (r: bool)
    ensures
        r == is_continuation(line@),
{
    line.len() > 0 && (line[0] == ' ' || line[0] == '\t')
}

/// The headers of a block, one per entry: a continuation line is appended
/// to the previous header after a space, trimmed (and dropped when there is
/// none); other non-empty lines start a header.
pub open spec fn folded_headers(lines: Seq<Seq<char>>) -> Seq<Seq<char>>
    decreases lines.len(),
{
    if lines.len() == 0 {
        Seq::empty()
    } else {
        let hs = folded_headers(lines.drop_last());
        let line = lines.last();
        if is_continuation(line) {
            if hs.len() > 0 {
                hs.update(hs.len() - 1, hs.last() + seq![' '] + text::trim(line))
            } else {
                hs
            }
        } else if line.len() > 0 {
            hs.push(line)
        } else {
            hs
        }
    }
}

/// The unfolded headers of a header block (see [`folded_headers`]).
pub fn reassemble_folded_headers(text: &str) -> (r: Vec<String>)
    ensures
        text::string_views(r@) == folded_headers(text::lines(text@)),
{
    let ls = text::lines_exec(text::str_chars(text).as_slice());
    let ghost lv = text::seqs_of(ls@);
    let mut hs: Vec<Vec<char>> = Vec::new();
    let mut i: usize = 0;
    assert(lv.take(0) =~= Seq::<Seq<char>>::empty());
    while i < ls.len()
        invariant
            i <= ls@.len(),
            lv == text::seqs_of(ls@),
            lv == text::lines(text@),
            text::seqs_of(hs@) == folded_headers(lv.take(i as int)),
        decreases ls@.len() - i,
    {
        assert(lv.take(i + 1).drop_last() =~= lv.take(i as int));
        assert(lv.take(i + 1).last() == ls@[i as int]@);
        let line = ls[i].as_slice();
        let ghost h0 = text::seqs_of(hs@);
        if is_continuation_exec(line) {
            if hs.len() > 0 {
                let last = hs.len() - 1;
                assert(h0.last() == hs@[last as int]@);
                let mut joined = text::copy_chars(&hs[last]);
                joined.push(' ');
                let t = text::trim_chars(line);
                text::append_chars(&mut joined, t.as_slice());
                let ghost jv = joined@;
                assert(jv =~= h0.last() + seq![' '] + text::trim(line@));
                hs.set(last, joined);
                assert(text::seqs_of(hs@) =~= h0.update(h0.len() - 1, h0.last() + seq![' '] + text::trim(line@)));
            }
        } else if line.len() > 0 {
            let copy = text::slice_to_vec(line, 0, line.len());
            assert(copy@ =~= line@);
            let ghost hb = hs@;
            hs.push(copy);
            proof { text::lemma_seqs_of_push(hb, copy); }
            assert(text::seqs_of(hs@) =~= h0.push(line@));
        }
        i += 1;
    }
    assert(lv.take(ls@.len() as int) =~= lv);
    let mut r: Vec<String> = Vec::new();
    let mut j: usize = 0;
    while j < hs.len()
        invariant
            j <= hs@.len(),
            text::string_views(r@) == text::seqs_of(hs@).take(j as int),
        decreases hs@.len() - j,
    {
        let ghost r0 = r@;
        r.push(text::chars_to_string(hs[j].as_slice()));
        assert(text::string_views(r@) =~= text::string_views(r0).push(hs@[j as int]@));
        assert(text::seqs_of(hs@).take(j + 1) =~= text::seqs_of(hs@).take(j as int).push(hs@[j as int]@));
        j += 1;
    }
    assert(text::seqs_of(hs@).take(hs@.len() as int) =~= text::seqs_of(hs@));
    r
}


// ── Recipients ──────────────────────────────────────────────────────────────

/// The addresses `mailparse::addrparse` finds in an address list, in order,
/// with the members of groups in place of the groups; `None` when the list
/// does not parse.
pub uninterp spec fn addrparse_addresses(list: Seq<char>) -> Option<Seq<Seq<char>>>;

/// The view of an optional list of strings.
pub open spec fn opt_strings(o: Option<Vec<String>>) -> Option<Seq<Seq<char>>> {
    match o {
        Some(v) => Some(text::string_views(v@)),
        None => None,
    }
}

/// `mailparse::addrparse`, with each address taken out of its single or
/// group entry. The contract claims the result is the one named
/// `addrparse_addresses`; the address grammar is not restated.
#[verifier::external_body]
fn parse_address_list(list: &str) -> (r: Option<Vec<String>>)
    ensures
        opt_strings(r) == addrparse_addresses(list@),
{
    let parsed = mailparse::addrparse(list).ok()?;
    let mut out = Vec::new();
    for a in parsed.iter() {
        match a {
            mailparse::MailAddr::Single(info) => out.push(info.addr.clone()),
            mailparse::MailAddr::Group(group) => out.extend(group.addrs.iter().map(|m| m.addr.clone())),
        }
    }
    Some(out)
}

/// Whether a header is `To`, `Cc` or `Bcc` (in any case).
pub open spec fn is_recipient_header(h: Seq<char>) -> bool {
    let l = text::lowercase(h);
    text::starts_with(l, "to:"@) || text::starts_with(l, "cc:"@) || text::starts_with(l, "bcc:"@)
}

/// The value of a header: the text after its first `:`, trimmed.
pub open spec fn header_value(h: Seq<char>) -> Seq<char> {
    match text::find(h, ":"@) {
        Some(k) => text::trim(h.skip(k + 1)),
        None => Seq::empty(),
    }
}

/// The recipients a header names, lowercased: none unless it is a
/// recipient header whose value parses as an address list.
pub open spec fn header_recipients(h: Seq<char>) -> Seq<Seq<char>> {
    if is_recipient_header(h) {
        match addrparse_addresses(header_value(h)) {
            Some(a) => a.map_values(|x: Seq<char>| text::lowercase(x)),
            None => Seq::empty(),
        }
    } else {
        Seq::empty()
    }
}

/// The recipients of a list of headers, in order.
pub open spec fn recipients_of(hs: Seq<Seq<char>>) -> Seq<Seq<char>>
    decreases hs.len(),
{
    if hs.len() == 0 {
        Seq::empty()
    } else {
        recipients_of(hs.drop_last()) + header_recipients(hs.last())
    }
}

/// The value of a header.
fn header_value_exec(h: &[char]) -> (r: Vec<char>)
    ensures
        r@ == header_value(h@),
{
    let n: usize = h.len();
    match text::find_chars(h, text::str_chars(":").as_slice()) {
        Some(k) => {
            proof {
                text::lemma_find_from_bounds(h@, ":"@, 0);
                reveal_strlit(":");
                assert(text::occurs_at(h@, ":"@, k as int));
            }
            let rest = text::slice_to_vec(h, k + 1, n);
            assert(rest@ =~= h@.skip(k + 1));
            text::trim_chars(rest.as_slice())
        },
        None => Vec::new(),
    }
}

/// The recipients the `To`, `Cc` and `Bcc` headers of a header block name,
/// lowercased, in order (see [`recipients_of`]).
pub fn parse_recipient_headers(header_text: &str) -> (r: Vec<String>)
    ensures
        text::string_views(r@) == recipients_of(folded_headers(text::lines(header_text@))),
{
    let hs = reassemble_folded_headers(header_text);
    let ghost hv = text::string_views(hs@);
    let mut out: Vec<String> = Vec::new();
    let mut i: usize = 0;
    assert(hv.take(0) =~= Seq::<Seq<char>>::empty());
    while i < hs.len()
        invariant
            i <= hs@.len(),
            hv == text::string_views(hs@),
            text::string_views(out@) == recipients_of(hv.take(i as int)),
        decreases hs@.len() - i,
    {
        assert(hv.take(i + 1).drop_last() =~= hv.take(i as int));
        assert(hv.take(i + 1).last() == hs@[i as int]@);
        let h = text::string_chars(&hs[i]);
        let l = text::lower_chars(h.as_slice());
        if text::starts_with_lit(l.as_slice(), "to:") || text::starts_with_lit(l.as_slice(), "cc:")
            || text::starts_with_lit(l.as_slice(), "bcc:") {
            let value = header_value_exec(h.as_slice());
            let vs = text::chars_to_string(value.as_slice());
            match parse_address_list(vs.as_str()) {
                Some(addrs) => {
                    let ghost base = text::string_views(out@);
                    let mut k: usize = 0;
                    while k < addrs.len()
                        invariant
                            k <= addrs@.len(),
                            text::string_views(out@) == base + text::string_views(addrs@).take(k as int).map_values(|x: Seq<char>| text::lowercase(x)),
                        decreases addrs@.len() - k,
                    {
                        let ghost o0 = out@;
                        out.push(text::to_lowercase(addrs[k].as_str()));
                        assert(text::string_views(addrs@).take(k + 1) =~= text::string_views(addrs@).take(k as int).push(addrs@[k as int]@));
                        assert(text::string_views(out@) =~= text::string_views(o0).push(text::lowercase(addrs@[k as int]@)));
                        assert(text::string_views(out@) =~= base + text::string_views(addrs@).take(k + 1).map_values(|x: Seq<char>| text::lowercase(x)));
                        k += 1;
                    }
                    assert(text::string_views(addrs@).take(addrs@.len() as int) =~= text::string_views(addrs@));
                },
                None => {
                    assert(text::string_views(out@) =~= text::string_views(out@) + Seq::<Seq<char>>::empty());
                },
            }
        } else {
            assert(text::string_views(out@) =~= text::string_views(out@) + Seq::<Seq<char>>::empty());
        }
        i += 1;
    }
    assert(hv.take(hs@.len() as int) =~= hv);
    out
}


// ── Classification headers ──────────────────────────────────────────────────

/// The headers kept for classification (lowercase names).
pub open spec fn classification_header_names() -> Seq<Seq<char>> {
    seq!["list-id"@, "auto-submitted"@, "list-unsubscribe"@, "precedence"@, "feedback-id"@, "x-mailer"@, "return-path"@]
}

/// `list` with `(k, v)`: the entry for `k` replaced in place, or added at
/// the end.
pub open spec fn assoc_put(list: Seq<(Seq<char>, Seq<char>)>, k: Seq<char>, v: Seq<char>) -> Seq<(Seq<char>, Seq<char>)>
    decreases list.len(),
{
    if list.len() == 0 {
        seq![(k, v)]
    } else if list[0].0 == k {
        list.update(0, (k, v))
    } else {
        seq![list[0]] + assoc_put(list.drop_first(), k, v)
    }
}

/// The entries after a header ends: kept (with its value trimmed) when its
/// name is one of the classification headers.
pub open spec fn flush_header(entries: Seq<(Seq<char>, Seq<char>)>, name: Option<Seq<char>>, value: Seq<char>) -> Seq<(Seq<char>, Seq<char>)> {
    match name {
        Some(n) => if classification_header_names().contains(n) {
            assoc_put(entries, n, text::trim(value))
        } else {
            entries
        },
        None => entries,
    }
}

/// Reading a header block line by line: the entries so far, the name of
/// the current header and its value. A continuation line adds a space and
/// its trimmed text to the value; a line with a `:` ends the current header
/// and starts one named by the text before the `:` (trimmed, lowercased)
/// with the text after it; other lines are skipped.
pub open spec fn header_scan(lines: Seq<Seq<char>>) -> (Seq<(Seq<char>, Seq<char>)>, Option<Seq<char>>, Seq<char>)
    decreases lines.len(),
{
    if lines.len() == 0 {
        (Seq::empty(), None, Seq::empty())
    } else {
        let (entries, name, value) = header_scan(lines.drop_last());
        let line = lines.last();
        if is_continuation(line) {
            (entries, name, value + seq![' '] + text::trim(line))
        } else {
            match text::find(line, ":"@) {
                Some(k) => (flush_header(entries, name, value), Some(text::lowercase(text::trim(line.take(k)))), line.skip(k + 1)),
                None => (entries, name, value),
            }
        }
    }
}

/// The classification headers of a header block, by lowercase name, each
/// with its last value, unfolded and trimmed.
pub open spec fn classification_headers(text_: Seq<char>) -> Seq<(Seq<char>, Seq<char>)> {
    let (entries, name, value) = header_scan(text::lines(text_));
    flush_header(entries, name, value)
}

/// The views of a list of string pairs.
pub open spec fn pair_views(v: Seq<(String, String)>) -> Seq<(Seq<char>, Seq<char>)> {
    v.map_values(|p: (String, String)| (p.0@, p.1@))
}

/// Puts `(k, v)` into an association list (see [`assoc_put`]).
fn assoc_put_exec(list: &mut Vec<(String, String)>, k: String, v: String)
    ensures
        pair_views(final(list)@) == assoc_put(pair_views(old(list)@), k@, v@),
{
    let ghost l0 = pair_views(list@);
    let kc = text::string_chars(&k);
    let mut i: usize = 0;
    while i < list.len()
        invariant
            i <= list@.len(),
            l0 == pair_views(list@),
            l0 == pair_views(old(list)@),
            kc@ == k@,
            forall|j: int| 0 <= j < i ==> (#[trigger] l0[j]).0 != k@,
        decreases list@.len() - i,
    {
        let ki = text::string_chars(&list[i].0);
        assert(l0[i as int].0 == ki@);
        if text::chars_eq(ki.as_slice(), kc.as_slice()) {
            proof { lemma_assoc_put_at(l0, k@, v@, i as int); }
            let ghost kv = k@;
            let ghost vv = v@;
            list.set(i, (k, v));
            assert(pair_views(list@) =~= l0.update(i as int, (kv, vv)));
            assert(assoc_put(l0, kv, vv) == l0.update(i as int, (kv, vv)));
            return;
        }
        i += 1;
    }
    proof { lemma_assoc_put_absent(l0, k@, v@); }
    list.push((k, v));
    assert(pair_views(list@) =~= l0.push((kc@, v@)));
}

pub proof fn lemma_assoc_put_at(list: Seq<(Seq<char>, Seq<char>)>, k: Seq<char>, v: Seq<char>, i: int)
    requires
        0 <= i < list.len(),
        list[i].0 == k,
        forall|j: int| 0 <= j < i ==> (#[trigger] list[j]).0 != k,
    ensures
        assoc_put(list, k, v) == list.update(i, (k, v)),
    decreases i,
{
    if i > 0 {
        let rest = list.drop_first();
        assert forall|j: int| 0 <= j < i - 1 implies (#[trigger] rest[j]).0 != k by {
            assert(rest[j] == list[j + 1]);
        }
        lemma_assoc_put_at(rest, k, v, i - 1);
        assert(seq![list[0]] + rest.update(i - 1, (k, v)) =~= list.update(i, (k, v)));
    }
}

pub proof fn lemma_assoc_put_absent(list: Seq<(Seq<char>, Seq<char>)>, k: Seq<char>, v: Seq<char>)
    requires
        forall|j: int| 0 <= j < list.len() ==> (#[trigger] list[j]).0 != k,
    ensures
        assoc_put(list, k, v) == list.push((k, v)),
    decreases list.len(),
{
    if list.len() > 0 {
        let rest = list.drop_first();
        assert forall|j: int| 0 <= j < rest.len() implies (#[trigger] rest[j]).0 != k by {
            assert(rest[j] == list[j + 1]);
        }
        lemma_assoc_put_absent(rest, k, v);
        assert(seq![list[0]] + rest.push((k, v)) =~= list.push((k, v)));
    } else {
        assert(seq![(k, v)] =~= list.push((k, v)));
    }
}

/// Ends the current header (see [`flush_header`]).
fn flush_header_exec(entries: &mut Vec<(String, String)>, name: &Option<String>, value: &Vec<char>, allowed: &Vec<&str>)
    requires
        text::str_views(allowed@) == classification_header_names(),
    ensures
        pair_views(final(entries)@) == flush_header(pair_views(old(entries)@), text::opt_view(*name), value@),
{
    match name {
        Some(n) => {
            let nc = text::string_chars(n);
            if text::list_contains(allowed, nc.as_slice()) {
                let t = text::trim_chars(value.as_slice());
                assoc_put_exec(entries, n.clone(), text::chars_to_string(t.as_slice()));
            }
        },
        None => {},
    }
}

/// The classification headers of raw header bytes (read as UTF-8, invalid
/// sequences replaced): see [`classification_headers`]. Each name occurs
/// once, in the order it first appeared.
pub fn parse_classification_headers(raw: &[u8]) -> (r: Vec<(String, String)>)
    ensures
        pair_views(r@) == classification_headers(text::utf8_lossy(raw@)),
{
    let allowed = vec!["list-id", "auto-submitted", "list-unsubscribe", "precedence", "feedback-id", "x-mailer", "return-path"];
    assert(text::str_views(allowed@) =~= classification_header_names());
    let t = text::from_utf8_lossy(raw);
    let ls = text::lines_exec(text::string_chars(&t).as_slice());
    let ghost lv = text::seqs_of(ls@);
    let mut entries: Vec<(String, String)> = Vec::new();
    let mut name: Option<String> = None;
    let mut value: Vec<char> = Vec::new();
    let mut i: usize = 0;
    assert(lv.take(0) =~= Seq::<Seq<char>>::empty());
    assert(pair_views(entries@) =~= Seq::<(Seq<char>, Seq<char>)>::empty());
    while i < ls.len()
        invariant
            i <= ls@.len(),
            lv == text::seqs_of(ls@),
            lv == text::lines(t@),
            text::str_views(allowed@) == classification_header_names(),
            header_scan(lv.take(i as int)) == (pair_views(entries@), text::opt_view(name), value@),
        decreases ls@.len() - i,
    {
        assert(lv.take(i + 1).drop_last() =~= lv.take(i as int));
        assert(lv.take(i + 1).last() == ls@[i as int]@);
        let line = ls[i].as_slice();
        if is_continuation_exec(line) {
            value.push(' ');
            let tr = text::trim_chars(line);
            text::append_chars(&mut value, tr.as_slice());
        } else {
            let n: usize = line.len();
            match text::find_chars(line, text::str_chars(":").as_slice()) {
                Some(k) => {
                    proof {
                        text::lemma_find_from_bounds(line@, ":"@, 0);
                        reveal_strlit(":");
                        assert(text::occurs_at(line@, ":"@, k as int));
                    }
                    flush_header_exec(&mut entries, &name, &value, &allowed);
                    let head = text::slice_to_vec(line, 0, k);
                    assert(head@ =~= line@.take(k as int));
                    let hn = text::lower_chars(text::trim_chars(head.as_slice()).as_slice());
                    name = Some(text::chars_to_string(hn.as_slice()));
                    value = text::slice_to_vec(line, k + 1, n);
                    assert(value@ =~= line@.skip(k + 1));
                },
                None => {},
            }
        }
        i += 1;
    }
    assert(lv.take(ls@.len() as int) =~= lv);
    flush_header_exec(&mut entries, &name, &value, &allowed);
    entries
}


// ── References ──────────────────────────────────────────────────────────────

/// The lines of a header block joined into one: a continuation line adds a
/// space and its trimmed text, any other line a space (unless it is the
/// first text) and itself.
pub open spec fn unfold_lines(lines: Seq<Seq<char>>) -> Seq<char>
    decreases lines.len(),
{
    if lines.len() == 0 {
        Seq::empty()
    } else {
        let acc = unfold_lines(lines.drop_last());
        let line = lines.last();
        if is_continuation(line) {
            acc + seq![' '] + text::trim(line)
        } else if acc.len() > 0 {
            acc + seq![' '] + line
        } else {
            acc + line
        }
    }
}

/// The number of bytes of a character in UTF-8.
pub open spec fn utf8_width(c: char) -> nat {
    let n = c as u32;
    if n < 0x80 {
        1
    } else if n < 0x800 {
        2
    } else if n < 0x10000 {
        3
    } else {
        4
    }
}

/// The number of bytes of a text in UTF-8.
pub open spec fn utf8_len(s: Seq<char>) -> nat
    decreases s.len(),
{
    if s.len() == 0 {
        0
    } else {
        utf8_len(s.drop_last()) + utf8_width(s.last())
    }
}

/// The index of the character that starts at byte `b` of `s` (looking from
/// character `q` on), if `b` is a character boundary of `s`.
pub open spec fn boundary_from(s: Seq<char>, b: nat, q: int) -> Option<int>
    decreases s.len() - q,
{
    if q < 0 || q > s.len() {
        None
    } else if utf8_len(s.take(q)) == b {
        Some(q)
    } else if utf8_len(s.take(q)) > b || q == s.len() {
        None
    } else {
        boundary_from(s, b, q + 1)
    }
}

/// `str::split` on whitespace.
pub open spec fn split_white(s: Seq<char>) -> Seq<Seq<char>>
    decreases s.len(),
{
    if s.len() == 0 {
        seq![Seq::<char>::empty()]
    } else {
        let rest = split_white(s.drop_last());
        if text::is_white_space(s.last()) {
            rest.push(Seq::<char>::empty())
        } else {
            rest.update(rest.len() - 1, rest.last().push(s.last()))
        }
    }
}

pub proof fn lemma_split_white_nonempty(s: Seq<char>)
    ensures
        split_white(s).len() >= 1,
    decreases s.len(),
{
    if s.len() > 0 {
        lemma_split_white_nonempty(s.drop_last());
    }
}

/// `str::split_whitespace`: the non-empty words.
pub open spec fn words(s: Seq<char>) -> Seq<Seq<char>> {
    text::nonempty_parts(split_white(s))
}

/// The message identifiers among words: each word in angle brackets,
/// without them.
pub open spec fn bracketed_ids(ws: Seq<Seq<char>>) -> Seq<Seq<char>>
    decreases ws.len(),
{
    if ws.len() == 0 {
        Seq::empty()
    } else {
        let w = ws.last();
        if w.len() > 0 && w[0] == '<' && w.last() == '>' {
            bracketed_ids(ws.drop_last()).push(w.subrange(1, w.len() - 1))
        } else {
            bracketed_ids(ws.drop_last())
        }
    }
}

/// The identifiers of a `References` header block: the block unfolded, the
/// first `references:` found in its lowercase form, and the bracketed words
/// after it; none when there is no `references:`. The text after it starts
/// at the same byte offset of the unfolded text as in its lowercase form;
/// `None` when that offset is not a character boundary of the unfolded text
/// (where the text cannot be cut).
pub open spec fn references_outcome(header_text: Seq<char>) -> Option<Seq<Seq<char>>> {
    let u = unfold_lines(text::lines(header_text));
    let l = text::lowercase(u);
    match text::find(l, "references:"@) {
        None => Some(Seq::empty()),
        Some(p) => match boundary_from(u, utf8_len(l.take(p)) + 11, 0) {
            None => None,
            Some(q) => Some(bracketed_ids(words(u.skip(q)))),
        },
    }
}

/// The unfolded text of a header block.
fn unfold_exec(header_text: &str) -> (r: Vec<char>)
    ensures
        r@ == unfold_lines(text::lines(header_text@)),
{
    let ls = text::lines_exec(text::str_chars(header_text).as_slice());
    let ghost lv = text::seqs_of(ls@);
    let mut acc: Vec<char> = Vec::new();
    let mut i: usize = 0;
    assert(lv.take(0) =~= Seq::<Seq<char>>::empty());
    while i < ls.len()
        invariant
            i <= ls@.len(),
            lv == text::seqs_of(ls@),
            lv == text::lines(header_text@),
            acc@ == unfold_lines(lv.take(i as int)),
        decreases ls@.len() - i,
    {
        assert(lv.take(i + 1).drop_last() =~= lv.take(i as int));
        assert(lv.take(i + 1).last() == ls@[i as int]@);
        let line = ls[i].as_slice();
        let ghost a0 = acc@;
        if is_continuation_exec(line) {
            acc.push(' ');
            let t = text::trim_chars(line);
            text::append_chars(&mut acc, t.as_slice());
            assert(acc@ =~= a0 + seq![' '] + text::trim(line@));
        } else if acc.len() > 0 {
            acc.push(' ');
            text::append_chars(&mut acc, line);
            assert(acc@ =~= a0 + seq![' '] + line@);
        } else {
            text::append_chars(&mut acc, line);
        }
        i += 1;
    }
    assert(lv.take(ls@.len() as int) =~= lv);
    acc
}

/// The number of bytes of a character in UTF-8.
fn utf8_width_exec(c: char) -> (r: u128)
    ensures
        r == utf8_width(c),
{
    let n: u32 = c as u32;
    if n < 0x80 {
        1
    } else if n < 0x800 {
        2
    } else if n < 0x10000 {
        3
    } else {
        4
    }
}

pub proof fn lemma_utf8_len_bound(s: Seq<char>)
    ensures
        utf8_len(s) <= 4 * s.len(),
    decreases s.len(),
{
    if s.len() > 0 {
        lemma_utf8_len_bound(s.drop_last());
    }
}

/// The number of bytes of the first `p` characters of `s`.
fn utf8_prefix_len(s: &[char], p: usize) -> (r: u128)
    requires
        p <= s@.len(),
    ensures
        r == utf8_len(s@.take(p as int)),
{
    let mut acc: u128 = 0;
    let mut i: usize = 0;
    assert(s@.take(0) =~= Seq::<char>::empty());
    while i < p
        invariant
            i <= p <= s@.len(),
            acc == utf8_len(s@.take(i as int)),
        decreases p - i,
    {
        assert(s@.take(i + 1).drop_last() =~= s@.take(i as int));
        proof {
            lemma_utf8_len_bound(s@.take(i as int));
            assert(i < usize::MAX);
        }
        acc = acc + utf8_width_exec(s[i]);
        i += 1;
    }
    acc
}

/// The index of the character starting at byte `b`, if `b` is a character
/// boundary.
fn boundary_exec(s: &[char], b: u128) -> (r: Option<usize>)
    ensures
        match r {
            Some(q) => boundary_from(s@, b as nat, 0) == Some(q as int),
            None => boundary_from(s@, b as nat, 0) is None,
        },
{
    let mut acc: u128 = 0;
    let mut q: usize = 0;
    assert(s@.take(0) =~= Seq::<char>::empty());
    while q < s.len() && acc < b
        invariant
            q <= s@.len(),
            acc == utf8_len(s@.take(q as int)),
            boundary_from(s@, b as nat, 0) == boundary_from(s@, b as nat, q as int),
        decreases s@.len() - q,
    {
        assert(s@.take(q + 1).drop_last() =~= s@.take(q as int));
        proof { lemma_utf8_len_bound(s@.take(q as int)); }
        acc = acc + utf8_width_exec(s[q]);
        q += 1;
    }
    if acc == b {
        Some(q)
    } else {
        None
    }
}

/// Where the text after `references:` starts in the unfolded text: `Some(None)`
/// when there is no `references:`, `None` when the offset is not a
/// character boundary.
fn references_start(u: &[char]) -> (r: Option<Option<usize>>)
    ensures
        match r {
            None => text::find(text::lowercase(u@), "references:"@) matches Some(p)
                && boundary_from(u@, utf8_len(text::lowercase(u@).take(p)) + 11, 0) is None,
            Some(None) => text::find(text::lowercase(u@), "references:"@) is None,
            Some(Some(q)) => text::find(text::lowercase(u@), "references:"@) matches Some(p)
                && boundary_from(u@, utf8_len(text::lowercase(u@).take(p)) + 11, 0) == Some(q as int),
        },
{
    let l = text::lower_chars(u);
    match text::find_chars(l.as_slice(), text::str_chars("references:").as_slice()) {
        None => Some(None),
        Some(p) => {
            proof { text::lemma_find_from_bounds(l@, "references:"@, 0); }
            let bl = utf8_prefix_len(l.as_slice(), p);
            proof { lemma_utf8_len_bound(l@.take(p as int)); }
            match boundary_exec(u, bl + 11) {
                Some(q) => Some(Some(q)),
                None => None,
            }
        },
    }
}

/// `str::split` on whitespace, collected.
fn split_white_exec(s: &[char]) -> (r: Vec<Vec<char>>)
    ensures
        text::seqs_of(r@) == split_white(s@),
{
    let mut done: Vec<Vec<char>> = Vec::new();
    let mut cur: Vec<char> = Vec::new();
    let mut i: usize = 0;
    assert(s@.take(0) =~= Seq::<char>::empty());
    assert(text::seqs_of(done@) =~= Seq::<Seq<char>>::empty());
    while i < s.len()
        invariant
            i <= s@.len(),
            text::seqs_of(done@).push(cur@) == split_white(s@.take(i as int)),
        decreases s@.len() - i,
    {
        let ghost before = s@.take(i as int);
        let ghost old_done = done@;
        let ghost old_cur = cur@;
        assert(s@.take(i + 1).drop_last() =~= before);
        assert(s@.take(i + 1).last() == s@[i as int]);
        proof { lemma_split_white_nonempty(before); }
        if text::is_white_space_char(s[i]) {
            let piece = cur;
            done.push(piece);
            cur = Vec::new();
            proof { text::lemma_seqs_of_push(old_done, piece); }
            assert(text::seqs_of(done@).push(cur@) =~= split_white(before).push(Seq::<char>::empty()));
        } else {
            cur.push(s[i]);
            let ghost sb = split_white(before);
            assert(sb.update(sb.len() - 1, sb.last().push(s@[i as int])) =~= text::seqs_of(done@).push(cur@));
        }
        i += 1;
    }
    assert(s@.take(s@.len() as int) =~= s@);
    let ghost d = done@;
    done.push(cur);
    proof { text::lemma_seqs_of_push(d, cur); }
    done
}

/// The bracketed identifiers among words.
fn bracketed_ids_exec(ws: &Vec<Vec<char>>) -> (r: Vec<String>)
    ensures
        text::string_views(r@) == bracketed_ids(text::seqs_of(ws@)),
{
    let ghost wv = text::seqs_of(ws@);
    let mut r: Vec<String> = Vec::new();
    let mut i: usize = 0;
    assert(wv.take(0) =~= Seq::<Seq<char>>::empty());
    assert(text::string_views(r@) =~= Seq::<Seq<char>>::empty());
    while i < ws.len()
        invariant
            i <= ws@.len(),
            wv == text::seqs_of(ws@),
            text::string_views(r@) == bracketed_ids(wv.take(i as int)),
        decreases ws@.len() - i,
    {
        assert(wv.take(i + 1).drop_last() =~= wv.take(i as int));
        assert(wv.take(i + 1).last() == ws@[i as int]@);
        let w = ws[i].as_slice();
        let n: usize = w.len();
        if n > 0 && w[0] == '<' && w[n - 1] == '>' {
            let ghost r0 = r@;
            let inner = text::slice_to_vec(w, 1, n - 1);
            r.push(text::chars_to_string(inner.as_slice()));
            assert(text::string_views(r@) =~= text::string_views(r0).push(w@.subrange(1, w@.len() - 1)));
        }
        i += 1;
    }
    assert(wv.take(ws@.len() as int) =~= wv);
    r
}

/// The identifiers of a `References` header block (see
/// [`references_outcome`]); the text after `references:` must start on a
/// character boundary.
pub fn parse_references_value(header_text: &str) -> (r: Vec<String>)
    requires
        references_outcome(header_text@) is Some,
    ensures
        Some(text::string_views(r@)) == references_outcome(header_text@),
{
    let u = unfold_exec(header_text);
    match references_start(u.as_slice()) {
        Some(Some(q)) => {
            proof {
                assert(boundary_from(u@, utf8_len(text::lowercase(u@).take(text::find(text::lowercase(u@), "references:"@)->0)) + 11, 0) == Some(q as int));
                lemma_boundary_from_bounds(u@, utf8_len(text::lowercase(u@).take(text::find(text::lowercase(u@), "references:"@)->0)) + 11, 0);
            }
            let rest = text::slice_to_vec(u.as_slice(), q, u.len());
            assert(rest@ =~= u@.skip(q as int));
            let pieces = split_white_exec(rest.as_slice());
            let ws = text::nonempty_exec(&pieces);
            bracketed_ids_exec(&ws)
        },
        _ => {
            let r: Vec<String> = Vec::new();
            assert(text::string_views(r@) =~= Seq::<Seq<char>>::empty());
            r
        },
    }
}

pub proof fn lemma_boundary_from_bounds(s: Seq<char>, b: nat, q: int)
    ensures
        boundary_from(s, b, q) matches Some(i) ==> q <= i <= s.len(),
    decreases s.len() - q,
{
    if 0 <= q <= s.len() && utf8_len(s.take(q)) != b && !(utf8_len(s.take(q)) > b || q == s.len()) {
        lemma_boundary_from_bounds(s, b, q + 1);
    }
}

/// The identifiers of a `References` header block, or `None` when the text
/// after `references:` would not start on a character boundary.
pub fn try_parse_references_value(header_text: &str) -> (r: Option<Vec<String>>)
    ensures
        match r {
            Some(v) => references_outcome(header_text@) == Some(text::string_views(v@)),
            None => references_outcome(header_text@) is None,
        },
{
    let u = unfold_exec(header_text);
    match references_start(u.as_slice()) {
        None => None,
        Some(_) => Some(parse_references_value(header_text)),
    }
}

} // verus!
