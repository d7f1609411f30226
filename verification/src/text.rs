//! Character-sequence utilities shared by the mail logic.
//!
//! Every exec function here works on `char` sequences and states its result
//! through the spec functions of this module.
use vstd::prelude::*;

verus! {

broadcast use vstd::string::group_string_axioms;

// ---------------------------------------------------------------------------
// Conversions between strings and character vectors
// ---------------------------------------------------------------------------

/// The characters of a string slice, in order.
pub fn str_chars(s: &str) -> (v: Vec<char>)
    ensures
        v@ == s@,
{
    let mut v: Vec<char> = Vec::new();
    for c in it: s.chars()
        invariant
            v@ == it.seq().take(it.index() as int),
    {
        v.push(c);
    }
    v
}

/// `String::push`: appends one character.
#[verifier::external_body]
fn push_char(s: &mut String, c: char)
    ensures
        final(s)@ == old(s)@.push(c),
{
    s.push(c);
}

/// Builds a `String` holding exactly the given characters.
pub fn chars_to_string(v: &[char]) -> (s: String)
    ensures
        s@ == v@,
{
    let mut s = String::new();
    let mut i: usize = 0;
    while i < v.len()
        invariant
            i <= v@.len(),
            s@ == v@.take(i as int),
        decreases v@.len() - i,
    {
        push_char(&mut s, v[i]);
        assert(v@.take(i as int).push(v@[i as int]) =~= v@.take(i + 1));
        i += 1;
    }
    assert(v@.take(v@.len() as int) =~= v@);
    s
}

/// The characters of a `String`.
pub fn string_chars(s: &String) -> (v: Vec<char>)
    ensures
        v@ == s@,
{
    str_chars(s.as_str())
}

// ---------------------------------------------------------------------------
// Unicode case mapping (std)
// ---------------------------------------------------------------------------

/// What `str::to_lowercase` returns for a string that is not all ASCII: the
/// Unicode lowercase mapping (Derived Core Property `Lowercase`, with
/// context-dependent rules).
pub uninterp spec fn unicode_lowercase(s: Seq<char>) -> Seq<char>;

/// What `str::to_lowercase` returns: on ASCII text each letter's ASCII
/// lowercase (the Unicode mapping agrees with it there), otherwise the
/// Unicode lowercase mapping.
pub open spec fn lowercase(s: Seq<char>) -> Seq<char> {
    if all_ascii(s) {
        s.map_values(|c: char| ascii_lower(c))
    } else {
        unicode_lowercase(s)
    }
}

/// What `str::to_uppercase` returns for a string that is not all ASCII: the
/// Unicode uppercase mapping.
pub uninterp spec fn unicode_uppercase(s: Seq<char>) -> Seq<char>;

/// `char::to_ascii_uppercase`.
pub open spec fn ascii_upper(c: char) -> char {
    if 'a' <= c && c <= 'z' {
        ((c as u32) - 32) as char
    } else {
        c
    }
}

/// Whether every character is ASCII.
pub open spec fn all_ascii(s: Seq<char>) -> bool {
    forall|i: int| 0 <= i < s.len() ==> (#[trigger] s[i] as u32) < 128
}

/// What `str::to_uppercase` returns: on ASCII text each letter's ASCII
/// uppercase (the Unicode mapping agrees with it there), otherwise the
/// Unicode uppercase mapping.
pub open spec fn uppercase(s: Seq<char>) -> Seq<char> {
    if all_ascii(s) {
        s.map_values(|c: char| ascii_upper(c))
    } else {
        unicode_uppercase(s)
    }
}

/// `str::to_lowercase`. The contract claims that on ASCII text the result
/// is the ASCII lowercase of each character (std documents `to_lowercase` as
/// lowercasing ASCII characters as well as the others), and otherwise the
/// Unicode lowercase mapping, named `unicode_lowercase`, which is not
/// restated.
#[verifier::external_body]
pub(crate) fn to_lowercase(s: &str) -> (r: String)
    ensures
        r@ == (if all_ascii(s@) { s@.map_values(|c: char| ascii_lower(c)) } else { unicode_lowercase(s@) }),
{
    s.to_lowercase()
}

/// `str::to_uppercase`. The contract claims that on ASCII text the result
/// is the ASCII uppercase of each character (std documents `to_uppercase` as
/// uppercasing ASCII characters as well as the others), and otherwise the
/// Unicode uppercase mapping, named `unicode_uppercase`, which is not
/// restated.
#[verifier::external_body]
pub(crate) fn to_uppercase(s: &str) -> (r: String)
    ensures
        r@ == (if all_ascii(s@) { s@.map_values(|c: char| ascii_upper(c)) } else { unicode_uppercase(s@) }),
{
    s.to_uppercase()
}

/// Lowercases a character sequence (through `str::to_lowercase`).
pub fn lower_chars(v: &[char]) -> (r: Vec<char>)
    ensures
        r@ == lowercase(v@),
{
    let s = chars_to_string(v);
    let l = to_lowercase(s.as_str());
    string_chars(&l)
}

/// Uppercases a character sequence (through `str::to_uppercase`).
pub fn upper_chars(v: &[char]) -> (r: Vec<char>)
    ensures
        r@ == uppercase(v@),
{
    let s = chars_to_string(v);
    let u = to_uppercase(s.as_str());
    string_chars(&u)
}

// ---------------------------------------------------------------------------
// ASCII case
// ---------------------------------------------------------------------------

/// `char::to_ascii_lowercase`.
pub open spec fn ascii_lower(c: char) -> char {
    if 'A' <= c && c <= 'Z' {
        ((c as u32) + 32) as char
    } else {
        c
    }
}

/// `str::eq_ignore_ascii_case`.
pub open spec fn eq_ignore_ascii_case(a: Seq<char>, b: Seq<char>) -> bool {
    a.len() == b.len() && forall|i: int| 0 <= i < a.len() ==> ascii_lower(#[trigger] a[i]) == ascii_lower(b[i])
}

pub fn ascii_lower_char(c: char) -> (r: char)
    ensures
        r == ascii_lower(c),
{
    if 'A' <= c && c <= 'Z' {
        let n: u32 = (c as u32) + 32;
        assert(65 <= n - 32 <= 90);
        char_from_ascii_code(n)
    } else {
        c
    }
}

/// Builds the character whose code is `n`, an ASCII letter code.
fn char_from_ascii_code(n: u32) -> (c: char)
    requires
        97 <= n <= 122,
    ensures
        c == n as char,
{
    let b: u8 = n as u8;
    b as char
}

pub fn eq_ignore_ascii_case_chars(a: &[char], b: &[char]) -> (r: bool)
    ensures
        r == eq_ignore_ascii_case(a@, b@),
{
    if a.len() != b.len() {
        return false;
    }
    let mut i: usize = 0;
    while i < a.len()
        invariant
            a@.len() == b@.len(),
            i <= a@.len(),
            forall|j: int| 0 <= j < i ==> ascii_lower(#[trigger] a@[j]) == ascii_lower(b@[j]),
        decreases a@.len() - i,
    {
        if ascii_lower_char(a[i]) != ascii_lower_char(b[i]) {
            return false;
        }
        i += 1;
    }
    true
}


// ---------------------------------------------------------------------------
// Unicode White_Space (char::is_whitespace, str::trim)
// ---------------------------------------------------------------------------

/// `char::is_whitespace`: the Unicode `White_Space` property.
pub open spec fn is_white_space(c: char) -> bool {
    let n = c as u32;
    (0x09 <= n && n <= 0x0D) || n == 0x20 || n == 0x85 || n == 0xA0 || n == 0x1680
        || (0x2000 <= n && n <= 0x200A) || n == 0x2028 || n == 0x2029 || n == 0x202F
        || n == 0x205F || n == 0x3000
}

pub fn is_white_space_char(c: char) -> (r: bool)
    ensures
        r == is_white_space(c),
{
    let n: u32 = c as u32;
    (0x09 <= n && n <= 0x0D) || n == 0x20 || n == 0x85 || n == 0xA0 || n == 0x1680
        || (0x2000 <= n && n <= 0x200A) || n == 0x2028 || n == 0x2029 || n == 0x202F
        || n == 0x205F || n == 0x3000
}

/// `str::trim_start`.
pub open spec fn trim_start(s: Seq<char>) -> Seq<char>
    decreases s.len(),
{
    if s.len() > 0 && is_white_space(s[0]) {
        trim_start(s.drop_first())
    } else {
        s
    }
}

/// `str::trim_end`.
pub open spec fn trim_end(s: Seq<char>) -> Seq<char>
    decreases s.len(),
{
    if s.len() > 0 && is_white_space(s.last()) {
        trim_end(s.drop_last())
    } else {
        s
    }
}

/// `str::trim`.
pub open spec fn trim(s: Seq<char>) -> Seq<char> {
    trim_end(trim_start(s))
}

pub fn trim_chars(v: &[char]) -> (r: Vec<char>)
    ensures
        r@ == trim(v@),
{
    let mut i: usize = 0;
    assert(v@.skip(0) =~= v@);
    while i < v.len() && is_white_space_char(v[i])
        invariant
            i <= v@.len(),
            trim_start(v@) == trim_start(v@.skip(i as int)),
        decreases v@.len() - i,
    {
        assert(v@.skip(i as int).drop_first() =~= v@.skip(i + 1));
        i += 1;
    }
    assert(trim_start(v@) == v@.skip(i as int));
    let mut j: usize = v.len();
    while j > i && is_white_space_char(v[j - 1])
        invariant
            i <= j <= v@.len(),
            trim(v@) == trim_end(v@.subrange(i as int, j as int)),
        decreases j,
    {
        assert(v@.subrange(i as int, j as int).drop_last() =~= v@.subrange(i as int, j - 1));
        j -= 1;
    }
    slice_to_vec(v, i, j)
}

/// A copy of `v[from..to]`.
pub fn slice_to_vec(v: &[char], from: usize, to: usize) -> (r: Vec<char>)
    requires
        from <= to <= v@.len(),
    ensures
        r@ == v@.subrange(from as int, to as int),
{
    let mut r: Vec<char> = Vec::new();
    let mut k: usize = from;
    while k < to
        invariant
            from <= k <= to <= v@.len(),
            r@ == v@.subrange(from as int, k as int),
        decreases to - k,
    {
        r.push(v[k]);
        assert(v@.subrange(from as int, k as int).push(v@[k as int]) =~= v@.subrange(from as int, k + 1));
        k += 1;
    }
    r
}

// ---------------------------------------------------------------------------
// Prefixes, suffixes and substring search
// ---------------------------------------------------------------------------

/// `str::starts_with` with a string pattern.
pub open spec fn starts_with(s: Seq<char>, p: Seq<char>) -> bool {
    p.len() <= s.len() && s.take(p.len() as int) == p
}

/// `str::ends_with` with a string pattern.
pub open spec fn ends_with(s: Seq<char>, p: Seq<char>) -> bool {
    p.len() <= s.len() && s.skip(s.len() - p.len()) == p
}

/// `p` occurs in `s` at index `i`.
pub open spec fn occurs_at(s: Seq<char>, p: Seq<char>, i: int) -> bool {
    0 <= i && i + p.len() <= s.len() && s.subrange(i, i + p.len()) == p
}

/// The first index at or after `from` where `p` occurs in `s` (`str::find`).
pub open spec fn find_from(s: Seq<char>, p: Seq<char>, from: int) -> Option<int>
    decreases s.len() + 1 - from,
{
    if from < 0 || from > s.len() || from + p.len() > s.len() {
        None
    } else if occurs_at(s, p, from) {
        Some(from)
    } else {
        find_from(s, p, from + 1)
    }
}

/// `str::find` with a string pattern.
pub open spec fn find(s: Seq<char>, p: Seq<char>) -> Option<int> {
    find_from(s, p, 0)
}

/// `str::contains` with a string pattern.
pub open spec fn contains(s: Seq<char>, p: Seq<char>) -> bool {
    find(s, p) is Some
}

pub fn starts_with_chars(s: &[char], p: &[char]) -> (r: bool)
    ensures
        r == starts_with(s@, p@),
{
    if p.len() > s.len() {
        return false;
    }
    let mut i: usize = 0;
    while i < p.len()
        invariant
            p@.len() <= s@.len(),
            i <= p@.len(),
            forall|j: int| 0 <= j < i ==> s@[j] == p@[j],
        decreases p@.len() - i,
    {
        if s[i] != p[i] {
            assert(s@.take(p@.len() as int)[i as int] != p@[i as int]);
            return false;
        }
        i += 1;
    }
    assert(s@.take(p@.len() as int) =~= p@);
    true
}

pub fn ends_with_chars(s: &[char], p: &[char]) -> (r: bool)
    ensures
        r == ends_with(s@, p@),
{
    if p.len() > s.len() {
        return false;
    }
    let slen: usize = s.len();
    let off: usize = slen - p.len();
    let mut i: usize = 0;
    while i < p.len()
        invariant
            slen == s@.len(),
            p@.len() <= s@.len(),
            off == s@.len() - p@.len(),
            i <= p@.len(),
            forall|j: int| 0 <= j < i ==> s@[off + j] == p@[j],
        decreases p@.len() - i,
    {
        if s[off + i] != p[i] {
            assert(s@.skip(off as int)[i as int] != p@[i as int]);
            return false;
        }
        i += 1;
    }
    assert(s@.skip(off as int) =~= p@);
    true
}

/// Whether `p` occurs in `s` at index `i`.
pub fn occurs_at_chars(s: &[char], p: &[char], i: usize) -> (r: bool)
    ensures
        r == occurs_at(s@, p@, i as int),
{
    if i > s.len() || p.len() > s.len() - i {
        return false;
    }
    let slen: usize = s.len();
    let mut k: usize = 0;
    while k < p.len()
        invariant
            slen == s@.len(),
            i + p@.len() <= s@.len(),
            k <= p@.len(),
            forall|j: int| 0 <= j < k ==> s@[i + j] == p@[j],
        decreases p@.len() - k,
    {
        if s[i + k] != p[k] {
            assert(s@.subrange(i as int, i + p@.len())[k as int] != p@[k as int]);
            return false;
        }
        k += 1;
    }
    assert(s@.subrange(i as int, i + p@.len()) =~= p@);
    true
}

/// The first occurrence of `p` in `s` at or after `from`.
pub fn find_from_chars(s: &[char], p: &[char], from: usize) -> (r: Option<usize>)
    ensures
        r matches Some(i) ==> find_from(s@, p@, from as int) == Some(i as int),
        r is None ==> find_from(s@, p@, from as int) is None,
{
    let slen: usize = s.len();
    let mut i: usize = from;
    while i <= slen && p.len() <= slen - i
        invariant
            slen == s@.len(),
            from <= i,
            find_from(s@, p@, from as int) == find_from(s@, p@, i as int),
        decreases s@.len() + 1 - i,
    {
        if occurs_at_chars(s, p, i) {
            return Some(i);
        }
        if i == slen {
            assert(find_from(s@, p@, i + 1) is None);
            return None;
        }
        i += 1;
    }
    None
}

/// `str::find`.
pub fn find_chars(s: &[char], p: &[char]) -> (r: Option<usize>)
    ensures
        r matches Some(i) ==> find(s@, p@) == Some(i as int),
        r is None ==> find(s@, p@) is None,
{
    find_from_chars(s, p, 0)
}

/// `str::contains`.
pub fn contains_chars(s: &[char], p: &[char]) -> (r: bool)
    ensures
        r == contains(s@, p@),
{
    find_chars(s, p).is_some()
}

/// `str::contains` with a char pattern.
pub open spec fn has_char(s: Seq<char>, c: char) -> bool {
    exists|i: int| 0 <= i < s.len() && s[i] == c
}

pub fn has_char_exec(s: &[char], c: char) -> (r: bool)
    ensures
        r == has_char(s@, c),
{
    let mut i: usize = 0;
    while i < s.len()
        invariant
            i <= s@.len(),
            forall|j: int| 0 <= j < i ==> s@[j] != c,
        decreases s@.len() - i,
    {
        if s[i] == c {
            return true;
        }
        i += 1;
    }
    false
}


// ---------------------------------------------------------------------------
// Splitting and joining
// ---------------------------------------------------------------------------

/// `str::split` with a char separator: the pieces between occurrences of `c`
/// (always at least one piece).
pub open spec fn split_char(s: Seq<char>, c: char) -> Seq<Seq<char>>
    decreases s.len(),
{
    if s.len() == 0 {
        seq![Seq::<char>::empty()]
    } else {
        let rest = split_char(s.drop_last(), c);
        if s.last() == c {
            rest.push(Seq::<char>::empty())
        } else {
            rest.update(rest.len() - 1, rest.last().push(s.last()))
        }
    }
}

pub proof fn lemma_split_char_nonempty(s: Seq<char>, c: char)
    ensures
        split_char(s, c).len() >= 1,
    decreases s.len(),
{
    if s.len() > 0 {
        lemma_split_char_nonempty(s.drop_last(), c);
    }
}

/// The character sequences held by a vector of character vectors.
pub open spec fn seqs_of(v: Seq<Vec<char>>) -> Seq<Seq<char>> {
    v.map_values(|x: Vec<char>| x@)
}

pub proof fn lemma_seqs_of_push(v: Seq<Vec<char>>, x: Vec<char>)
    ensures
        seqs_of(v.push(x)) == seqs_of(v).push(x@),
{
    assert(seqs_of(v.push(x)) =~= seqs_of(v).push(x@));
}

/// `str::split(c)`, collected.
pub fn split_char_exec(s: &[char], c: char) -> (r: Vec<Vec<char>>)
    ensures
        seqs_of(r@) == split_char(s@, c),
{
    let mut done: Vec<Vec<char>> = Vec::new();
    let mut cur: Vec<char> = Vec::new();
    let mut i: usize = 0;
    assert(s@.take(0) =~= Seq::<char>::empty());
    assert(seqs_of(done@) =~= Seq::<Seq<char>>::empty());
    while i < s.len()
        invariant
            i <= s@.len(),
            seqs_of(done@).push(cur@) == split_char(s@.take(i as int), c),
        decreases s@.len() - i,
    {
        let ghost before = s@.take(i as int);
        let ghost old_done = done@;
        let ghost old_cur = cur@;
        assert(s@.take(i + 1).drop_last() =~= before);
        assert(s@.take(i + 1).last() == s@[i as int]);
        proof { lemma_split_char_nonempty(before, c); }
        if s[i] == c {
            let piece = cur;
            done.push(piece);
            cur = Vec::new();
            proof { lemma_seqs_of_push(old_done, piece); }
            assert(seqs_of(old_done).push(old_cur) == split_char(before, c));
            assert(seqs_of(done@).push(cur@) =~= split_char(before, c).push(Seq::<char>::empty()));
        } else {
            cur.push(s[i]);
            let ghost sb = split_char(before, c);
            assert(sb.update(sb.len() - 1, sb.last().push(s@[i as int])) =~= seqs_of(done@).push(cur@));
        }
        i += 1;
    }
    assert(s@.take(s@.len() as int) =~= s@);
    let ghost d = done@;
    done.push(cur);
    proof { lemma_seqs_of_push(d, cur); }
    done
}

/// Removes one trailing `'\r'`.
pub open spec fn strip_cr(s: Seq<char>) -> Seq<char> {
    if s.len() > 0 && s.last() == '\r' {
        s.drop_last()
    } else {
        s
    }
}

/// `str::lines`: pieces between `'\n'`, each that ended in `"\r\n"` without
/// its `'\r'`; a final empty piece (after a trailing newline) is not a line.
pub open spec fn lines(s: Seq<char>) -> Seq<Seq<char>> {
    let p = split_char(s, '\n');
    let body = p.take(p.len() - 1).map_values(|l: Seq<char>| strip_cr(l));
    if p.last().len() == 0 {
        body
    } else {
        body.push(p.last())
    }
}

/// `str::lines`, collected.
pub fn lines_exec(s: &[char]) -> (r: Vec<Vec<char>>)
    ensures
        seqs_of(r@) == lines(s@),
{
    let pieces = split_char_exec(s, '\n');
    proof { lemma_split_char_nonempty(s@, '\n'); }
    let n: usize = pieces.len();
    let ghost p = seqs_of(pieces@);
    let mut r: Vec<Vec<char>> = Vec::new();
    let mut i: usize = 0;
    assert(seqs_of(r@) =~= p.take(0).map_values(|l: Seq<char>| strip_cr(l)));
    while i + 1 < n
        invariant
            n == pieces@.len(),
            n >= 1,
            p == seqs_of(pieces@),
            p == split_char(s@, '\n'),
            i + 1 <= n,
            seqs_of(r@) == p.take(i as int).map_values(|l: Seq<char>| strip_cr(l)),
        decreases n - i,
    {
        let piece: &Vec<char> = &pieces[i];
        let mut line: Vec<char> = slice_to_vec(piece.as_slice(), 0, piece.len());
        assert(p[i as int] == piece@);
        assert(line@ =~= p[i as int]);
        if line.len() > 0 && line[line.len() - 1] == '\r' {
            line.pop();
            assert(line@ =~= p[i as int].drop_last());
        }
        assert(line@ == strip_cr(p[i as int]));
        let ghost rr = r@;
        r.push(line);
        proof { lemma_seqs_of_push(rr, line); }
        assert(p.take(i + 1).map_values(|l: Seq<char>| strip_cr(l)) =~= p.take(i as int).map_values(|l: Seq<char>| strip_cr(l)).push(strip_cr(p[i as int])));
        i += 1;
    }
    let last: &Vec<char> = &pieces[n - 1];
    assert(last@ == p.last());
    if last.len() > 0 {
        let ghost rr = r@;
        let lv = slice_to_vec(last.as_slice(), 0, last.len());
        assert(lv@ =~= last@);
        r.push(lv);
        proof { lemma_seqs_of_push(rr, lv); }
    }
    r
}

/// Pieces joined with a separator (`[String]::join`).
pub open spec fn join(parts: Seq<Seq<char>>, sep: Seq<char>) -> Seq<char>
    decreases parts.len(),
{
    if parts.len() == 0 {
        Seq::<char>::empty()
    } else if parts.len() == 1 {
        parts[0]
    } else {
        join(parts.drop_last(), sep) + sep + parts.last()
    }
}

/// `[Vec<char>]::join`.
pub fn join_exec(parts: &Vec<Vec<char>>, sep: &[char]) -> (r: Vec<char>)
    ensures
        r@ == join(seqs_of(parts@), sep@),
{
    let mut r: Vec<char> = Vec::new();
    let mut i: usize = 0;
    while i < parts.len()
        invariant
            i <= parts@.len(),
            r@ == join(seqs_of(parts@).take(i as int), sep@),
        decreases parts@.len() - i,
    {
        let ghost dv = seqs_of(parts@);
        assert(dv.take(i + 1).drop_last() =~= dv.take(i as int));
        if i > 0 {
            append_chars(&mut r, sep);
        }
        let piece: &Vec<char> = &parts[i];
        append_chars(&mut r, piece.as_slice());
        assert(dv.take(i + 1).last() == dv[i as int]);
        assert(i == 0 ==> r@ =~= dv.take(i + 1)[0]);
        i += 1;
    }
    assert(seqs_of(parts@).take(parts@.len() as int) =~= seqs_of(parts@));
    r
}

/// Appends the characters of `v` to `r`.
pub fn append_chars(r: &mut Vec<char>, v: &[char])
    ensures
        final(r)@ == old(r)@ + v@,
{
    let mut k: usize = 0;
    while k < v.len()
        invariant
            k <= v@.len(),
            r@ == old(r)@ + v@.take(k as int),
        decreases v@.len() - k,
    {
        r.push(v[k]);
        assert(v@.take(k + 1) =~= v@.take(k as int).push(v@[k as int]));
        k += 1;
    }
    assert(v@.take(v@.len() as int) =~= v@);
}

// ---------------------------------------------------------------------------
// Replacement
// ---------------------------------------------------------------------------

/// `str::replace` from index `pos` on: the non-overlapping occurrences of a
/// non-empty `f`, found left to right, replaced by `t`.
pub open spec fn replace_from(s: Seq<char>, f: Seq<char>, t: Seq<char>, pos: int) -> Seq<char>
    decreases s.len() + 1 - pos,
{
    if f.len() == 0 || pos < 0 || pos > s.len() {
        Seq::<char>::empty()
    } else {
        match find_from(s, f, pos) {
            None => s.subrange(pos, s.len() as int),
            Some(i) => if i < pos || i + f.len() > s.len() {
                Seq::<char>::empty()
            } else {
                s.subrange(pos, i) + t + replace_from(s, f, t, i + f.len())
            },
        }
    }
}

/// `str::replace` with a non-empty pattern.
pub open spec fn replace(s: Seq<char>, f: Seq<char>, t: Seq<char>) -> Seq<char> {
    replace_from(s, f, t, 0)
}

pub proof fn lemma_find_from_bounds(s: Seq<char>, p: Seq<char>, from: int)
    ensures
        find_from(s, p, from) matches Some(i) ==> from <= i && occurs_at(s, p, i),
    decreases s.len() + 1 - from,
{
    if !(from < 0 || from > s.len() || from + p.len() > s.len()) && !occurs_at(s, p, from) {
        lemma_find_from_bounds(s, p, from + 1);
    }
}

/// A pattern that occurs at or after `from` is found from `from`.
pub proof fn lemma_find_from_occurs(s: Seq<char>, p: Seq<char>, from: int, k: int)
    requires
        0 <= from <= k,
        occurs_at(s, p, k),
    ensures
        find_from(s, p, from) is Some,
    decreases k - from,
{
    if !occurs_at(s, p, from) {
        lemma_find_from_occurs(s, p, from + 1, k);
    }
}

/// `str::replace(f, t)` for a non-empty `f`.
pub fn replace_exec(s: &[char], f: &[char], t: &[char]) -> (r: Vec<char>)
    requires
        f@.len() > 0,
    ensures
        r@ == replace(s@, f@, t@),
{
    let mut r: Vec<char> = Vec::new();
    let mut pos: usize = 0;
    let slen: usize = s.len();
    loop
        invariant
            slen == s@.len(),
            f@.len() > 0,
            pos <= s@.len(),
            r@ + replace_from(s@, f@, t@, pos as int) == replace(s@, f@, t@),
        decreases s@.len() + 1 - pos,
    {
        match find_from_chars(s, f, pos) {
            None => {
                let tail = slice_to_vec(s, pos, s.len());
                append_chars(&mut r, tail.as_slice());
                return r;
            },
            Some(i) => {
                proof { lemma_find_from_bounds(s@, f@, pos as int); }
                assert(occurs_at(s@, f@, i as int));
                let mid = slice_to_vec(s, pos, i);
                append_chars(&mut r, mid.as_slice());
                append_chars(&mut r, t);
                pos = i + f.len();
            },
        }
    }
}

// ---------------------------------------------------------------------------
// Decimal formatting of unsigned integers (`u32: Display`)
// ---------------------------------------------------------------------------

pub open spec fn digit_char(d: nat) -> char {
    ((d + 48) as u32) as char
}

/// The decimal digits of `n`, most significant first, without leading zeros.
pub open spec fn decimal(n: nat) -> Seq<char>
    decreases n,
{
    if n < 10 {
        seq![digit_char(n)]
    } else {
        decimal(n / 10).push(digit_char(n % 10))
    }
}

fn digit_to_char(d: u64) -> (c: char)
    requires
        d < 10,
    ensures
        c == digit_char(d as nat),
{
    let b: u8 = (d + 48) as u8;
    b as char
}

/// Appends the decimal digits of `n` to `out`.
pub fn push_decimal(out: &mut Vec<char>, n: u64)
    ensures
        final(out)@ == old(out)@ + decimal(n as nat),
    decreases n,
{
    if n < 10 {
        out.push(digit_to_char(n));
    } else {
        push_decimal(out, n / 10);
        out.push(digit_to_char(n % 10));
    }
}


// ---------------------------------------------------------------------------
// Equality and membership
// ---------------------------------------------------------------------------

/// Character-wise equality.
pub fn chars_eq(a: &[char], b: &[char]) -> (r: bool)
    ensures
        r == (a@ == b@),
{
    if a.len() != b.len() {
        return false;
    }
    let mut i: usize = 0;
    while i < a.len()
        invariant
            a@.len() == b@.len(),
            i <= a@.len(),
            forall|j: int| 0 <= j < i ==> a@[j] == b@[j],
        decreases a@.len() - i,
    {
        if a[i] != b[i] {
            return false;
        }
        i += 1;
    }
    assert(a@ =~= b@);
    true
}

/// The views of a list of string slices.
pub open spec fn str_views(v: Seq<&str>) -> Seq<Seq<char>> {
    v.map_values(|s: &str| s@)
}

/// Whether `item` is one of the strings of `list`.
pub fn list_contains(list: &Vec<&str>, item: &[char]) -> (r: bool)
    ensures
        r == str_views(list@).contains(item@),
{
    let mut i: usize = 0;
    while i < list.len()
        invariant
            i <= list@.len(),
            forall|j: int| 0 <= j < i ==> str_views(list@)[j] != item@,
        decreases list@.len() - i,
    {
        let e = str_chars(list[i]);
        if chars_eq(e.as_slice(), item) {
            assert(str_views(list@)[i as int] == item@);
            return true;
        }
        i += 1;
    }
    false
}

/// A copy of a character vector.
pub fn copy_chars(v: &Vec<char>) -> (r: Vec<char>)
    ensures
        r@ == v@,
{
    slice_to_vec(v.as_slice(), 0, v.len())
}

/// The views of a sequence of strings.
pub open spec fn string_views(v: Seq<String>) -> Seq<Seq<char>> {
    v.map_values(|s: String| s@)
}

/// The view of an optional string.
pub open spec fn opt_view(o: Option<String>) -> Option<Seq<char>> {
    match o {
        Some(s) => Some(s@),
        None => None,
    }
}

/// A copy of an optional string.
pub fn copy_opt(o: &Option<String>) -> (r: Option<String>)
    ensures
        opt_view(r) == opt_view(*o),
{
    match o {
        Some(s) => Some(s.clone()),
        None => None,
    }
}

/// `str::trim_end_matches` with a char pattern: `s` without all its trailing
/// `c`.
pub open spec fn trim_end_char(s: Seq<char>, c: char) -> Seq<char>
    decreases s.len(),
{
    if s.len() > 0 && s.last() == c {
        trim_end_char(s.drop_last(), c)
    } else {
        s
    }
}

/// `str::trim_end_matches(c)`.
pub fn trim_end_char_exec(v: &[char], c: char) -> (r: Vec<char>)
    ensures
        r@ == trim_end_char(v@, c),
{
    let mut j: usize = v.len();
    assert(v@.subrange(0, j as int) =~= v@);
    while j > 0 && v[j - 1] == c
        invariant
            j <= v@.len(),
            trim_end_char(v@, c) == trim_end_char(v@.subrange(0, j as int), c),
        decreases j,
    {
        assert(v@.subrange(0, j as int).drop_last() =~= v@.subrange(0, j - 1));
        j -= 1;
    }
    slice_to_vec(v, 0, j)
}

/// `s` without all its leading `c`.
pub open spec fn trim_start_char(s: Seq<char>, c: char) -> Seq<char>
    decreases s.len(),
{
    if s.len() > 0 && s[0] == c {
        trim_start_char(s.drop_first(), c)
    } else {
        s
    }
}

/// `str::trim_matches` with a char pattern: `s` without all its leading and
/// trailing `c`.
pub open spec fn trim_char(s: Seq<char>, c: char) -> Seq<char> {
    trim_end_char(trim_start_char(s, c), c)
}

/// `str::trim_matches(c)`.
pub fn trim_char_exec(v: &[char], c: char) -> (r: Vec<char>)
    ensures
        r@ == trim_char(v@, c),
{
    let mut i: usize = 0;
    assert(v@.skip(0) =~= v@);
    while i < v.len() && v[i] == c
        invariant
            i <= v@.len(),
            trim_start_char(v@, c) == trim_start_char(v@.skip(i as int), c),
        decreases v@.len() - i,
    {
        assert(v@.skip(i as int).drop_first() =~= v@.skip(i + 1));
        i += 1;
    }
    let rest = slice_to_vec(v, i, v.len());
    assert(rest@ =~= v@.skip(i as int));
    trim_end_char_exec(rest.as_slice(), c)
}

/// The characters of the string literal `lit` followed by `b`.
pub fn lit_then(lit: &str, b: &[char]) -> (r: Vec<char>)
    ensures
        r@ == lit@ + b@,
{
    let mut r = str_chars(lit);
    append_chars(&mut r, b);
    r
}

/// Whether `s` contains the string literal `lit`.
pub fn contains_lit(s: &[char], lit: &str) -> (r: bool)
    ensures
        r == contains(s@, lit@),
{
    let l = str_chars(lit);
    contains_chars(s, l.as_slice())
}

/// Whether `s` starts with the string literal `lit`.
pub fn starts_with_lit(s: &[char], lit: &str) -> (r: bool)
    ensures
        r == starts_with(s@, lit@),
{
    let l = str_chars(lit);
    starts_with_chars(s, l.as_slice())
}

/// The non-empty pieces, in order.
pub open spec fn nonempty_parts(parts: Seq<Seq<char>>) -> Seq<Seq<char>>
    decreases parts.len(),
{
    if parts.len() == 0 {
        Seq::<Seq<char>>::empty()
    } else if parts.last().len() > 0 {
        nonempty_parts(parts.drop_last()).push(parts.last())
    } else {
        nonempty_parts(parts.drop_last())
    }
}

/// The non-empty pieces of `parts`.
pub fn nonempty_exec(parts: &Vec<Vec<char>>) -> (r: Vec<Vec<char>>)
    ensures
        seqs_of(r@) == nonempty_parts(seqs_of(parts@)),
{
    let ghost all = seqs_of(parts@);
    let mut r: Vec<Vec<char>> = Vec::new();
    let mut i: usize = 0;
    assert(seqs_of(r@) =~= nonempty_parts(all.take(0)));
    while i < parts.len()
        invariant
            i <= parts@.len(),
            all == seqs_of(parts@),
            seqs_of(r@) == nonempty_parts(all.take(i as int)),
        decreases parts@.len() - i,
    {
        assert(all.take(i + 1).drop_last() =~= all.take(i as int));
        assert(all.take(i + 1).last() == parts@[i as int]@);
        if parts[i].len() > 0 {
            let ghost r0 = r@;
            let piece = copy_chars(&parts[i]);
            r.push(piece);
            proof { lemma_seqs_of_push(r0, piece); }
        }
        i += 1;
    }
    assert(all.take(parts@.len() as int) =~= all);
    r
}

/// What `String::from_utf8_lossy` gives for a byte sequence: its UTF-8
/// text, with each invalid sequence replaced by U+FFFD.
pub uninterp spec fn utf8_lossy(bytes: Seq<u8>) -> Seq<char>;

/// `String::from_utf8_lossy`. The contract claims the result is the text
/// named `utf8_lossy`, and, for valid UTF-8, exactly the text the bytes
/// encode (only invalid sequences are replaced); the replacement of invalid
/// sequences is not restated.
#[verifier::external_body]
pub(crate) fn from_utf8_lossy(bytes: &[u8]) -> (r: String)
    ensures
        r@ == utf8_lossy(bytes@),
        vstd::utf8::valid_utf8(bytes@) ==> r@ == vstd::utf8::decode_utf8(bytes@),
{
    String::from_utf8_lossy(bytes).to_string()
}


// ---------------------------------------------------------------------------
// Splitting what was joined
// ---------------------------------------------------------------------------

/// Splitting text with no separator gives the text itself.
pub proof fn lemma_split_char_none(s: Seq<char>, c: char)
    requires
        !s.contains(c),
    ensures
        split_char(s, c) == seq![s],
    decreases s.len(),
{
    if s.len() > 0 {
        assert(!s.drop_last().contains(c)) by {
            if s.drop_last().contains(c) {
                let i = choose|i: int| 0 <= i < s.drop_last().len() && s.drop_last()[i] == c;
                assert(s[i] == c);
            }
        }
        lemma_split_char_none(s.drop_last(), c);
        assert(s.last() != c) by {
            assert(s[s.len() - 1] == s.last());
        }
        assert(s.drop_last().push(s.last()) =~= s);
        assert(seq![s.drop_last()].update(0, s.drop_last().push(s.last())) =~= seq![s]);
    } else {
        assert(s =~= Seq::<char>::empty());
    }
}

/// Splitting around a separator splits each side.
pub proof fn lemma_split_char_concat(a: Seq<char>, b: Seq<char>, c: char)
    ensures
        split_char(a + seq![c] + b, c) == split_char(a, c) + split_char(b, c),
    decreases b.len(),
{
    let s = a + seq![c] + b;
    if b.len() == 0 {
        assert(s.drop_last() =~= a);
        assert(s.last() == c);
        assert(split_char(a, c).push(Seq::<char>::empty()) =~= split_char(a, c) + seq![Seq::<char>::empty()]);
    } else {
        let bd = b.drop_last();
        assert(s.drop_last() =~= a + seq![c] + bd);
        assert(s.last() == b.last());
        lemma_split_char_concat(a, bd, c);
        lemma_split_char_nonempty(bd, c);
        let x = split_char(a, c);
        let y = split_char(bd, c);
        if b.last() == c {
            assert((x + y).push(Seq::<char>::empty()) =~= x + y.push(Seq::<char>::empty()));
        } else {
            let r = x + y;
            assert(r.update(r.len() - 1, r.last().push(b.last())) =~= x + y.update(y.len() - 1, y.last().push(b.last())));
        }
    }
}

/// Lines joined with CRLF split back into the same lines, when none holds
/// a newline and the last is not empty.
pub proof fn lemma_lines_of_crlf_join(ls: Seq<Seq<char>>)
    requires
        ls.len() >= 1,
        forall|i: int| 0 <= i < ls.len() ==> !(#[trigger] ls[i]).contains('\n'),
        ls.last().len() > 0,
    ensures
        lines(join(ls, "\r\n"@)) == ls,
{
    lemma_split_crlf_join(ls);
    let p = split_char(join(ls, "\r\n"@), '\n');
    let n = ls.len();
    assert(p.take(n - 1).map_values(|l: Seq<char>| strip_cr(l)) =~= ls.take(n - 1)) by {
        assert forall|i: int| 0 <= i < n - 1 implies strip_cr(p[i]) == ls[i] by {
            assert(p[i] == ls[i].push('\r'));
            assert(ls[i].push('\r').drop_last() =~= ls[i]);
        }
    }
    assert(ls.take(n - 1).push(ls.last()) =~= ls);
}

/// The pieces of CRLF-joined lines between newlines: each line but the last
/// with its carriage return.
proof fn lemma_split_crlf_join(ls: Seq<Seq<char>>)
    requires
        ls.len() >= 1,
        forall|i: int| 0 <= i < ls.len() ==> !(#[trigger] ls[i]).contains('\n'),
    ensures
        split_char(join(ls, "\r\n"@), '\n').len() == ls.len(),
        forall|i: int| 0 <= i < ls.len() ==> #[trigger] split_char(join(ls, "\r\n"@), '\n')[i]
            == if i < ls.len() - 1 { ls[i].push('\r') } else { ls[i] },
    decreases ls.len(),
{
    reveal_strlit("\r\n");
    let n = ls.len();
    if n == 1 {
        assert(!ls[0].contains('\n'));
        lemma_split_char_none(ls[0], '\n');
    } else {
        let dl = ls.drop_last();
        assert forall|i: int| 0 <= i < dl.len() implies !(#[trigger] dl[i]).contains('\n') by {
            assert(dl[i] == ls[i]);
        }
        lemma_split_crlf_join(dl);
        let j = join(dl, "\r\n"@);
        assert(join(ls, "\r\n"@) =~= (j + seq!['\r']) + seq!['\n'] + ls.last());
        lemma_split_char_concat(j + seq!['\r'], ls.last(), '\n');
        assert(!ls[n - 1].contains('\n'));
        lemma_split_char_none(ls.last(), '\n');
        let jr = j + seq!['\r'];
        assert(jr.drop_last() =~= j);
        assert(jr.last() == '\r');
        lemma_split_char_nonempty(j, '\n');
        let q = split_char(j, '\n');
        assert(split_char(jr, '\n') == q.update(q.len() - 1, q.last().push('\r')));
        let whole = split_char(jr, '\n') + seq![ls.last()];
        assert forall|i: int| 0 <= i < n implies #[trigger] whole[i]
            == if i < n - 1 { ls[i].push('\r') } else { ls[i] } by {
            if i < n - 1 {
                assert(q[i] == if i < n - 2 { dl[i].push('\r') } else { dl[i] });
                assert(dl[i] == ls[i]);
            }
        }
    }
}

/// Text that neither starts nor ends with white space is its own trim.
pub proof fn lemma_trim_unchanged(s: Seq<char>)
    requires
        s.len() > 0 ==> !is_white_space(s[0]) && !is_white_space(s.last()),
    ensures
        trim(s) == s,
{
}

/// The first occurrence of a one-character pattern is its first index.
pub proof fn lemma_find_first_char(s: Seq<char>, c: char, k: int, from: int)
    requires
        0 <= from <= k < s.len(),
        s[k] == c,
        forall|j: int| from <= j < k ==> s[j] != c,
    ensures
        find_from(s, seq![c], from) == Some(k),
    decreases k - from,
{
    if from < k {
        assert(!occurs_at(s, seq![c], from)) by {
            assert(s.subrange(from, from + 1)[0] == s[from]);
        }
        lemma_find_first_char(s, c, k, from + 1);
    } else {
        assert(s.subrange(k, k + 1) =~= seq![c]);
    }
}

/// Uppercasing leaves ASCII text without lowercase letters unchanged.
pub proof fn lemma_uppercase_unchanged(s: Seq<char>)
    requires
        forall|i: int| 0 <= i < s.len() ==> (#[trigger] s[i] as u32) < 128 && !('a' <= s[i] && s[i] <= 'z'),
    ensures
        uppercase(s) == s,
{
    assert(all_ascii(s));
    assert(s.map_values(|c: char| ascii_upper(c)) =~= s);
}

} // verus!
