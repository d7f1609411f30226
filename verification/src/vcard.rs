//! vCard 3.0 contacts: reading a vCard into a contact and writing a contact
//! as a vCard.
use vstd::prelude::*;
use crate::text;
use crate::carddav::HimalayaError;

verus! {

broadcast use vstd::string::group_string_axioms;

// ── Contacts ────────────────────────────────────────────────────────────────

/// An e-mail address of a contact.
pub struct ContactEmail {
    pub email: String,
    pub email_type: Option<String>,
    pub primary: bool,
}

/// A telephone number of a contact.
pub struct ContactPhone {
    pub number: String,
    pub phone_type: Option<String>,
    pub primary: bool,
}

/// A postal address of a contact.
pub struct ContactAddress {
    pub address_type: Option<String>,
    pub street: Option<String>,
    pub city: Option<String>,
    pub state: Option<String>,
    pub postal_code: Option<String>,
    pub country: Option<String>,
    pub primary: bool,
}

/// A contact of a CardDAV address book.
pub struct Contact {
    pub id: String,
    pub full_name: String,
    pub given_name: Option<String>,
    pub family_name: Option<String>,
    pub nickname: Option<String>,
    pub emails: Vec<ContactEmail>,
    pub phones: Vec<ContactPhone>,
    pub addresses: Vec<ContactAddress>,
    pub organization: Option<String>,
    pub title: Option<String>,
    pub birthday: Option<String>,
    pub notes: Option<String>,
    pub photo_url: Option<String>,
    pub href: Option<String>,
    pub etag: Option<String>,
    pub raw_vcard: Option<String>,
}

/// An address book collection on a CardDAV server.
pub struct AddressBook {
    pub name: String,
    pub href: String,
    pub description: Option<String>,
    pub contact_count: Option<u32>,
}

/// An e-mail address or telephone number: its value, its type and whether it
/// is the preferred one.
pub struct EntryView {
    pub value: Seq<char>,
    pub kind: Option<Seq<char>>,
    pub primary: bool,
}

/// A postal address.
pub struct AddressView {
    pub kind: Option<Seq<char>>,
    pub street: Option<Seq<char>>,
    pub city: Option<Seq<char>>,
    pub state: Option<Seq<char>>,
    pub postal_code: Option<Seq<char>>,
    pub country: Option<Seq<char>>,
    pub primary: bool,
}

/// A contact.
pub struct ContactView {
    pub id: Seq<char>,
    pub full_name: Seq<char>,
    pub given_name: Option<Seq<char>>,
    pub family_name: Option<Seq<char>>,
    pub nickname: Option<Seq<char>>,
    pub emails: Seq<EntryView>,
    pub phones: Seq<EntryView>,
    pub addresses: Seq<AddressView>,
    pub organization: Option<Seq<char>>,
    pub title: Option<Seq<char>>,
    pub birthday: Option<Seq<char>>,
    pub notes: Option<Seq<char>>,
    pub photo_url: Option<Seq<char>>,
    pub href: Option<Seq<char>>,
    pub etag: Option<Seq<char>>,
    pub raw_vcard: Option<Seq<char>>,
}

impl View for ContactEmail {
    type V = EntryView;

    open spec fn view(&self) -> EntryView {
        EntryView { value: self.email@, kind: text::opt_view(self.email_type), primary: self.primary }
    }
}

impl View for ContactPhone {
    type V = EntryView;

    open spec fn view(&self) -> EntryView {
        EntryView { value: self.number@, kind: text::opt_view(self.phone_type), primary: self.primary }
    }
}

impl View for ContactAddress {
    type V = AddressView;

    open spec fn view(&self) -> AddressView {
        AddressView {
            kind: text::opt_view(self.address_type),
            street: text::opt_view(self.street),
            city: text::opt_view(self.city),
            state: text::opt_view(self.state),
            postal_code: text::opt_view(self.postal_code),
            country: text::opt_view(self.country),
            primary: self.primary,
        }
    }
}

impl View for Contact {
    type V = ContactView;

    open spec fn view(&self) -> ContactView {
        ContactView {
            id: self.id@,
            full_name: self.full_name@,
            given_name: text::opt_view(self.given_name),
            family_name: text::opt_view(self.family_name),
            nickname: text::opt_view(self.nickname),
            emails: self.emails@.map_values(|e: ContactEmail| e@),
            phones: self.phones@.map_values(|p: ContactPhone| p@),
            addresses: self.addresses@.map_values(|a: ContactAddress| a@),
            organization: text::opt_view(self.organization),
            title: text::opt_view(self.title),
            birthday: text::opt_view(self.birthday),
            notes: text::opt_view(self.notes),
            photo_url: text::opt_view(self.photo_url),
            href: text::opt_view(self.href),
            etag: text::opt_view(self.etag),
            raw_vcard: text::opt_view(self.raw_vcard),
        }
    }
}

/// The contact with no data.
pub open spec fn empty_contact() -> ContactView {
    ContactView {
        id: Seq::empty(),
        full_name: Seq::empty(),
        given_name: None,
        family_name: None,
        nickname: None,
        emails: Seq::empty(),
        phones: Seq::empty(),
        addresses: Seq::empty(),
        organization: None,
        title: None,
        birthday: None,
        notes: None,
        photo_url: None,
        href: None,
        etag: None,
        raw_vcard: None,
    }
}

impl Contact {
    /// A contact with no data.
    pub fn new() -> (c: Contact)
        ensures
            c@ == empty_contact(),
    {
        let c = Contact {
            id: String::new(),
            full_name: String::new(),
            given_name: None,
            family_name: None,
            nickname: None,
            emails: Vec::new(),
            phones: Vec::new(),
            addresses: Vec::new(),
            organization: None,
            title: None,
            birthday: None,
            notes: None,
            photo_url: None,
            href: None,
            etag: None,
            raw_vcard: None,
        };
        assert(c@.emails =~= Seq::<EntryView>::empty());
        assert(c@.phones =~= Seq::<EntryView>::empty());
        assert(c@.addresses =~= Seq::<AddressView>::empty());
        c
    }
}

// ── Escaping ────────────────────────────────────────────────────────────────

/// A vCard value with its escapes undone: `\n` and `\N` become newlines,
/// `\,` `\;` and `\\` their second character, in that order of replacement.
pub open spec fn decode_value(v: Seq<char>) -> Seq<char> {
    text::replace(
        text::replace(
            text::replace(
                text::replace(text::replace(v, "\\n"@, "\n"@), "\\N"@, "\n"@),
                "\\,"@,
                ","@,
            ),
            "\\;"@,
            ";"@,
        ),
        "\\\\"@,
        "\\"@,
    )
}

/// The escape of one character in a vCard value.
pub open spec fn escape_char(c: char) -> Seq<char> {
    if c == '\\' {
        seq!['\\', '\\']
    } else if c == ';' {
        seq!['\\', ';']
    } else if c == ',' {
        seq!['\\', ',']
    } else if c == '\n' {
        seq!['\\', 'n']
    } else {
        seq![c]
    }
}

/// A value escaped for a vCard: backslash, semicolon, comma and newline are
/// each written with a backslash.
pub open spec fn encode_value(v: Seq<char>) -> Seq<char>
    decreases v.len(),
{
    if v.len() == 0 {
        Seq::empty()
    } else {
        encode_value(v.drop_last()) + escape_char(v.last())
    }
}

// ── Escaping round trip ─────────────────────────────────────────────────────

/// Each character of `v` written as its token, in order.
pub open spec fn tokens_of(v: Seq<char>, tok: spec_fn(char) -> Seq<char>) -> Seq<char>
    decreases v.len(),
{
    if v.len() == 0 {
        Seq::empty()
    } else {
        tok(v[0]) + tokens_of(v.drop_first(), tok)
    }
}

proof fn lemma_tokens_push(v: Seq<char>, tok: spec_fn(char) -> Seq<char>)
    requires
        v.len() > 0,
    ensures
        tokens_of(v, tok) == tokens_of(v.drop_last(), tok) + tok(v.last()),
    decreases v.len(),
{
    if v.len() == 1 {
        assert(v.drop_last() =~= Seq::<char>::empty());
        assert(v.drop_first() =~= Seq::<char>::empty());
        assert(tokens_of(v.drop_first(), tok) == Seq::<char>::empty());
        assert(tokens_of(v.drop_last(), tok) == Seq::<char>::empty());
        assert(tokens_of(v, tok) =~= tok(v[0]));
    } else {
        lemma_tokens_push(v.drop_first(), tok);
        assert(v.drop_first().drop_last() =~= v.drop_last().drop_first());
        assert(v.drop_last()[0] == v[0]);
        assert(v.drop_first().last() == v.last());
        assert(tokens_of(v, tok) =~= tokens_of(v.drop_last(), tok) + tok(v.last()));
    }
}

proof fn lemma_encode_tokens(v: Seq<char>)
    ensures
        encode_value(v) == tokens_of(v, |c: char| escape_char(c)),
    decreases v.len(),
{
    if v.len() > 0 {
        lemma_encode_tokens(v.drop_last());
        lemma_tokens_push(v, |c: char| escape_char(c));
    }
}

/// One step of replacing: at `pos`, either the pattern occurs and is
/// replaced, or the character is kept.
proof fn lemma_replace_step(s: Seq<char>, f: Seq<char>, t: Seq<char>, pos: int)
    requires
        f.len() > 0,
        0 <= pos < s.len(),
    ensures
        text::replace_from(s, f, t, pos) == if text::occurs_at(s, f, pos) {
            t + text::replace_from(s, f, t, pos + f.len())
        } else {
            seq![s[pos]] + text::replace_from(s, f, t, pos + 1)
        },
{
    text::lemma_find_from_bounds(s, f, pos);
    text::lemma_find_from_bounds(s, f, pos + 1);
    if pos + f.len() > s.len() {
        assert(text::find_from(s, f, pos + 1) is None);
        assert(s.subrange(pos, s.len() as int) =~= seq![s[pos]] + s.subrange(pos + 1, s.len() as int));
    } else if text::occurs_at(s, f, pos) {
        assert(s.subrange(pos, pos) =~= Seq::<char>::empty());
        assert(text::replace_from(s, f, t, pos) =~= t + text::replace_from(s, f, t, pos + f.len()));
    } else {
        match text::find_from(s, f, pos + 1) {
            None => {
                assert(s.subrange(pos, s.len() as int) =~= seq![s[pos]] + s.subrange(pos + 1, s.len() as int));
            },
            Some(i) => {
                assert(s.subrange(pos, i) =~= seq![s[pos]] + s.subrange(pos + 1, i));
                assert(text::replace_from(s, f, t, pos) =~= seq![s[pos]] + text::replace_from(s, f, t, pos + 1));
            },
        }
    }
}

proof fn lemma_replace_end(s: Seq<char>, f: Seq<char>, t: Seq<char>)
    requires
        f.len() > 0,
    ensures
        text::replace_from(s, f, t, s.len() as int) == Seq::<char>::empty(),
{
    assert(s.subrange(s.len() as int, s.len() as int) =~= Seq::<char>::empty());
}

/// Replacing after a prefix is replacing in the rest.
proof fn lemma_replace_shift(p: Seq<char>, s: Seq<char>, f: Seq<char>, t: Seq<char>, k: int)
    requires
        f.len() > 0,
        0 <= k <= s.len(),
    ensures
        text::replace_from(p + s, f, t, p.len() + k) == text::replace_from(s, f, t, k),
    decreases s.len() - k,
{
    let ps = p + s;
    if k == s.len() {
        lemma_replace_end(ps, f, t);
        lemma_replace_end(s, f, t);
    } else {
        lemma_replace_step(ps, f, t, p.len() + k);
        lemma_replace_step(s, f, t, k);
        assert(ps[p.len() + k] == s[k]);
        if k + f.len() <= s.len() {
            assert(ps.subrange(p.len() + k, p.len() + k + f.len()) =~= s.subrange(k, k + f.len()));
        }
        assert(text::occurs_at(ps, f, p.len() + k) == text::occurs_at(s, f, k));
        if text::occurs_at(s, f, k) {
            lemma_replace_shift(p, s, f, t, k + f.len());
        } else {
            lemma_replace_shift(p, s, f, t, k + 1);
        }
    }
}

/// A token is a character other than a backslash, or a backslash and a
/// character other than a backslash.
pub open spec fn simple_token(x: Seq<char>) -> bool {
    ||| x.len() == 1 && x[0] != '\\'
    ||| x.len() == 2 && x[0] == '\\' && x[1] != '\\'
}

/// Replacing an escape (a backslash and another character) in text made of
/// simple tokens replaces exactly the tokens equal to it.
proof fn lemma_replace_tokens(v: Seq<char>, tok: spec_fn(char) -> Seq<char>, f: Seq<char>, t: Seq<char>, tok2: spec_fn(char) -> Seq<char>)
    requires
        f.len() == 2,
        f[0] == '\\',
        f[1] != '\\',
        forall|i: int| 0 <= i < v.len() ==> simple_token(#[trigger] tok(v[i])),
        forall|i: int| 0 <= i < v.len() ==> #[trigger] tok2(v[i]) == if tok(v[i]) == f { t } else { tok(v[i]) },
    ensures
        text::replace(tokens_of(v, tok), f, t) == tokens_of(v, tok2),
    decreases v.len(),
{
    let s = tokens_of(v, tok);
    if v.len() == 0 {
        lemma_replace_end(s, f, t);
    } else {
        let x = tok(v[0]);
        let rest = tokens_of(v.drop_first(), tok);
        assert(s == x + rest);
        assert(simple_token(x)) by {
            assert(tok(v[0]) == x);
        }
        assert forall|i: int| 0 <= i < v.drop_first().len() implies simple_token(#[trigger] tok(v.drop_first()[i])) by {
            assert(v.drop_first()[i] == v[i + 1]);
        }
        assert forall|i: int| 0 <= i < v.drop_first().len() implies #[trigger] tok2(v.drop_first()[i])
            == if tok(v.drop_first()[i]) == f { t } else { tok(v.drop_first()[i]) } by {
            assert(v.drop_first()[i] == v[i + 1]);
        }
        lemma_replace_tokens(v.drop_first(), tok, f, t, tok2);
        assert(tok2(v[0]) == if x == f { t } else { x });
        lemma_replace_shift(x, rest, f, t, 0);
        lemma_replace_step(s, f, t, 0);
        if x == f {
            assert(text::occurs_at(s, f, 0)) by {
                assert(s.subrange(0, 2) =~= f);
            }
        } else if x.len() == 1 {
            assert(!text::occurs_at(s, f, 0)) by {
                if 2 <= s.len() {
                    assert(s.subrange(0, 2)[0] == x[0]);
                }
            }
            assert(x =~= seq![s[0]]);
        } else {
            assert(!text::occurs_at(s, f, 0)) by {
                assert(s.subrange(0, 2)[1] == x[1]);
                assert(x[0] == f[0]);
                if s.subrange(0, 2) == f {
                    assert(x =~= f);
                }
            }
            lemma_replace_step(s, f, t, 1);
            assert(!text::occurs_at(s, f, 1)) by {
                if 3 <= s.len() {
                    assert(s.subrange(1, 3)[0] == x[1]);
                }
            }
            lemma_replace_shift(x, rest, f, t, 0);
            assert(x =~= seq![s[0]] + seq![s[1]]);
            assert(text::replace_from(s, f, t, 0) =~= x + text::replace_from(s, f, t, 2));
        }
        assert(tokens_of(v, tok2) == tok2(v[0]) + tokens_of(v.drop_first(), tok2));
    }
}

/// Characters as one-character tokens are the text itself.
proof fn lemma_tokens_identity(v: Seq<char>)
    ensures
        tokens_of(v, |c: char| seq![c]) == v,
    decreases v.len(),
{
    if v.len() > 0 {
        lemma_tokens_identity(v.drop_first());
        assert(v =~= seq![v[0]] + v.drop_first());
    }
}

/// Decoding undoes encoding for every value without a backslash: what is
/// written into a vCard reads back unchanged.
pub proof fn law_value_roundtrip(v: Seq<char>)
    requires
        !v.contains('\\'),
    ensures
        decode_value(encode_value(v)) == v,
{
    reveal_strlit("\\n");
    reveal_strlit("\n");
    reveal_strlit("\\N");
    reveal_strlit("\\,");
    reveal_strlit(",");
    reveal_strlit("\\;");
    reveal_strlit(";");
    reveal_strlit("\\\\");
    reveal_strlit("\\");
    assert forall|i: int| 0 <= i < v.len() implies v[i] != '\\' by {
        if v[i] == '\\' {
            assert(v.contains(v[i]));
        }
    }
    assert("\\n"@ =~= seq!['\\', 'n']);
    assert("\n"@ =~= seq!['\n']);
    assert("\\N"@ =~= seq!['\\', 'N']);
    assert("\\,"@ =~= seq!['\\', ',']);
    assert(","@ =~= seq![',']);
    assert("\\;"@ =~= seq!['\\', ';']);
    assert(";"@ =~= seq![';']);
    assert("\\\\"@ =~= seq!['\\', '\\']);
    let t0 = |c: char| escape_char(c);
    let t1 = |c: char| if t0(c) == seq!['\\', 'n'] { seq!['\n'] } else { t0(c) };
    let t2 = |c: char| if t1(c) == seq!['\\', 'N'] { seq!['\n'] } else { t1(c) };
    let t3 = |c: char| if t2(c) == seq!['\\', ','] { seq![','] } else { t2(c) };
    let t4 = |c: char| if t3(c) == seq!['\\', ';'] { seq![';'] } else { t3(c) };
    lemma_encode_tokens(v);
    assert forall|i: int| 0 <= i < v.len() implies simple_token(#[trigger] t0(v[i])) by {}
    lemma_replace_tokens(v, t0, seq!['\\', 'n'], seq!['\n'], t1);
    assert forall|i: int| 0 <= i < v.len() implies simple_token(#[trigger] t1(v[i])) by {}
    lemma_replace_tokens(v, t1, seq!['\\', 'N'], seq!['\n'], t2);
    assert forall|i: int| 0 <= i < v.len() implies simple_token(#[trigger] t2(v[i])) by {}
    lemma_replace_tokens(v, t2, seq!['\\', ','], seq![','], t3);
    assert forall|i: int| 0 <= i < v.len() implies simple_token(#[trigger] t3(v[i])) by {}
    lemma_replace_tokens(v, t3, seq!['\\', ';'], seq![';'], t4);
    assert forall|i: int| 0 <= i < v.len() implies #[trigger] t4(v[i]) == seq![v[i]] by {
        let c = v[i];
        assert(c != '\\');
        if c == '\n' {
            assert(t0(c) == seq!['\\', 'n']);
            assert(t1(c) =~= seq!['\n']);
        } else if c == ';' {
            assert(t3(c) =~= seq!['\\', ';']);
        } else if c == ',' {
            assert(t2(c) =~= seq!['\\', ',']);
        } else {
            assert(t0(c) =~= seq![c]);
        }
    }
    lemma_tokens_congruent(v, t4, |c: char| seq![c]);
    lemma_tokens_identity(v);
    lemma_find_absent(v, "\\\\"@, 0);
    assert(v.subrange(0, v.len() as int) =~= v);
}

/// A pattern whose first character does not occur is not found.
pub proof fn lemma_find_absent(s: Seq<char>, f: Seq<char>, from: int)
    requires
        f.len() > 0,
        forall|i: int| 0 <= i < s.len() ==> s[i] != f[0],
    ensures
        text::find_from(s, f, from) is None,
    decreases s.len() + 1 - from,
{
    if !(from < 0 || from > s.len() || from + f.len() > s.len()) {
        assert(s.subrange(from, from + f.len())[0] == s[from]);
        lemma_find_absent(s, f, from + 1);
    }
}

/// Tokens that agree on the characters of `v` give the same text.
proof fn lemma_tokens_congruent(v: Seq<char>, a: spec_fn(char) -> Seq<char>, b: spec_fn(char) -> Seq<char>)
    requires
        forall|i: int| 0 <= i < v.len() ==> a(v[i]) == b(v[i]),
    ensures
        tokens_of(v, a) == tokens_of(v, b),
    decreases v.len(),
{
    if v.len() > 0 {
        assert forall|i: int| 0 <= i < v.drop_first().len() implies a(v.drop_first()[i]) == b(v.drop_first()[i]) by {
            assert(v.drop_first()[i] == v[i + 1]);
        }
        lemma_tokens_congruent(v.drop_first(), a, b);
        assert(a(v[0]) == b(v[0]));
    }
}

/// Undoes the escapes of a vCard value.
pub fn decode_vcard_value(value: &[char]) -> (r: Vec<char>)
    ensures
        r@ == decode_value(value@),
{
    proof {
        reveal_strlit("\\n");
        reveal_strlit("\\N");
        reveal_strlit("\\,");
        reveal_strlit("\\;");
        reveal_strlit("\\\\");
    }
    let nl = text::str_chars("\n");
    let a = text::replace_exec(value, text::str_chars("\\n").as_slice(), nl.as_slice());
    let b = text::replace_exec(a.as_slice(), text::str_chars("\\N").as_slice(), nl.as_slice());
    let c = text::replace_exec(b.as_slice(), text::str_chars("\\,").as_slice(), text::str_chars(",").as_slice());
    let d = text::replace_exec(c.as_slice(), text::str_chars("\\;").as_slice(), text::str_chars(";").as_slice());
    text::replace_exec(d.as_slice(), text::str_chars("\\\\").as_slice(), text::str_chars("\\").as_slice())
}

/// Escapes a value for a vCard.
pub fn encode_vcard_value(value: &[char]) -> (r: Vec<char>)
    ensures
        r@ == encode_value(value@),
{
    let mut r: Vec<char> = Vec::new();
    let mut i: usize = 0;
    while i < value.len()
        invariant
            i <= value@.len(),
            r@ == encode_value(value@.take(i as int)),
        decreases value@.len() - i,
    {
        assert(value@.take(i + 1).drop_last() =~= value@.take(i as int));
        assert(value@.take(i + 1).last() == value@[i as int]);
        let c = value[i];
        if c == '\\' || c == ';' || c == ',' {
            r.push('\\');
            r.push(c);
        } else if c == '\n' {
            r.push('\\');
            r.push('n');
        } else {
            r.push(c);
        }
        assert(r@ =~= encode_value(value@.take(i + 1)));
        i += 1;
    }
    assert(value@.take(value@.len() as int) =~= value@);
    r
}


// ── Reading a vCard ─────────────────────────────────────────────────────────

/// The key of a property parameter: the uppercased text before `=`, or
/// `TYPE` for a parameter without `=` (the `TYPE` shorthand).
pub open spec fn param_key(p: Seq<char>) -> Seq<char> {
    match text::find(p, "="@) {
        Some(k) => text::uppercase(p.take(k)),
        None => "TYPE"@,
    }
}

/// The value of a property parameter: the text after `=`, or the whole
/// parameter for the `TYPE` shorthand.
pub open spec fn param_value(p: Seq<char>) -> Seq<char> {
    match text::find(p, "="@) {
        Some(k) => p.skip(k + 1),
        None => p,
    }
}

/// The value of the last parameter with the given key.
pub open spec fn param_lookup(params: Seq<Seq<char>>, key: Seq<char>) -> Option<Seq<char>>
    decreases params.len(),
{
    if params.len() == 0 {
        None
    } else if param_key(params.last()) == key {
        Some(param_value(params.last()))
    } else {
        param_lookup(params.drop_last(), key)
    }
}

/// Whether the entry is marked preferred: a `PREF` parameter, or a type
/// that contains `PREF` in any case.
pub open spec fn is_preferred(params: Seq<Seq<char>>) -> bool {
    ||| param_lookup(params, "PREF"@) is Some
    ||| (param_lookup(params, "TYPE"@) matches Some(t) && text::contains(text::uppercase(t), "PREF"@))
}

/// A type with its `PREF` marks taken out.
pub open spec fn clean_type(t: Seq<char>) -> Seq<char> {
    text::replace(text::replace(text::replace(t, "PREF,"@, ""@), ",PREF"@, ""@), "PREF"@, ""@)
}

/// The type of an entry: the `TYPE` parameter without its `PREF` marks.
pub open spec fn entry_kind(params: Seq<Seq<char>>) -> Option<Seq<char>> {
    match param_lookup(params, "TYPE"@) {
        Some(t) => Some(clean_type(t)),
        None => None,
    }
}

/// The decoded component `i` of a structured value, if present and not empty.
pub open spec fn component(comps: Seq<Seq<char>>, i: int) -> Option<Seq<char>> {
    if i < comps.len() && comps[i].len() > 0 {
        Some(decode_value(comps[i]))
    } else {
        None
    }
}

/// The contact after one property with the given (uppercased) name,
/// parameters and value.
pub open spec fn apply_property(c: ContactView, name: Seq<char>, params: Seq<Seq<char>>, value: Seq<char>) -> ContactView {
    let comps = text::split_char(value, ';');
    if name == "UID"@ {
        ContactView { id: value, ..c }
    } else if name == "FN"@ {
        ContactView { full_name: decode_value(value), ..c }
    } else if name == "N"@ {
        ContactView {
            family_name: if comps[0].len() > 0 { Some(decode_value(comps[0])) } else { c.family_name },
            given_name: if comps.len() > 1 && comps[1].len() > 0 { Some(decode_value(comps[1])) } else { c.given_name },
            ..c
        }
    } else if name == "NICKNAME"@ {
        ContactView { nickname: Some(decode_value(value)), ..c }
    } else if name == "EMAIL"@ {
        ContactView {
            emails: c.emails.push(EntryView { value: decode_value(value), kind: entry_kind(params), primary: is_preferred(params) }),
            ..c
        }
    } else if name == "TEL"@ {
        ContactView {
            phones: c.phones.push(EntryView { value: decode_value(value), kind: entry_kind(params), primary: is_preferred(params) }),
            ..c
        }
    } else if name == "ADR"@ {
        ContactView {
            addresses: c.addresses.push(AddressView {
                kind: entry_kind(params),
                street: component(comps, 2),
                city: component(comps, 3),
                state: component(comps, 4),
                postal_code: component(comps, 5),
                country: component(comps, 6),
                primary: is_preferred(params),
            }),
            ..c
        }
    } else if name == "ORG"@ {
        ContactView { organization: Some(decode_value(comps[0])), ..c }
    } else if name == "TITLE"@ {
        ContactView { title: Some(decode_value(value)), ..c }
    } else if name == "BDAY"@ {
        ContactView { birthday: Some(value), ..c }
    } else if name == "NOTE"@ {
        ContactView { notes: Some(decode_value(value)), ..c }
    } else if name == "PHOTO"@ && text::starts_with(value, "http"@) {
        ContactView { photo_url: Some(value), ..c }
    } else {
        c
    }
}

/// The contact after one (trimmed) line: a line with a `:` is a property
/// whose name and `;`-separated parameters come before the first `:` and
/// whose value comes after it; other lines change nothing.
pub open spec fn apply_line(c: ContactView, t: Seq<char>) -> ContactView {
    match text::find(t, ":"@) {
        None => c,
        Some(k) => {
            let parts = text::split_char(t.take(k), ';');
            apply_property(c, text::uppercase(parts[0]), parts.skip(1), t.skip(k + 1))
        },
    }
}

/// The contact read from a sequence of lines, each trimmed.
pub open spec fn read_lines(lines: Seq<Seq<char>>) -> ContactView
    decreases lines.len(),
{
    if lines.len() == 0 {
        empty_contact()
    } else {
        apply_line(read_lines(lines.drop_last()), text::trim(lines.last()))
    }
}

/// A folded line: one that continues the line before it (it starts with a
/// space or a tab).
pub open spec fn is_folded(l: Seq<char>) -> bool {
    l.len() > 0 && (l[0] == ' ' || l[0] == '\t')
}

/// The lines of a vCard unfolded: each line trimmed, with the trimmed text
/// of the folded lines after it joined to its end; a folded line with no
/// line before it is dropped.
pub open spec fn unfold(ls: Seq<Seq<char>>) -> Seq<Seq<char>>
    decreases ls.len(),
{
    if ls.len() == 0 {
        Seq::empty()
    } else {
        let u = unfold(ls.drop_last());
        let l = ls.last();
        if is_folded(l) {
            if u.len() > 0 {
                u.update(u.len() - 1, u.last() + text::trim(l))
            } else {
                u
            }
        } else {
            u.push(text::trim(l))
        }
    }
}

/// The contact a vCard describes, before an identifier is chosen for a card
/// without `UID`: its lines, unfolded, read in order.
pub open spec fn read_vcard(vcard: Seq<char>) -> ContactView {
    read_lines(unfold(text::lines(vcard)))
}

/// The lines unfolded (see [`unfold`]).
fn unfold_exec(ls: &Vec<Vec<char>>) -> (r: Vec<Vec<char>>)
    ensures
        text::seqs_of(r@) == unfold(text::seqs_of(ls@)),
{
    let ghost lv = text::seqs_of(ls@);
    let mut r: Vec<Vec<char>> = Vec::new();
    let mut i: usize = 0;
    assert(lv.take(0) =~= Seq::<Seq<char>>::empty());
    while i < ls.len()
        invariant
            i <= ls@.len(),
            lv == text::seqs_of(ls@),
            text::seqs_of(r@) == unfold(lv.take(i as int)),
        decreases ls@.len() - i,
    {
        assert(lv.take(i + 1).drop_last() =~= lv.take(i as int));
        assert(lv.take(i + 1).last() == ls@[i as int]@);
        let l = &ls[i];
        let t = text::trim_chars(l.as_slice());
        let folded = l.len() > 0 && (l[0] == ' ' || l[0] == '\t');
        let ghost r0 = text::seqs_of(r@);
        if folded {
            if r.len() > 0 {
                let k = r.len() - 1;
                let mut last = text::copy_chars(&r[k]);
                text::append_chars(&mut last, t.as_slice());
                let ghost lw = last@;
                r.set(k, last);
                assert(text::seqs_of(r@) =~= r0.update(k as int, lw));
            }
        } else {
            r.push(t);
            assert(text::seqs_of(r@) =~= r0.push(t@));
        }
        i += 1;
    }
    assert(lv.take(ls@.len() as int) =~= lv);
    r
}


/// Whether `v` holds exactly the characters of `lit`.
fn is_literal(v: &[char], lit: &str) -> (r: bool)
    ensures
        r == (v@ == lit@),
{
    let l = text::str_chars(lit);
    text::chars_eq(v, l.as_slice())
}

/// The key of a parameter.
fn param_key_exec(p: &[char]) -> (r: Vec<char>)
    ensures
        r@ == param_key(p@),
{
    let eq = text::str_chars("=");
    match text::find_chars(p, eq.as_slice()) {
        Some(k) => {
            proof { text::lemma_find_from_bounds(p@, "="@, 0); }
            let head = text::slice_to_vec(p, 0, k);
            assert(head@ =~= p@.take(k as int));
            text::upper_chars(head.as_slice())
        },
        None => text::str_chars("TYPE"),
    }
}

/// The value of a parameter.
fn param_value_exec(p: &[char]) -> (r: Vec<char>)
    ensures
        r@ == param_value(p@),
{
    let eq = text::str_chars("=");
    match text::find_chars(p, eq.as_slice()) {
        Some(k) => {
            proof {
                text::lemma_find_from_bounds(p@, "="@, 0);
                reveal_strlit("=");
                assert(text::occurs_at(p@, "="@, k as int));
                assert(k + 1 <= p@.len());
                assert(p@.len() == p.len());
            }
            let tail = text::slice_to_vec(p, k + 1, p.len());
            assert(tail@ =~= p@.skip(k + 1));
            tail
        },
        None => text::slice_to_vec(p, 0, p.len()),
    }
}

/// The value of the last parameter with key `key`.
fn param_lookup_exec(params: &Vec<Vec<char>>, key: &str) -> (r: Option<Vec<char>>)
    ensures
        match r {
            Some(v) => param_lookup(text::seqs_of(params@), key@) == Some(v@),
            None => param_lookup(text::seqs_of(params@), key@) is None,
        },
{
    let ghost ps = text::seqs_of(params@);
    let kc = text::str_chars(key);
    let mut i: usize = params.len();
    assert(ps.take(i as int) =~= ps);
    while i > 0
        invariant
            i <= params@.len(),
            ps == text::seqs_of(params@),
            kc@ == key@,
            param_lookup(ps, key@) == param_lookup(ps.take(i as int), key@),
        decreases i,
    {
        let ghost t = ps.take(i as int);
        assert(t.drop_last() =~= ps.take(i - 1));
        assert(t.last() == params@[i - 1]@);
        let k = param_key_exec(params[i - 1].as_slice());
        if text::chars_eq(k.as_slice(), kc.as_slice()) {
            return Some(param_value_exec(params[i - 1].as_slice()));
        }
        i -= 1;
    }
    assert(ps.take(0) =~= Seq::<Seq<char>>::empty());
    None
}

/// Whether the parameters mark the entry preferred.
fn is_preferred_exec(params: &Vec<Vec<char>>) -> (r: bool)
    ensures
        r == is_preferred(text::seqs_of(params@)),
{
    if param_lookup_exec(params, "PREF").is_some() {
        return true;
    }
    match param_lookup_exec(params, "TYPE") {
        Some(t) => {
            let u = text::upper_chars(t.as_slice());
            let pref = text::str_chars("PREF");
            text::contains_chars(u.as_slice(), pref.as_slice())
        },
        None => false,
    }
}

/// The type of an entry.
fn entry_kind_exec(params: &Vec<Vec<char>>) -> (r: Option<String>)
    ensures
        text::opt_view(r) == entry_kind(text::seqs_of(params@)),
{
    match param_lookup_exec(params, "TYPE") {
        Some(t) => {
            proof {
                reveal_strlit("PREF,");
                reveal_strlit(",PREF");
                reveal_strlit("PREF");
            }
            let empty: Vec<char> = Vec::new();
            let a = text::replace_exec(t.as_slice(), text::str_chars("PREF,").as_slice(), empty.as_slice());
            let b = text::replace_exec(a.as_slice(), text::str_chars(",PREF").as_slice(), empty.as_slice());
            let c = text::replace_exec(b.as_slice(), text::str_chars("PREF").as_slice(), empty.as_slice());
            proof {
                reveal_strlit("");
                assert(empty@ =~= ""@);
            }
            Some(text::chars_to_string(c.as_slice()))
        },
        None => None,
    }
}

/// The decoded component `i` of a structured value.
fn component_exec(comps: &Vec<Vec<char>>, i: usize) -> (r: Option<String>)
    ensures
        text::opt_view(r) == component(text::seqs_of(comps@), i as int),
{
    if i < comps.len() && comps[i].len() > 0 {
        let d = decode_vcard_value(comps[i].as_slice());
        Some(text::chars_to_string(d.as_slice()))
    } else {
        None
    }
}

/// The decoded text as a `String`.
fn decoded(v: &[char]) -> (r: String)
    ensures
        r@ == decode_value(v@),
{
    let d = decode_vcard_value(v);
    text::chars_to_string(d.as_slice())
}


/// The elements of `v` after the first.
fn tail_of(v: &Vec<Vec<char>>) -> (r: Vec<Vec<char>>)
    requires
        v@.len() >= 1,
    ensures
        text::seqs_of(r@) == text::seqs_of(v@).skip(1),
{
    let mut r: Vec<Vec<char>> = Vec::new();
    let mut i: usize = 1;
    while i < v.len()
        invariant
            1 <= i <= v@.len(),
            text::seqs_of(r@) == text::seqs_of(v@).subrange(1, i as int),
        decreases v@.len() - i,
    {
        let ghost r0 = r@;
        let x = text::copy_chars(&v[i]);
        r.push(x);
        proof { text::lemma_seqs_of_push(r0, x); }
        assert(text::seqs_of(v@).subrange(1, i + 1) =~= text::seqs_of(v@).subrange(1, i as int).push(v@[i as int]@));
        i += 1;
    }
    assert(text::seqs_of(v@).subrange(1, v@.len() as int) =~= text::seqs_of(v@).skip(1));
    r
}

/// Applies one property to the contact.
fn apply_property_exec(c: &mut Contact, name: &[char], params: &Vec<Vec<char>>, value: &[char])
    ensures
        final(c)@ == apply_property(old(c)@, name@, text::seqs_of(params@), value@),
{
    let comps = text::split_char_exec(value, ';');
    proof { text::lemma_split_char_nonempty(value@, ';'); }
    let ghost cv = text::seqs_of(comps@);
    assert(cv[0] == comps@[0]@);
    if is_literal(name, "UID") {
        c.id = text::chars_to_string(value);
    } else if is_literal(name, "FN") {
        c.full_name = decoded(value);
    } else if is_literal(name, "N") {
        if comps[0].len() > 0 {
            c.family_name = Some(decoded(comps[0].as_slice()));
        }
        if comps.len() > 1 && comps[1].len() > 0 {
            assert(cv[1] == comps@[1]@);
            c.given_name = Some(decoded(comps[1].as_slice()));
        }
    } else if is_literal(name, "NICKNAME") {
        c.nickname = Some(decoded(value));
    } else if is_literal(name, "EMAIL") {
        let e = ContactEmail {
            email: decoded(value),
            email_type: entry_kind_exec(params),
            primary: is_preferred_exec(params),
        };
        let ghost ev = e@;
        let ghost before = c.emails@;
        c.emails.push(e);
        assert(c.emails@.map_values(|e: ContactEmail| e@) =~= before.map_values(|e: ContactEmail| e@).push(ev));
    } else if is_literal(name, "TEL") {
        let e = ContactPhone {
            number: decoded(value),
            phone_type: entry_kind_exec(params),
            primary: is_preferred_exec(params),
        };
        let ghost ev = e@;
        let ghost before = c.phones@;
        c.phones.push(e);
        assert(c.phones@.map_values(|p: ContactPhone| p@) =~= before.map_values(|p: ContactPhone| p@).push(ev));
    } else if is_literal(name, "ADR") {
        let a = ContactAddress {
            address_type: entry_kind_exec(params),
            street: component_exec(&comps, 2),
            city: component_exec(&comps, 3),
            state: component_exec(&comps, 4),
            postal_code: component_exec(&comps, 5),
            country: component_exec(&comps, 6),
            primary: is_preferred_exec(params),
        };
        let ghost av = a@;
        let ghost before = c.addresses@;
        c.addresses.push(a);
        assert(c.addresses@.map_values(|a: ContactAddress| a@) =~= before.map_values(|a: ContactAddress| a@).push(av));
    } else if is_literal(name, "ORG") {
        c.organization = Some(decoded(comps[0].as_slice()));
    } else if is_literal(name, "TITLE") {
        c.title = Some(decoded(value));
    } else if is_literal(name, "BDAY") {
        c.birthday = Some(text::chars_to_string(value));
    } else if is_literal(name, "NOTE") {
        c.notes = Some(decoded(value));
    } else if is_literal(name, "PHOTO") {
        let http = text::str_chars("http");
        if text::starts_with_chars(value, http.as_slice()) {
            c.photo_url = Some(text::chars_to_string(value));
        }
    }
}

/// Applies one trimmed line to the contact.
fn apply_line_exec(c: &mut Contact, t: &[char])
    ensures
        final(c)@ == apply_line(old(c)@, t@),
{
    let colon = text::str_chars(":");
    let k = match text::find_chars(t, colon.as_slice()) {
        None => {
            return;
        },
        Some(k) => k,
    };
    proof {
        text::lemma_find_from_bounds(t@, ":"@, 0);
        reveal_strlit(":");
        assert(text::occurs_at(t@, ":"@, k as int));
        assert(t@.len() == t.len());
    }
    let head = text::slice_to_vec(t, 0, k);
    let value = text::slice_to_vec(t, k + 1, t.len());
    assert(head@ =~= t@.take(k as int));
    assert(value@ =~= t@.skip(k + 1));
    let parts = text::split_char_exec(head.as_slice(), ';');
    proof { text::lemma_split_char_nonempty(head@, ';'); }
    let name = text::upper_chars(parts[0].as_slice());
    let params = tail_of(&parts);
    apply_property_exec(c, name.as_slice(), &params, value.as_slice());
}

/// Reads the fields of a vCard: each line, trimmed, applied in order.
pub fn read_vcard_fields(vcard: &str) -> (c: Contact)
    ensures
        c@ == read_vcard(vcard@),
{
    let chars = text::str_chars(vcard);
    let raw = text::lines_exec(chars.as_slice());
    let ls = unfold_exec(&raw);
    let ghost lv = text::seqs_of(ls@);
    let mut c = Contact::new();
    let mut i: usize = 0;
    assert(lv.take(0) =~= Seq::<Seq<char>>::empty());
    while i < ls.len()
        invariant
            i <= ls@.len(),
            lv == text::seqs_of(ls@),
            lv == unfold(text::lines(vcard@)),
            c@ == read_lines(lv.take(i as int)),
        decreases ls@.len() - i,
    {
        assert(lv.take(i + 1).drop_last() =~= lv.take(i as int));
        assert(lv.take(i + 1).last() == ls@[i as int]@);
        let t = text::trim_chars(ls[i].as_slice());
        apply_line_exec(&mut c, t.as_slice());
        i += 1;
    }
    assert(lv.take(ls@.len() as int) =~= lv);
    c
}


// ── Writing a vCard ─────────────────────────────────────────────────────────

/// `;TYPE=` and the type, when there is one.
pub open spec fn type_part(t: Option<Seq<char>>) -> Seq<char> {
    match t {
        Some(t) => ";TYPE="@ + t,
        None => Seq::empty(),
    }
}

/// `;PREF` for a preferred entry.
pub open spec fn pref_part(primary: bool) -> Seq<char> {
    if primary {
        ";PREF"@
    } else {
        Seq::empty()
    }
}

/// The line of an e-mail address or telephone number (its value unescaped).
pub open spec fn entry_line(name: Seq<char>, e: EntryView) -> Seq<char> {
    name + type_part(e.kind) + pref_part(e.primary) + ":"@ + e.value
}

/// An optional value escaped, or nothing.
pub open spec fn encode_opt(o: Option<Seq<char>>) -> Seq<char> {
    match o {
        Some(v) => encode_value(v),
        None => Seq::empty(),
    }
}

/// An optional value as it is, or nothing.
pub open spec fn raw_opt(o: Option<Seq<char>>) -> Seq<char> {
    match o {
        Some(v) => v,
        None => Seq::empty(),
    }
}

/// The line of a postal address: empty post-office box and extended
/// address, then street, city, region, postal code (unescaped) and country.
pub open spec fn address_line(a: AddressView) -> Seq<char> {
    "ADR"@ + type_part(a.kind) + pref_part(a.primary) + ":;;"@ + encode_opt(a.street) + ";"@
        + encode_opt(a.city) + ";"@ + encode_opt(a.state) + ";"@ + raw_opt(a.postal_code) + ";"@
        + encode_opt(a.country)
}

/// A line for an optional value, escaped or not.
pub open spec fn optional_line(prefix: Seq<char>, o: Option<Seq<char>>, escaped: bool) -> Seq<Seq<char>> {
    match o {
        Some(v) => seq![prefix + if escaped { encode_value(v) } else { v }],
        None => Seq::empty(),
    }
}

/// The head of a vCard: version, identifier, formatted name and name.
pub open spec fn head_lines(c: ContactView) -> Seq<Seq<char>> {
    seq![
        "BEGIN:VCARD"@,
        "VERSION:3.0"@,
        "UID:"@ + c.id,
        "FN:"@ + encode_value(c.full_name),
        "N:"@ + encode_opt(c.family_name) + ";"@ + encode_opt(c.given_name) + ";;;"@,
    ]
}

/// The lines of the vCard of a contact.
pub open spec fn vcard_lines(c: ContactView) -> Seq<Seq<char>> {
    head_lines(c)
        + optional_line("NICKNAME:"@, c.nickname, true)
        + c.emails.map_values(|e: EntryView| entry_line("EMAIL"@, e))
        + c.phones.map_values(|e: EntryView| entry_line("TEL"@, e))
        + c.addresses.map_values(|a: AddressView| address_line(a))
        + optional_line("ORG:"@, c.organization, true)
        + optional_line("TITLE:"@, c.title, true)
        + optional_line("BDAY:"@, c.birthday, false)
        + optional_line("NOTE:"@, c.notes, true)
        + seq!["END:VCARD"@]
}

/// The vCard of a contact: its lines joined with CRLF.
pub open spec fn write_vcard(c: ContactView) -> Seq<char> {
    text::join(vcard_lines(c), "\r\n"@)
}

/// `a` followed by `b`.
fn cat(a: &[char], b: &[char]) -> (r: Vec<char>)
    ensures
        r@ == a@ + b@,
{
    let mut r = text::slice_to_vec(a, 0, a.len());
    assert(r@ =~= a@);
    text::append_chars(&mut r, b);
    r
}

/// The characters of a string literal followed by `b`.
fn lit_cat(a: &str, b: &[char]) -> (r: Vec<char>)
    ensures
        r@ == a@ + b@,
{
    let av = text::str_chars(a);
    cat(av.as_slice(), b)
}

/// Escapes a `String`.
fn encoded(s: &String) -> (r: Vec<char>)
    ensures
        r@ == encode_value(s@),
{
    let v = text::string_chars(s);
    encode_vcard_value(v.as_slice())
}

/// Escapes an optional string, or gives nothing.
fn encoded_opt(o: &Option<String>) -> (r: Vec<char>)
    ensures
        r@ == encode_opt(text::opt_view(*o)),
{
    match o {
        Some(s) => encoded(s),
        None => Vec::new(),
    }
}

/// An optional string as it is, or nothing.
fn raw_opt_exec(o: &Option<String>) -> (r: Vec<char>)
    ensures
        r@ == raw_opt(text::opt_view(*o)),
{
    match o {
        Some(s) => text::string_chars(s),
        None => Vec::new(),
    }
}

/// The type and preference parameters of an entry.
fn params_text(kind: &Option<String>, primary: bool) -> (r: Vec<char>)
    ensures
        r@ == type_part(text::opt_view(*kind)) + pref_part(primary),
{
    let mut r: Vec<char> = Vec::new();
    match kind {
        Some(t) => {
            let tv = text::string_chars(t);
            r = lit_cat(";TYPE=", tv.as_slice());
        },
        None => {},
    }
    if primary {
        let p = text::str_chars(";PREF");
        text::append_chars(&mut r, p.as_slice());
    }
    assert(r@ =~= type_part(text::opt_view(*kind)) + pref_part(primary));
    r
}

/// The line of an entry.
fn entry_line_exec(name: &str, value: &String, kind: &Option<String>, primary: bool) -> (r: Vec<char>)
    ensures
        r@ == entry_line(name@, EntryView { value: value@, kind: text::opt_view(*kind), primary }),
{
    let mut r = text::str_chars(name);
    let p = params_text(kind, primary);
    text::append_chars(&mut r, p.as_slice());
    let colon = text::str_chars(":");
    text::append_chars(&mut r, colon.as_slice());
    let v = text::string_chars(value);
    text::append_chars(&mut r, v.as_slice());
    assert(r@ =~= entry_line(name@, EntryView { value: value@, kind: text::opt_view(*kind), primary }));
    r
}

/// The line of a postal address.
fn address_line_exec(a: &ContactAddress) -> (r: Vec<char>)
    ensures
        r@ == address_line(a@),
{
    let mut r = text::str_chars("ADR");
    let p = params_text(&a.address_type, a.primary);
    text::append_chars(&mut r, p.as_slice());
    let head = text::str_chars(":;;");
    text::append_chars(&mut r, head.as_slice());
    let semi = text::str_chars(";");
    let street = encoded_opt(&a.street);
    text::append_chars(&mut r, street.as_slice());
    text::append_chars(&mut r, semi.as_slice());
    let city = encoded_opt(&a.city);
    text::append_chars(&mut r, city.as_slice());
    text::append_chars(&mut r, semi.as_slice());
    let state = encoded_opt(&a.state);
    text::append_chars(&mut r, state.as_slice());
    text::append_chars(&mut r, semi.as_slice());
    let postal = raw_opt_exec(&a.postal_code);
    text::append_chars(&mut r, postal.as_slice());
    text::append_chars(&mut r, semi.as_slice());
    let country = encoded_opt(&a.country);
    text::append_chars(&mut r, country.as_slice());
    assert(r@ =~= address_line(a@));
    r
}

/// Appends the line for an optional value.
fn push_optional_line(lines: &mut Vec<Vec<char>>, prefix: &str, o: &Option<String>, escaped: bool)
    ensures
        text::seqs_of(final(lines)@) == text::seqs_of(old(lines)@) + optional_line(prefix@, text::opt_view(*o), escaped),
{
    match o {
        Some(v) => {
            let body = if escaped { encoded(v) } else { text::string_chars(v) };
            let line = lit_cat(prefix, body.as_slice());
            let ghost l0 = lines@;
            lines.push(line);
            proof { text::lemma_seqs_of_push(l0, line); }
            assert(text::seqs_of(lines@) =~= text::seqs_of(l0) + optional_line(prefix@, text::opt_view(*o), escaped));
        },
        None => {
            assert(text::seqs_of(lines@) =~= text::seqs_of(lines@) + optional_line(prefix@, text::opt_view(*o), escaped));
        },
    }
}


/// Appends one line.
fn push_line(lines: &mut Vec<Vec<char>>, line: Vec<char>)
    ensures
        text::seqs_of(final(lines)@) == text::seqs_of(old(lines)@).push(line@),
{
    let ghost l0 = lines@;
    lines.push(line);
    proof { text::lemma_seqs_of_push(l0, line); }
}

/// The head lines of a contact's vCard.
fn head_lines_exec(c: &Contact) -> (r: Vec<Vec<char>>)
    ensures
        text::seqs_of(r@) == head_lines(c@),
{
    let mut lines: Vec<Vec<char>> = Vec::new();
    push_line(&mut lines, text::str_chars("BEGIN:VCARD"));
    push_line(&mut lines, text::str_chars("VERSION:3.0"));
    let id = text::string_chars(&c.id);
    push_line(&mut lines, lit_cat("UID:", id.as_slice()));
    let fname = encoded(&c.full_name);
    push_line(&mut lines, lit_cat("FN:", fname.as_slice()));
    let mut n = lit_cat("N:", encoded_opt(&c.family_name).as_slice());
    let semi = text::str_chars(";");
    text::append_chars(&mut n, semi.as_slice());
    let given = encoded_opt(&c.given_name);
    text::append_chars(&mut n, given.as_slice());
    let tail = text::str_chars(";;;");
    text::append_chars(&mut n, tail.as_slice());
    push_line(&mut lines, n);
    assert(text::seqs_of(lines@) =~= head_lines(c@));
    lines
}

/// Appends the lines of the contact's e-mail addresses.
fn push_email_lines(lines: &mut Vec<Vec<char>>, c: &Contact)
    ensures
        text::seqs_of(final(lines)@) == text::seqs_of(old(lines)@) + c@.emails.map_values(|e: EntryView| entry_line("EMAIL"@, e)),
{
    let ghost base = text::seqs_of(lines@);
    let mut i: usize = 0;
    while i < c.emails.len()
        invariant
            i <= c.emails@.len(),
            text::seqs_of(lines@) == base + c@.emails.take(i as int).map_values(|e: EntryView| entry_line("EMAIL"@, e)),
        decreases c.emails@.len() - i,
    {
        let e = &c.emails[i];
        let line = entry_line_exec("EMAIL", &e.email, &e.email_type, e.primary);
        push_line(lines, line);
        assert(c@.emails.take(i + 1) =~= c@.emails.take(i as int).push(c@.emails[i as int]));
        assert(text::seqs_of(lines@) =~= base + c@.emails.take(i + 1).map_values(|e: EntryView| entry_line("EMAIL"@, e)));
        i += 1;
    }
    assert(c@.emails.take(c.emails@.len() as int) =~= c@.emails);
}

/// Appends the lines of the contact's telephone numbers.
fn push_phone_lines(lines: &mut Vec<Vec<char>>, c: &Contact)
    ensures
        text::seqs_of(final(lines)@) == text::seqs_of(old(lines)@) + c@.phones.map_values(|e: EntryView| entry_line("TEL"@, e)),
{
    let ghost base = text::seqs_of(lines@);
    let mut i: usize = 0;
    while i < c.phones.len()
        invariant
            i <= c.phones@.len(),
            text::seqs_of(lines@) == base + c@.phones.take(i as int).map_values(|e: EntryView| entry_line("TEL"@, e)),
        decreases c.phones@.len() - i,
    {
        let e = &c.phones[i];
        let line = entry_line_exec("TEL", &e.number, &e.phone_type, e.primary);
        push_line(lines, line);
        assert(c@.phones.take(i + 1) =~= c@.phones.take(i as int).push(c@.phones[i as int]));
        assert(text::seqs_of(lines@) =~= base + c@.phones.take(i + 1).map_values(|e: EntryView| entry_line("TEL"@, e)));
        i += 1;
    }
    assert(c@.phones.take(c.phones@.len() as int) =~= c@.phones);
}

/// Appends the lines of the contact's postal addresses.
fn push_address_lines(lines: &mut Vec<Vec<char>>, c: &Contact)
    ensures
        text::seqs_of(final(lines)@) == text::seqs_of(old(lines)@) + c@.addresses.map_values(|a: AddressView| address_line(a)),
{
    let ghost base = text::seqs_of(lines@);
    let mut i: usize = 0;
    while i < c.addresses.len()
        invariant
            i <= c.addresses@.len(),
            text::seqs_of(lines@) == base + c@.addresses.take(i as int).map_values(|a: AddressView| address_line(a)),
        decreases c.addresses@.len() - i,
    {
        let line = address_line_exec(&c.addresses[i]);
        push_line(lines, line);
        assert(c@.addresses.take(i + 1) =~= c@.addresses.take(i as int).push(c@.addresses[i as int]));
        assert(text::seqs_of(lines@) =~= base + c@.addresses.take(i + 1).map_values(|a: AddressView| address_line(a)));
        i += 1;
    }
    assert(c@.addresses.take(c.addresses@.len() as int) =~= c@.addresses);
}

/// Writes a contact as a vCard 3.0: `BEGIN`, `VERSION`, `UID`, `FN` and `N`,
/// then the nickname, the e-mail addresses, telephone numbers and postal
/// addresses, the organization, title, birthday and note that are present,
/// and `END`, joined with CRLF. Names, nickname, organization, title, note
/// and the parts of postal addresses other than the postal code are escaped.
pub fn generate_vcard(contact: &Contact) -> (r: String)
    ensures
        r@ == write_vcard(contact@),
{
    let c = contact;
    let mut lines = head_lines_exec(c);
    push_optional_line(&mut lines, "NICKNAME:", &c.nickname, true);
    push_email_lines(&mut lines, c);
    push_phone_lines(&mut lines, c);
    push_address_lines(&mut lines, c);
    push_optional_line(&mut lines, "ORG:", &c.organization, true);
    push_optional_line(&mut lines, "TITLE:", &c.title, true);
    push_optional_line(&mut lines, "BDAY:", &c.birthday, false);
    push_optional_line(&mut lines, "NOTE:", &c.notes, true);
    push_line(&mut lines, text::str_chars("END:VCARD"));
    assert(text::seqs_of(lines@) =~= vcard_lines(c@));
    let crlf = text::str_chars("\r\n");
    let joined = text::join_exec(&lines, crlf.as_slice());
    text::chars_to_string(joined.as_slice())
}


/// The text of a version 4 UUID in hyphenated form: 32 lowercase hex digits
/// in groups of 8, 4, 4, 4 and 12 separated by `-`, the version digit `4`
/// first in the third group.
pub open spec fn uuid_v4_text(s: Seq<char>) -> bool {
    &&& s.len() == 36
    &&& forall|i: int| 0 <= i < 36 ==> if i == 8 || i == 13 || i == 18 || i == 23 {
        #[trigger] s[i] == '-'
    } else {
        ('0' <= s[i] && s[i] <= '9') || ('a' <= s[i] && s[i] <= 'f')
    }
    &&& s[14] == '4'
}

/// `uuid::Uuid::new_v4().to_string()`: a fresh random identifier. The
/// contract claims only what holds of every outcome: the text is the
/// lowercase hyphenated form of a version 4 UUID.
#[verifier::external_body]
pub(crate) fn new_uuid_string() -> (r: String)
    ensures
        uuid_v4_text(r@),
{
    uuid::Uuid::new_v4().to_string()
}

/// `c` is what reading a vCard gives when the card reads as `expected`: the
/// same contact, except that a card without identifier gets a fresh version
/// 4 UUID.
pub open spec fn read_as(c: ContactView, expected: ContactView) -> bool {
    &&& c == ContactView { id: c.id, ..expected }
    &&& expected.id.len() > 0 ==> c.id == expected.id
    &&& expected.id.len() == 0 ==> uuid_v4_text(c.id)
}

/// Reads a vCard into a contact (see [`read_vcard`]); a card without `UID`
/// gets a fresh random identifier. Reading never fails.
pub fn parse_vcard(vcard: &str) -> (r: Result<Contact, HimalayaError>)
    ensures
        r matches Ok(c) && read_as(c@, read_vcard(vcard@)),
{
    let mut contact = read_vcard_fields(vcard);
    if contact.id.as_str().is_empty() {
        contact.id = new_uuid_string();
    }
    Ok(contact)
}

} // verus!
