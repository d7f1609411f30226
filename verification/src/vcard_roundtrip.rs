//! Reading back a written vCard: which contacts survive a write and a read,
//! and what they read back as.
use vstd::prelude::*;
use crate::text;
use crate::vcard::{
    address_line, apply_line, apply_property, clean_type, component, decode_value, empty_contact, encode_opt,
    encode_value, entry_kind, entry_line, escape_char, head_lines, is_preferred, lemma_find_absent, optional_line,
    param_key, param_lookup, param_value, pref_part, raw_opt, read_lines, read_vcard, type_part, unfold, is_folded, vcard_lines,
    write_vcard, AddressView, ContactView, EntryView,
};

verus! {

// ── Which contacts can be written ───────────────────────────────────────────

/// Text that does not end in white space (a line is read trimmed).
pub open spec fn ends_clean(s: Seq<char>) -> bool {
    s.len() == 0 || !text::is_white_space(s.last())
}

/// A value that reads back as itself after escaping.
pub open spec fn survives_escaping(v: Seq<char>) -> bool {
    decode_value(encode_value(v)) == v
}

/// An escaped value at the end of a line: it survives escaping and its
/// escaped form does not end in white space.
pub open spec fn line_value_ok(v: Seq<char>) -> bool {
    survives_escaping(v) && ends_clean(encode_value(v))
}

/// A part of a structured value (a name or address part): when present it is
/// not empty, holds no `;` and survives escaping.
pub open spec fn component_ok(o: Option<Seq<char>>) -> bool {
    o matches Some(v) ==> v.len() > 0 && !v.contains(';') && survives_escaping(v)
}

/// The type of an entry can be written: it holds no `;`, `:` or newline, and
/// the type of an entry that is not preferred has no `PREF` in it, as
/// written or uppercased.
pub open spec fn kind_ok(kind: Option<Seq<char>>, primary: bool) -> bool {
    kind matches Some(k) ==> {
        &&& !k.contains(';') && !k.contains(':') && !k.contains('\n')
        &&& !primary ==> clean_type(k) == k && !text::contains(text::uppercase(k), "PREF"@)
    }
}

/// An e-mail address or telephone number can be written: its type can, and
/// its value (written as it is, read unescaped) holds no newline, does not
/// end in white space and has nothing to unescape.
pub open spec fn entry_ok(e: EntryView) -> bool {
    &&& kind_ok(e.kind, e.primary)
    &&& !e.value.contains('\n')
    &&& ends_clean(e.value)
    &&& decode_value(e.value) == e.value
}

/// A postal address can be written: its type can, its escaped parts are
/// good parts, its postal code (written as it is) is a non-empty part with
/// no newline and nothing to unescape, and the escaped country does not end
/// in white space.
pub open spec fn address_ok(a: AddressView) -> bool {
    &&& kind_ok(a.kind, a.primary)
    &&& component_ok(a.street)
    &&& component_ok(a.city)
    &&& component_ok(a.state)
    &&& component_ok(a.country)
    &&& (a.postal_code matches Some(v) ==> v.len() > 0 && !v.contains(';') && !v.contains('\n') && decode_value(v) == v)
    &&& ends_clean(encode_opt(a.country))
}

/// A contact whose every value can be written as a vCard and read back.
pub open spec fn writable(c: ContactView) -> bool {
    &&& !c.id.contains('\n') && ends_clean(c.id)
    &&& line_value_ok(c.full_name)
    &&& component_ok(c.family_name)
    &&& component_ok(c.given_name)
    &&& (c.nickname matches Some(v) ==> line_value_ok(v))
    &&& forall|i: int| 0 <= i < c.emails.len() ==> entry_ok(#[trigger] c.emails[i])
    &&& forall|i: int| 0 <= i < c.phones.len() ==> entry_ok(#[trigger] c.phones[i])
    &&& forall|i: int| 0 <= i < c.addresses.len() ==> address_ok(#[trigger] c.addresses[i])
    &&& (c.organization matches Some(v) ==> !v.contains(';') && line_value_ok(v))
    &&& (c.title matches Some(v) ==> line_value_ok(v))
    &&& (c.birthday matches Some(v) ==> !v.contains('\n') && ends_clean(v))
    &&& (c.notes matches Some(v) ==> line_value_ok(v))
}

// ── What they read back as ──────────────────────────────────────────────────

/// The type an entry reads back with: a preferred entry's `PREF` mark is
/// read as its type, with the mark taken out, so it reads back empty.
pub open spec fn read_back_kind(kind: Option<Seq<char>>, primary: bool) -> Option<Seq<char>> {
    if primary {
        Some(Seq::empty())
    } else {
        kind
    }
}

/// An entry as it reads back.
pub open spec fn read_back_entry(e: EntryView) -> EntryView {
    EntryView { value: e.value, kind: read_back_kind(e.kind, e.primary), primary: e.primary }
}

/// A postal address as it reads back.
pub open spec fn read_back_address(a: AddressView) -> AddressView {
    AddressView { kind: read_back_kind(a.kind, a.primary), ..a }
}

/// A contact as it reads back from its vCard: the same, with the entries'
/// types as they read back, and without what a vCard does not carry here
/// (photo, location, tag and raw text).
pub open spec fn read_back(c: ContactView) -> ContactView {
    ContactView {
        emails: c.emails.map_values(|e: EntryView| read_back_entry(e)),
        phones: c.phones.map_values(|e: EntryView| read_back_entry(e)),
        addresses: c.addresses.map_values(|a: AddressView| read_back_address(a)),
        photo_url: None,
        href: None,
        etag: None,
        raw_vcard: None,
        ..c
    }
}

// ── Reading line by line ────────────────────────────────────────────────────

/// The contact after reading `ls` (each trimmed) on top of `c0`.
pub open spec fn apply_all(c0: ContactView, ls: Seq<Seq<char>>) -> ContactView
    decreases ls.len(),
{
    if ls.len() == 0 {
        c0
    } else {
        apply_line(apply_all(c0, ls.drop_last()), text::trim(ls.last()))
    }
}

proof fn lemma_read_lines_apply_all(ls: Seq<Seq<char>>)
    ensures
        read_lines(ls) == apply_all(empty_contact(), ls),
    decreases ls.len(),
{
    if ls.len() > 0 {
        lemma_read_lines_apply_all(ls.drop_last());
    }
}

proof fn lemma_apply_all_concat(c0: ContactView, a: Seq<Seq<char>>, b: Seq<Seq<char>>)
    ensures
        apply_all(c0, a + b) == apply_all(apply_all(c0, a), b),
    decreases b.len(),
{
    if b.len() == 0 {
        assert(a + b =~= a);
    } else {
        assert((a + b).drop_last() =~= a + b.drop_last());
        assert((a + b).last() == b.last());
        lemma_apply_all_concat(c0, a, b.drop_last());
    }
}

proof fn lemma_apply_one(c0: ContactView, l: Seq<char>)
    ensures
        apply_all(c0, seq![l]) == apply_line(c0, text::trim(l)),
{
    assert(seq![l].drop_last() =~= Seq::<Seq<char>>::empty());
    assert(apply_all(c0, Seq::<Seq<char>>::empty()) == c0);
    assert(seq![l].last() == l);
}

/// A property line: a name part without a colon, a colon and the value.
proof fn lemma_property_line(c0: ContactView, np: Seq<char>, v: Seq<char>)
    requires
        np.len() > 0,
        !text::is_white_space(np[0]),
        !np.contains(':'),
        ends_clean(v),
    ensures
        apply_line(c0, text::trim(np + seq![':'] + v)) == apply_property(
            c0,
            text::uppercase(text::split_char(np, ';')[0]),
            text::split_char(np, ';').skip(1),
            v,
        ),
{
    let l = np + seq![':'] + v;
    text::lemma_trim_unchanged(l);
    reveal_strlit(":");
    assert(":"@ =~= seq![':']);
    assert forall|j: int| 0 <= j < np.len() implies l[j] != ':' by {
        assert(l[j] == np[j]);
        if np[j] == ':' {
            assert(np.contains(':'));
        }
    }
    text::lemma_find_first_char(l, ':', np.len() as int, 0);
    assert(l.take(np.len() as int) =~= np);
    assert(l.skip(np.len() as int + 1) =~= v);
}

/// A name of capital ASCII letters.
pub open spec fn capital_name(name: Seq<char>) -> bool {
    name.len() > 0 && forall|i: int| 0 <= i < name.len() ==> 'A' <= #[trigger] name[i] && name[i] <= 'Z'
}

proof fn lemma_capital_name(name: Seq<char>)
    requires
        capital_name(name),
    ensures
        text::uppercase(name) == name,
        !name.contains(';'),
        !name.contains(':'),
        !name.contains('='),
        !name.contains('\n'),
        !text::is_white_space(name[0]),
{
    text::lemma_uppercase_unchanged(name);
    assert(!name.contains(';')) by {
        if name.contains(';') {
            let i = choose|i: int| 0 <= i < name.len() && name[i] == ';';
        }
    }
    assert(!name.contains(':')) by {
        if name.contains(':') {
            let i = choose|i: int| 0 <= i < name.len() && name[i] == ':';
        }
    }
    assert(!name.contains('=')) by {
        if name.contains('=') {
            let i = choose|i: int| 0 <= i < name.len() && name[i] == '=';
        }
    }
    assert(!name.contains('\n')) by {
        if name.contains('\n') {
            let i = choose|i: int| 0 <= i < name.len() && name[i] == '\n';
        }
    }
}

/// A line of a capital property name and a value, without parameters.
proof fn lemma_plain_line(c0: ContactView, name: Seq<char>, v: Seq<char>)
    requires
        capital_name(name),
        ends_clean(v),
    ensures
        apply_line(c0, text::trim(name + seq![':'] + v)) == apply_property(c0, name, Seq::empty(), v),
{
    lemma_capital_name(name);
    lemma_property_line(c0, name, v);
    text::lemma_split_char_none(name, ';');
    assert(seq![name].skip(1) =~= Seq::<Seq<char>>::empty());
}


// ── Entry parameters ────────────────────────────────────────────────────────

proof fn lemma_literals()
    ensures
        "PREF"@ =~= seq!['P', 'R', 'E', 'F'],
        "TYPE"@ =~= seq!['T', 'Y', 'P', 'E'],
        "TYPE="@ =~= seq!['T', 'Y', 'P', 'E', '='],
        "="@ =~= seq!['='],
        ";TYPE="@ =~= seq![';'] + "TYPE="@,
        ";PREF"@ =~= seq![';'] + "PREF"@,
        "PREF,"@ =~= seq!['P', 'R', 'E', 'F', ','],
        ",PREF"@ =~= seq![',', 'P', 'R', 'E', 'F'],
        ""@ =~= Seq::<char>::empty(),
        "TYPE"@ != "PREF"@,
{
    reveal_strlit("PREF");
    reveal_strlit("TYPE");
    reveal_strlit("TYPE=");
    reveal_strlit("=");
    reveal_strlit(";TYPE=");
    reveal_strlit(";PREF");
    reveal_strlit("PREF,");
    reveal_strlit(",PREF");
    reveal_strlit("");
    assert("TYPE"@[0] != "PREF"@[0]);
}

/// The `PREF` shorthand is read as a type `PREF`, which reads as empty and
/// marks the entry preferred.
proof fn lemma_pref_param()
    ensures
        param_key("PREF"@) == "TYPE"@,
        param_value("PREF"@) == "PREF"@,
        clean_type("PREF"@) == Seq::<char>::empty(),
        text::contains(text::uppercase("PREF"@), "PREF"@),
{
    lemma_literals();
    let p = "PREF"@;
    lemma_find_absent(p, "="@, 0);
    assert(capital_name(p));
    lemma_capital_name(p);
    // Neither `PREF,` nor `,PREF` fits in `PREF`.
    assert(text::find_from(p, "PREF,"@, 0) is None);
    assert(text::replace(p, "PREF,"@, ""@) =~= p);
    assert(text::find_from(p, ",PREF"@, 0) is None);
    assert(text::replace(p, ",PREF"@, ""@) =~= p);
    // `PREF` itself is found at once and nothing is left after it.
    assert(text::occurs_at(p, p, 0)) by {
        assert(p.subrange(0, 4) =~= p);
    }
    assert(text::find_from(p, p, 0) == Some(0int));
    assert(text::find_from(p, p, 4) is None);
    assert(text::replace_from(p, p, ""@, 4) =~= Seq::<char>::empty());
    assert(text::replace(p, p, ""@) =~= Seq::<char>::empty());
}

/// A `TYPE=` parameter is read as its type.
proof fn lemma_type_param(k: Seq<char>)
    ensures
        param_key("TYPE="@ + k) == "TYPE"@,
        param_value("TYPE="@ + k) == k,
{
    lemma_literals();
    let p = "TYPE="@ + k;
    text::lemma_find_first_char(p, '=', 4, 0);
    assert(p.take(4) =~= "TYPE"@);
    assert(capital_name("TYPE"@));
    lemma_capital_name("TYPE"@);
    assert(p.skip(5) =~= k);
}

/// The name part of an entry line splits into the name and the parameters,
/// which read back as the entry's type and preference.
proof fn lemma_entry_params(name: Seq<char>, kind: Option<Seq<char>>, primary: bool)
    requires
        capital_name(name),
        kind_ok(kind, primary),
    ensures
        ({
            let np = name + type_part(kind) + pref_part(primary);
            let parts = text::split_char(np, ';');
            &&& np.len() > 0
            &&& !text::is_white_space(np[0])
            &&& !np.contains(':')
            &&& !np.contains('\n')
            &&& parts.len() >= 1
            &&& parts[0] == name
            &&& entry_kind(parts.skip(1)) == read_back_kind(kind, primary)
            &&& is_preferred(parts.skip(1)) == primary
        }),
{
    lemma_literals();
    lemma_capital_name(name);
    lemma_pref_param();
    let np = name + type_part(kind) + pref_part(primary);
    let pref = "PREF"@;
    assert(capital_name(pref));
    lemma_capital_name(pref);
    text::lemma_split_char_none(name, ';');
    text::lemma_split_char_none(pref, ';');
    match kind {
        None => {
            if primary {
                assert(np =~= name + seq![';'] + pref);
                text::lemma_split_char_concat(name, pref, ';');
                let params = seq![pref];
                assert(text::split_char(np, ';') =~= seq![name, pref]);
                assert(text::split_char(np, ';').skip(1) =~= params);
                assert(params.drop_last() =~= Seq::<Seq<char>>::empty());
                assert(param_lookup(params, "TYPE"@) == Some(pref));
                assert(param_lookup(Seq::<Seq<char>>::empty(), "PREF"@) is None);
                assert(param_lookup(params, "PREF"@) is None);
                assert forall|i: int| 0 <= i < np.len() implies np[i] != ':' && np[i] != '\n' by {
                    if i >= name.len() + 1 {
                        assert(np[i] == pref[i - name.len() - 1]);
                    } else if i < name.len() {
                        assert(np[i] == name[i]);
                        assert(!name.contains(np[i]) || (np[i] != ':' && np[i] != '\n'));
                    }
                }
            } else {
                assert(np =~= name);
                assert(text::split_char(np, ';').skip(1) =~= Seq::<Seq<char>>::empty());
            }
        },
        Some(k) => {
            let tk = "TYPE="@ + k;
            lemma_type_param(k);
            assert(!tk.contains(';') && !tk.contains(':') && !tk.contains('\n')) by {
                assert forall|i: int| 0 <= i < tk.len() implies tk[i] != ';' && tk[i] != ':' && tk[i] != '\n' by {
                    if i >= 5 {
                        assert(tk[i] == k[i - 5]);
                        if k[i - 5] == ';' || k[i - 5] == ':' || k[i - 5] == '\n' {
                            assert(k.contains(k[i - 5]));
                        }
                    }
                }
            }
            text::lemma_split_char_none(tk, ';');
            if primary {
                assert(np =~= name + seq![';'] + (tk + seq![';'] + pref));
                text::lemma_split_char_concat(tk, pref, ';');
                text::lemma_split_char_concat(name, tk + seq![';'] + pref, ';');
                let params = seq![tk, pref];
                assert(text::split_char(np, ';') =~= seq![name, tk, pref]);
                assert(text::split_char(np, ';').skip(1) =~= params);
                assert(params.drop_last() =~= seq![tk]);
                assert(seq![tk].drop_last() =~= Seq::<Seq<char>>::empty());
                assert(param_lookup(params, "TYPE"@) == Some(pref));
                assert(param_lookup(seq![tk], "PREF"@) is None);
                assert(param_lookup(Seq::<Seq<char>>::empty(), "PREF"@) is None);
                assert(param_lookup(params, "PREF"@) is None);
                assert forall|i: int| 0 <= i < np.len() implies np[i] != ':' && np[i] != '\n' by {
                    if i < name.len() {
                        assert(np[i] == name[i]);
                        assert(!name.contains(np[i]) || (np[i] != ':' && np[i] != '\n'));
                    } else if name.len() < i < name.len() + 1 + tk.len() {
                        assert(np[i] == tk[i - name.len() - 1]);
                        assert(!tk.contains(np[i]) || (np[i] != ':' && np[i] != '\n'));
                    } else if i > name.len() + 1 + tk.len() {
                        assert(np[i] == pref[i - name.len() - 2 - tk.len()]);
                    }
                }
            } else {
                assert(np =~= name + seq![';'] + tk);
                text::lemma_split_char_concat(name, tk, ';');
                let params = seq![tk];
                assert(text::split_char(np, ';') =~= seq![name, tk]);
                assert(text::split_char(np, ';').skip(1) =~= params);
                assert(params.drop_last() =~= Seq::<Seq<char>>::empty());
                assert(param_lookup(params, "TYPE"@) == Some(k));
                assert(param_lookup(Seq::<Seq<char>>::empty(), "PREF"@) is None);
                assert(param_lookup(params, "PREF"@) is None);
                assert forall|i: int| 0 <= i < np.len() implies np[i] != ':' && np[i] != '\n' by {
                    if i < name.len() {
                        assert(np[i] == name[i]);
                        assert(!name.contains(np[i]) || (np[i] != ':' && np[i] != '\n'));
                    } else if i > name.len() {
                        assert(np[i] == tk[i - name.len() - 1]);
                        assert(!tk.contains(np[i]) || (np[i] != ':' && np[i] != '\n'));
                    }
                }
            }
        },
    }
    assert(np[0] == name[0]);
}


// ── Property lines ──────────────────────────────────────────────────────────

/// The property names, spelled out.
proof fn lemma_names()
    ensures
        "UID"@ =~= seq!['U', 'I', 'D'],
        "FN"@ =~= seq!['F', 'N'],
        "N"@ =~= seq!['N'],
        "NICKNAME"@ =~= seq!['N', 'I', 'C', 'K', 'N', 'A', 'M', 'E'],
        "EMAIL"@ =~= seq!['E', 'M', 'A', 'I', 'L'],
        "TEL"@ =~= seq!['T', 'E', 'L'],
        "ADR"@ =~= seq!['A', 'D', 'R'],
        "ORG"@ =~= seq!['O', 'R', 'G'],
        "TITLE"@ =~= seq!['T', 'I', 'T', 'L', 'E'],
        "BDAY"@ =~= seq!['B', 'D', 'A', 'Y'],
        "NOTE"@ =~= seq!['N', 'O', 'T', 'E'],
        "PHOTO"@ =~= seq!['P', 'H', 'O', 'T', 'O'],
        "BEGIN"@ =~= seq!['B', 'E', 'G', 'I', 'N'],
        "VERSION"@ =~= seq!['V', 'E', 'R', 'S', 'I', 'O', 'N'],
        "END"@ =~= seq!['E', 'N', 'D'],
        ":"@ =~= seq![':'],
{
    reveal_strlit("UID");
    reveal_strlit("FN");
    reveal_strlit("N");
    reveal_strlit("NICKNAME");
    reveal_strlit("EMAIL");
    reveal_strlit("TEL");
    reveal_strlit("ADR");
    reveal_strlit("ORG");
    reveal_strlit("TITLE");
    reveal_strlit("BDAY");
    reveal_strlit("NOTE");
    reveal_strlit("PHOTO");
    reveal_strlit("BEGIN");
    reveal_strlit("VERSION");
    reveal_strlit("END");
    reveal_strlit(":");
}

/// A `PHOTO` property with an `http` value sets the photo URL; with any
/// other value it changes nothing.
proof fn lemma_photo_property(c0: ContactView, ps: Seq<Seq<char>>, v: Seq<char>)
    ensures
        apply_property(c0, "PHOTO"@, ps, v) == (
            if v.len() >= 4 && v.take(4) == seq!['h', 't', 't', 'p'] {
                (ContactView { photo_url: Some(v), ..c0 })
            } else {
                c0
            }),
{
    lemma_names();
    reveal_strlit("http");
    assert("http"@ =~= seq!['h', 't', 't', 'p']);
}

/// The name part `PHOTO` or `PHOTO;…` reads as the property `PHOTO`.
proof fn lemma_photo_name(c0: ContactView, params: Seq<char>, v: Seq<char>)
    requires
        params.len() == 0 || params[0] == ';',
        !params.contains(':'),
        ends_clean(v),
    ensures
        apply_line(c0, text::trim("PHOTO"@ + params + seq![':'] + v))
            == apply_property(c0, "PHOTO"@, text::split_char("PHOTO"@ + params, ';').skip(1), v),
{
    lemma_names();
    let photo = "PHOTO"@;
    let np = photo + params;
    assert(capital_name(photo));
    lemma_capital_name(photo);
    assert(!np.contains(':')) by {
        if np.contains(':') {
            let k = choose|k: int| 0 <= k < np.len() && np[k] == ':';
            if k < 5 {
                assert(photo[k] == ':');
            } else {
                assert(params[k - 5] == ':');
            }
        }
    }
    lemma_property_line(c0, np, v);
    text::lemma_split_char_none(photo, ';');
    if params.len() == 0 {
        assert(np =~= photo);
    } else {
        let rest = params.skip(1);
        assert(np =~= photo + seq![';'] + rest);
        text::lemma_split_char_concat(photo, rest, ';');
    }
    assert(text::split_char(np, ';')[0] == photo);
}

/// Reading a `PHOTO` line, with or without parameters (`PHOTO:…`,
/// `PHOTO;VALUE=uri:…`): a value that starts with `http` becomes the photo
/// URL exactly as written and nothing else of the contact changes; any other
/// value (inline image data) changes nothing.
pub proof fn law_photo_line(c0: ContactView, params: Seq<char>, v: Seq<char>)
    requires
        params.len() == 0 || params[0] == ';',
        !params.contains(':'),
        ends_clean(v),
    ensures
        apply_line(c0, text::trim("PHOTO"@ + params + seq![':'] + v)) == (
            if v.len() >= 4 && v.take(4) == seq!['h', 't', 't', 'p'] {
                (ContactView { photo_url: Some(v), ..c0 })
            } else {
                c0
            }),
{
    lemma_photo_name(c0, params, v);
    lemma_photo_property(c0, text::split_char("PHOTO"@ + params, ';').skip(1), v);
}

/// The line of an e-mail address adds the entry as it reads back.
proof fn lemma_email_line(c0: ContactView, e: EntryView)
    requires
        entry_ok(e),
    ensures
        apply_line(c0, text::trim(entry_line("EMAIL"@, e)))
            == (ContactView { emails: c0.emails.push(read_back_entry(e)), ..c0 }),
{
    lemma_names();
    let name = "EMAIL"@;
    assert(capital_name(name));
    lemma_capital_name(name);
    lemma_entry_params(name, e.kind, e.primary);
    let np = name + type_part(e.kind) + pref_part(e.primary);
    assert(entry_line(name, e) =~= np + seq![':'] + e.value);
    lemma_property_line(c0, np, e.value);
}

/// The line of a telephone number adds the entry as it reads back.
proof fn lemma_tel_line(c0: ContactView, e: EntryView)
    requires
        entry_ok(e),
    ensures
        apply_line(c0, text::trim(entry_line("TEL"@, e)))
            == (ContactView { phones: c0.phones.push(read_back_entry(e)), ..c0 }),
{
    lemma_names();
    let name = "TEL"@;
    assert(capital_name(name));
    lemma_capital_name(name);
    lemma_entry_params(name, e.kind, e.primary);
    let np = name + type_part(e.kind) + pref_part(e.primary);
    assert(entry_line(name, e) =~= np + seq![':'] + e.value);
    lemma_property_line(c0, np, e.value);
}


// ── Escaped values ──────────────────────────────────────────────────────────

/// An escaped value has no newline, has a `;` only where the value has one,
/// and is at least as long as the value.
proof fn lemma_encoded(v: Seq<char>)
    ensures
        !encode_value(v).contains('\n'),
        !v.contains(';') ==> !encode_value(v).contains(';'),
        encode_value(v).len() >= v.len(),
    decreases v.len(),
{
    if v.len() > 0 {
        let d = v.drop_last();
        lemma_encoded(d);
        let e = encode_value(v);
        let ed = encode_value(d);
        let x = escape_char(v.last());
        assert(e == ed + x);
        assert(!e.contains('\n')) by {
            if e.contains('\n') {
                let i = choose|i: int| 0 <= i < e.len() && e[i] == '\n';
                if i < ed.len() {
                    assert(ed[i] == e[i]);
                    assert(ed.contains('\n'));
                } else {
                    assert(x[i - ed.len()] == '\n');
                }
            }
        }
        if !v.contains(';') {
            assert(!d.contains(';')) by {
                if d.contains(';') {
                    let i = choose|i: int| 0 <= i < d.len() && d[i] == ';';
                    assert(v[i] == ';');
                }
            }
            assert(v.last() != ';') by {
                assert(v[v.len() - 1] == v.last());
            }
            assert(!e.contains(';')) by {
                if e.contains(';') {
                    let i = choose|i: int| 0 <= i < e.len() && e[i] == ';';
                    if i < ed.len() {
                        assert(ed[i] == e[i]);
                        assert(ed.contains(';'));
                    } else {
                        assert(x[i - ed.len()] == ';');
                    }
                }
            }
        }
    }
}

/// An optional escaped part has no `;` or newline, and is empty exactly when
/// absent.
proof fn lemma_part_shape(o: Option<Seq<char>>)
    requires
        component_ok(o),
    ensures
        !encode_opt(o).contains(';'),
        !encode_opt(o).contains('\n'),
        (encode_opt(o).len() > 0) == (o is Some),
{
    match o {
        Some(v) => {
            lemma_encoded(v);
        },
        None => {
            assert(encode_opt(o) =~= Seq::<char>::empty());
        },
    }
}

/// An optional escaped part: none reads as none, a present one as itself.
proof fn lemma_component_part(o: Option<Seq<char>>)
    requires
        component_ok(o),
    ensures
        !encode_opt(o).contains(';'),
        !encode_opt(o).contains('\n'),
        (encode_opt(o).len() > 0) == (o is Some),
        o matches Some(v) ==> decode_value(encode_opt(o)) == v,
{
    match o {
        Some(v) => {
            lemma_encoded(v);
        },
        None => {
            assert(encode_opt(o) =~= Seq::<char>::empty());
        },
    }
}

/// Text made of two parts without `c` has no `c`.
proof fn lemma_lacks_concat(a: Seq<char>, b: Seq<char>, c: char)
    requires
        !a.contains(c),
        !b.contains(c),
    ensures
        !(a + b).contains(c),
{
    if (a + b).contains(c) {
        let i = choose|i: int| 0 <= i < (a + b).len() && (a + b)[i] == c;
        if i < a.len() {
            assert(a[i] == c);
        } else {
            assert(b[i - a.len()] == c);
        }
    }
}

/// Text of one repeated character other than `c` has no `c`.
proof fn lemma_lacks_single(x: char, c: char)
    requires
        x != c,
    ensures
        !seq![x].contains(c),
{
    if seq![x].contains(c) {
        let i = choose|i: int| 0 <= i < 1 && seq![x][i] == c;
    }
}

/// The value of a postal address line: two empty parts, then street, city,
/// region, postal code and country, separated by `;`.
pub open spec fn adr_value(a: AddressView) -> Seq<char> {
    five_parts(encode_opt(a.street), encode_opt(a.city), encode_opt(a.state), raw_opt(a.postal_code), encode_opt(a.country))
}

/// Pieces joined left to right are the pieces regrouped as a name part, a
/// colon and five `;`-separated parts.
#[verifier::rlimit(80)]
proof fn lemma_regroup_five(np: Seq<char>, es: Seq<char>, ec: Seq<char>, est: Seq<char>, rp: Seq<char>, eco: Seq<char>)
    ensures
        np + seq![':', ';', ';'] + es + seq![';'] + ec + seq![';'] + est + seq![';'] + rp + seq![';'] + eco
            == np + seq![':'] + five_parts(es, ec, est, rp, eco),
{
    let semi = seq![';'];
    let l = np + seq![':', ';', ';'] + es + semi + ec + semi + est + semi + rp + semi + eco;
    let r = np + seq![':'] + five_parts(es, ec, est, rp, eco);
    assert(l.len() == r.len());
    assert forall|i: int| 0 <= i < l.len() implies l[i] == r[i] by {
        let k0 = np.len() + 3;
        let k1 = k0 + es.len();
        let k2 = k1 + 1 + ec.len();
        let k3 = k2 + 1 + est.len();
        let k4 = k3 + 1 + rp.len();
        if i < np.len() {
        } else if i < k0 {
        } else if i < k1 {
        } else if i == k1 {
        } else if i < k2 {
        } else if i == k2 {
        } else if i < k3 {
        } else if i == k3 {
        } else if i < k4 {
        } else if i == k4 {
        } else {
        }
    }
    assert(l =~= r);
}

proof fn lemma_adr_shape(a: AddressView)
    ensures
        address_line(a) == "ADR"@ + type_part(a.kind) + pref_part(a.primary) + seq![':'] + adr_value(a),
{
    reveal_strlit(":;;");
    reveal_strlit(";");
    assert(":;;"@ =~= seq![':', ';', ';']);
    assert(";"@ =~= seq![';']);
    let np = "ADR"@ + type_part(a.kind) + pref_part(a.primary);
    lemma_regroup_five(np, encode_opt(a.street), encode_opt(a.city), encode_opt(a.state), raw_opt(a.postal_code), encode_opt(a.country));
}

/// The line of a postal address is one line.
#[verifier::rlimit(80)]
proof fn lemma_adr_line_one_line(a: AddressView)
    requires
        address_ok(a),
    ensures
        !address_line(a).contains('\n'),
{
    lemma_names();
    let name = "ADR"@;
    assert(capital_name(name));
    lemma_entry_params(name, a.kind, a.primary);
    let np = name + type_part(a.kind) + pref_part(a.primary);
    lemma_part_shape(a.street);
    lemma_part_shape(a.city);
    lemma_part_shape(a.state);
    lemma_part_shape(a.country);
    let es = encode_opt(a.street);
    let ec = encode_opt(a.city);
    let est = encode_opt(a.state);
    let rp = raw_opt(a.postal_code);
    let eco = encode_opt(a.country);
    assert(!rp.contains('\n')) by {
        if a.postal_code is None {
            assert(rp =~= Seq::<char>::empty());
        }
    }
    let semi = seq![';'];
    lemma_lacks_single(';', '\n');
    lemma_lacks_single(':', '\n');
    let t5 = rp + semi + eco;
    lemma_lacks_concat(rp, semi, '\n');
    lemma_lacks_concat(rp + semi, eco, '\n');
    let t4 = est + semi + t5;
    lemma_lacks_concat(est, semi, '\n');
    lemma_lacks_concat(est + semi, t5, '\n');
    let t3 = ec + semi + t4;
    lemma_lacks_concat(ec, semi, '\n');
    lemma_lacks_concat(ec + semi, t4, '\n');
    let t2 = es + semi + t3;
    lemma_lacks_concat(es, semi, '\n');
    lemma_lacks_concat(es + semi, t3, '\n');
    let t1 = semi + t2;
    lemma_lacks_concat(semi, t2, '\n');
    lemma_lacks_concat(semi, t1, '\n');
    assert(semi + t1 == adr_value(a));
    lemma_lacks_concat(np, seq![':'], '\n');
    lemma_lacks_concat(np + seq![':'], adr_value(a), '\n');
    lemma_adr_shape(a);
}

/// Five parts without `;`, after two empty ones, joined by `;`.
pub open spec fn five_parts(es: Seq<char>, ec: Seq<char>, est: Seq<char>, rp: Seq<char>, eco: Seq<char>) -> Seq<char> {
    let semi = seq![';'];
    semi + (semi + (es + semi + (ec + semi + (est + semi + (rp + semi + eco)))))
}

proof fn lemma_five_parts_split(es: Seq<char>, ec: Seq<char>, est: Seq<char>, rp: Seq<char>, eco: Seq<char>)
    requires
        !es.contains(';'),
        !ec.contains(';'),
        !est.contains(';'),
        !rp.contains(';'),
        !eco.contains(';'),
    ensures
        text::split_char(five_parts(es, ec, est, rp, eco), ';')
            == seq![Seq::<char>::empty(), Seq::<char>::empty(), es, ec, est, rp, eco],
        ends_clean(eco) ==> ends_clean(five_parts(es, ec, est, rp, eco)),
{
    let semi = seq![';'];
    let e0 = Seq::<char>::empty();
    let t5 = rp + semi + eco;
    let t4 = est + semi + t5;
    let t3 = ec + semi + t4;
    let t2 = es + semi + t3;
    let t1 = e0 + semi + t2;
    let value = e0 + semi + t1;
    assert(e0 + semi + t2 =~= semi + t2);
    assert(e0 + semi + t1 =~= semi + t1);
    assert(value == five_parts(es, ec, est, rp, eco));
    text::lemma_split_char_none(rp, ';');
    text::lemma_split_char_none(eco, ';');
    text::lemma_split_char_none(est, ';');
    text::lemma_split_char_none(ec, ';');
    text::lemma_split_char_none(es, ';');
    assert(text::split_char(e0, ';') =~= seq![e0]);
    text::lemma_split_char_concat(rp, eco, ';');
    assert(text::split_char(t5, ';') =~= seq![rp, eco]);
    text::lemma_split_char_concat(est, t5, ';');
    assert(text::split_char(t4, ';') =~= seq![est, rp, eco]);
    text::lemma_split_char_concat(ec, t4, ';');
    assert(text::split_char(t3, ';') =~= seq![ec, est, rp, eco]);
    text::lemma_split_char_concat(es, t3, ';');
    assert(text::split_char(t2, ';') =~= seq![es, ec, est, rp, eco]);
    text::lemma_split_char_concat(e0, t2, ';');
    assert(text::split_char(t1, ';') =~= seq![e0, es, ec, est, rp, eco]);
    text::lemma_split_char_concat(e0, t1, ';');
    assert(text::split_char(value, ';') =~= seq![e0, e0, es, ec, est, rp, eco]);
    if ends_clean(eco) {
        if eco.len() > 0 {
            assert(value.last() == eco.last());
        } else {
            assert(value.last() == ';');
        }
    }
}

/// The parts of a postal address line's value.
proof fn lemma_adr_comps(a: AddressView)
    requires
        address_ok(a),
    ensures
        text::split_char(adr_value(a), ';') == seq![
            Seq::<char>::empty(),
            Seq::<char>::empty(),
            encode_opt(a.street),
            encode_opt(a.city),
            encode_opt(a.state),
            raw_opt(a.postal_code),
            encode_opt(a.country),
        ],
        ends_clean(adr_value(a)),
{
    lemma_part_shape(a.street);
    lemma_part_shape(a.city);
    lemma_part_shape(a.state);
    lemma_part_shape(a.country);
    assert(!raw_opt(a.postal_code).contains(';')) by {
        if a.postal_code is None {
            assert(raw_opt(a.postal_code) =~= Seq::<char>::empty());
        }
    }
    lemma_five_parts_split(encode_opt(a.street), encode_opt(a.city), encode_opt(a.state), raw_opt(a.postal_code), encode_opt(a.country));
}

/// The parts of a postal address read back as the address's parts.
proof fn lemma_adr_components(a: AddressView)
    requires
        address_ok(a),
    ensures
        component(text::split_char(adr_value(a), ';'), 2) == a.street,
        component(text::split_char(adr_value(a), ';'), 3) == a.city,
        component(text::split_char(adr_value(a), ';'), 4) == a.state,
        component(text::split_char(adr_value(a), ';'), 5) == a.postal_code,
        component(text::split_char(adr_value(a), ';'), 6) == a.country,
{
    lemma_adr_comps(a);
    lemma_component_part(a.street);
    lemma_component_part(a.city);
    lemma_component_part(a.state);
    lemma_component_part(a.country);
    if a.postal_code is None {
        assert(raw_opt(a.postal_code) =~= Seq::<char>::empty());
    }
}

/// The line of a postal address adds the address as it reads back.
#[verifier::rlimit(80)]
proof fn lemma_adr_line(c0: ContactView, a: AddressView)
    requires
        address_ok(a),
    ensures
        apply_line(c0, text::trim(address_line(a)))
            == (ContactView { addresses: c0.addresses.push(read_back_address(a)), ..c0 }),
{
    lemma_names();
    let name = "ADR"@;
    assert(capital_name(name));
    lemma_capital_name(name);
    lemma_entry_params(name, a.kind, a.primary);
    let np = name + type_part(a.kind) + pref_part(a.primary);
    lemma_adr_shape(a);
    lemma_adr_comps(a);
    lemma_adr_components(a);
    lemma_property_line(c0, np, adr_value(a));
}


// ── Reading the lines of a vCard ────────────────────────────────────────────

proof fn lemma_apply_push(c0: ContactView, ls: Seq<Seq<char>>, l: Seq<char>)
    ensures
        apply_all(c0, ls.push(l)) == apply_line(apply_all(c0, ls), text::trim(l)),
{
    assert(ls.push(l).drop_last() =~= ls);
    assert(ls.push(l).last() == l);
}

/// The lines of e-mail addresses add the entries as they read back.
#[verifier::rlimit(80)]
proof fn lemma_email_lines(c0: ContactView, es: Seq<EntryView>)
    requires
        forall|i: int| 0 <= i < es.len() ==> entry_ok(#[trigger] es[i]),
    ensures
        apply_all(c0, es.map_values(|e: EntryView| entry_line("EMAIL"@, e)))
            == (ContactView { emails: c0.emails + es.map_values(|e: EntryView| read_back_entry(e)), ..c0 }),
    decreases es.len(),
{
    let ls = es.map_values(|e: EntryView| entry_line("EMAIL"@, e));
    if es.len() == 0 {
        assert(ls =~= Seq::<Seq<char>>::empty());
        assert(c0.emails + es.map_values(|e: EntryView| read_back_entry(e)) =~= c0.emails);
    } else {
        let d = es.drop_last();
        assert forall|i: int| 0 <= i < d.len() implies entry_ok(#[trigger] d[i]) by {
            assert(d[i] == es[i]);
        }
        lemma_email_lines(c0, d);
        assert(ls =~= d.map_values(|e: EntryView| entry_line("EMAIL"@, e)).push(entry_line("EMAIL"@, es.last())));
        lemma_apply_push(c0, d.map_values(|e: EntryView| entry_line("EMAIL"@, e)), entry_line("EMAIL"@, es.last()));
        assert(entry_ok(es[es.len() - 1]));
        let prev = ContactView { emails: c0.emails + d.map_values(|e: EntryView| read_back_entry(e)), ..c0 };
        lemma_email_line(prev, es.last());
        assert((c0.emails + d.map_values(|e: EntryView| read_back_entry(e))).push(read_back_entry(es.last()))
            =~= c0.emails + es.map_values(|e: EntryView| read_back_entry(e)));
    }
}

/// The lines of telephone numbers add the entries as they read back.
#[verifier::rlimit(80)]
proof fn lemma_tel_lines(c0: ContactView, es: Seq<EntryView>)
    requires
        forall|i: int| 0 <= i < es.len() ==> entry_ok(#[trigger] es[i]),
    ensures
        apply_all(c0, es.map_values(|e: EntryView| entry_line("TEL"@, e)))
            == (ContactView { phones: c0.phones + es.map_values(|e: EntryView| read_back_entry(e)), ..c0 }),
    decreases es.len(),
{
    let ls = es.map_values(|e: EntryView| entry_line("TEL"@, e));
    if es.len() == 0 {
        assert(ls =~= Seq::<Seq<char>>::empty());
        assert(c0.phones + es.map_values(|e: EntryView| read_back_entry(e)) =~= c0.phones);
    } else {
        let d = es.drop_last();
        assert forall|i: int| 0 <= i < d.len() implies entry_ok(#[trigger] d[i]) by {
            assert(d[i] == es[i]);
        }
        lemma_tel_lines(c0, d);
        assert(ls =~= d.map_values(|e: EntryView| entry_line("TEL"@, e)).push(entry_line("TEL"@, es.last())));
        lemma_apply_push(c0, d.map_values(|e: EntryView| entry_line("TEL"@, e)), entry_line("TEL"@, es.last()));
        assert(entry_ok(es[es.len() - 1]));
        let prev = ContactView { phones: c0.phones + d.map_values(|e: EntryView| read_back_entry(e)), ..c0 };
        lemma_tel_line(prev, es.last());
        assert((c0.phones + d.map_values(|e: EntryView| read_back_entry(e))).push(read_back_entry(es.last()))
            =~= c0.phones + es.map_values(|e: EntryView| read_back_entry(e)));
    }
}

/// The lines of postal addresses add the addresses as they read back.
#[verifier::rlimit(100)]
proof fn lemma_adr_lines(c0: ContactView, xs: Seq<AddressView>)
    requires
        forall|i: int| 0 <= i < xs.len() ==> address_ok(#[trigger] xs[i]),
    ensures
        apply_all(c0, xs.map_values(|a: AddressView| address_line(a)))
            == (ContactView { addresses: c0.addresses + xs.map_values(|a: AddressView| read_back_address(a)), ..c0 }),
    decreases xs.len(),
{
    let ls = xs.map_values(|a: AddressView| address_line(a));
    if xs.len() == 0 {
        assert(ls =~= Seq::<Seq<char>>::empty());
        assert(c0.addresses + xs.map_values(|a: AddressView| read_back_address(a)) =~= c0.addresses);
    } else {
        let d = xs.drop_last();
        assert forall|i: int| 0 <= i < d.len() implies address_ok(#[trigger] d[i]) by {
            assert(d[i] == xs[i]);
        }
        lemma_adr_lines(c0, d);
        assert(ls =~= d.map_values(|a: AddressView| address_line(a)).push(address_line(xs.last())));
        lemma_apply_push(c0, d.map_values(|a: AddressView| address_line(a)), address_line(xs.last()));
        assert(address_ok(xs[xs.len() - 1]));
        let prev = ContactView { addresses: c0.addresses + d.map_values(|a: AddressView| read_back_address(a)), ..c0 };
        lemma_adr_line(prev, xs.last());
        assert((c0.addresses + d.map_values(|a: AddressView| read_back_address(a))).push(read_back_address(xs.last()))
            =~= c0.addresses + xs.map_values(|a: AddressView| read_back_address(a)));
    }
}


/// The fixed texts of a vCard's lines.
proof fn lemma_line_literals()
    ensures
        "BEGIN:VCARD"@ =~= "BEGIN"@ + seq![':'] + "VCARD"@,
        "VERSION:3.0"@ =~= "VERSION"@ + seq![':'] + "3.0"@,
        "END:VCARD"@ =~= "END"@ + seq![':'] + "VCARD"@,
        "VCARD"@ =~= seq!['V', 'C', 'A', 'R', 'D'],
        "3.0"@ =~= seq!['3', '.', '0'],
        "UID:"@ =~= "UID"@ + seq![':'],
        "FN:"@ =~= "FN"@ + seq![':'],
        "N:"@ =~= "N"@ + seq![':'],
        "NICKNAME:"@ =~= "NICKNAME"@ + seq![':'],
        "ORG:"@ =~= "ORG"@ + seq![':'],
        "TITLE:"@ =~= "TITLE"@ + seq![':'],
        "BDAY:"@ =~= "BDAY"@ + seq![':'],
        "NOTE:"@ =~= "NOTE"@ + seq![':'],
        ";"@ =~= seq![';'],
        ";;;"@ =~= seq![';', ';', ';'],
        "http"@ =~= seq!['h', 't', 't', 'p'],
        capital_name("BEGIN"@),
        capital_name("VERSION"@),
        capital_name("END"@),
        capital_name("UID"@),
        capital_name("FN"@),
        capital_name("N"@),
        capital_name("NICKNAME"@),
        capital_name("ORG"@),
        capital_name("TITLE"@),
        capital_name("BDAY"@),
        capital_name("NOTE"@),
{
    lemma_names();
    reveal_strlit("BEGIN:VCARD");
    reveal_strlit("VERSION:3.0");
    reveal_strlit("END:VCARD");
    reveal_strlit("VCARD");
    reveal_strlit("3.0");
    reveal_strlit("UID:");
    reveal_strlit("FN:");
    reveal_strlit("N:");
    reveal_strlit("NICKNAME:");
    reveal_strlit("ORG:");
    reveal_strlit("TITLE:");
    reveal_strlit("BDAY:");
    reveal_strlit("NOTE:");
    reveal_strlit(";");
    reveal_strlit(";;;");
    reveal_strlit("http");
}

/// A line that names no property read here changes nothing.
proof fn lemma_ignored_line(c0: ContactView, name: Seq<char>, v: Seq<char>)
    requires
        capital_name(name),
        ends_clean(v),
        name == "BEGIN"@ || name == "VERSION"@ || name == "END"@,
    ensures
        apply_line(c0, text::trim(name + seq![':'] + v)) == c0,
{
    lemma_names();
    lemma_plain_line(c0, name, v);
}

/// The `N` line sets the family and given names.
#[verifier::rlimit(80)]
proof fn lemma_n_line(c0: ContactView, f: Option<Seq<char>>, g: Option<Seq<char>>)
    requires
        component_ok(f),
        component_ok(g),
        c0.family_name is None,
        c0.given_name is None,
    ensures
        apply_line(c0, text::trim("N:"@ + encode_opt(f) + ";"@ + encode_opt(g) + ";;;"@))
            == (ContactView { family_name: f, given_name: g, ..c0 }),
{
    lemma_names();
    lemma_line_literals();
    lemma_part_shape(f);
    lemma_part_shape(g);
    lemma_component_part(f);
    lemma_component_part(g);
    let ef = encode_opt(f);
    let eg = encode_opt(g);
    let e0 = Seq::<char>::empty();
    let semi = seq![';'];
    let t3 = e0 + semi + e0;
    let t2 = e0 + semi + t3;
    let t1 = eg + semi + t2;
    let value = ef + semi + t1;
    assert("N:"@ + ef + ";"@ + eg + ";;;"@ =~= "N"@ + seq![':'] + value);
    text::lemma_split_char_none(ef, ';');
    text::lemma_split_char_none(eg, ';');
    assert(text::split_char(e0, ';') =~= seq![e0]);
    text::lemma_split_char_concat(e0, e0, ';');
    assert(text::split_char(t3, ';') =~= seq![e0, e0]);
    text::lemma_split_char_concat(e0, t3, ';');
    assert(text::split_char(t2, ';') =~= seq![e0, e0, e0]);
    text::lemma_split_char_concat(eg, t2, ';');
    assert(text::split_char(t1, ';') =~= seq![eg, e0, e0, e0]);
    text::lemma_split_char_concat(ef, t1, ';');
    assert(text::split_char(value, ';') =~= seq![ef, eg, e0, e0, e0]);
    assert(value.last() == ';');
    lemma_plain_line(c0, "N"@, value);
}

/// The head of a vCard sets the identifier and the names.
#[verifier::rlimit(80)]
proof fn lemma_head(c: ContactView)
    requires
        ends_clean(c.id),
        line_value_ok(c.full_name),
        component_ok(c.family_name),
        component_ok(c.given_name),
    ensures
        apply_all(empty_contact(), head_lines(c)) == (ContactView {
            id: c.id,
            full_name: c.full_name,
            family_name: c.family_name,
            given_name: c.given_name,
            ..empty_contact()
        }),
{
    lemma_names();
    lemma_line_literals();
    let e = empty_contact();
    let l1 = "BEGIN:VCARD"@;
    let l2 = "VERSION:3.0"@;
    let l3 = "UID:"@ + c.id;
    let l4 = "FN:"@ + encode_value(c.full_name);
    let l5 = "N:"@ + encode_opt(c.family_name) + ";"@ + encode_opt(c.given_name) + ";;;"@;
    let s0 = Seq::<Seq<char>>::empty();
    assert(head_lines(c) =~= s0.push(l1).push(l2).push(l3).push(l4).push(l5));
    assert(apply_all(e, s0) == e);
    lemma_apply_push(e, s0, l1);
    lemma_ignored_line(e, "BEGIN"@, "VCARD"@);
    lemma_apply_push(e, s0.push(l1), l2);
    lemma_ignored_line(e, "VERSION"@, "3.0"@);
    lemma_apply_push(e, s0.push(l1).push(l2), l3);
    assert(l3 =~= "UID"@ + seq![':'] + c.id);
    lemma_plain_line(e, "UID"@, c.id);
    let c3 = ContactView { id: c.id, ..e };
    lemma_apply_push(e, s0.push(l1).push(l2).push(l3), l4);
    assert(l4 =~= "FN"@ + seq![':'] + encode_value(c.full_name));
    lemma_plain_line(c3, "FN"@, encode_value(c.full_name));
    let c4 = ContactView { full_name: c.full_name, ..c3 };
    lemma_apply_push(e, s0.push(l1).push(l2).push(l3).push(l4), l5);
    lemma_n_line(c4, c.family_name, c.given_name);
}


/// The nickname line, when there is one, sets the nickname.
#[verifier::rlimit(80)]
proof fn lemma_nickname_line(c0: ContactView, o: Option<Seq<char>>)
    requires
        o matches Some(v) ==> line_value_ok(v),
        c0.nickname is None,
    ensures
        apply_all(c0, optional_line("NICKNAME:"@, o, true)) == (ContactView { nickname: o, ..c0 }),
{
    lemma_names();
    lemma_line_literals();
    match o {
        Some(v) => {
            let w = encode_value(v);
            assert(optional_line("NICKNAME:"@, o, true) =~= seq!["NICKNAME:"@ + w]);
            lemma_apply_one(c0, "NICKNAME:"@ + w);
            assert("NICKNAME:"@ + w =~= "NICKNAME"@ + seq![':'] + w);
            lemma_plain_line(c0, "NICKNAME"@, w);
        },
        None => {
            assert(optional_line("NICKNAME:"@, o, true) =~= Seq::<Seq<char>>::empty());
        },
    }
}

/// The organization line, when there is one, sets the organization.
#[verifier::rlimit(80)]
proof fn lemma_org_line(c0: ContactView, o: Option<Seq<char>>)
    requires
        o matches Some(v) ==> !v.contains(';') && line_value_ok(v),
        c0.organization is None,
    ensures
        apply_all(c0, optional_line("ORG:"@, o, true)) == (ContactView { organization: o, ..c0 }),
{
    lemma_names();
    lemma_line_literals();
    match o {
        Some(v) => {
            let w = encode_value(v);
            lemma_encoded(v);
            text::lemma_split_char_none(w, ';');
            assert(optional_line("ORG:"@, o, true) =~= seq!["ORG:"@ + w]);
            lemma_apply_one(c0, "ORG:"@ + w);
            assert("ORG:"@ + w =~= "ORG"@ + seq![':'] + w);
            lemma_plain_line(c0, "ORG"@, w);
        },
        None => {
            assert(optional_line("ORG:"@, o, true) =~= Seq::<Seq<char>>::empty());
        },
    }
}

/// The title line, when there is one, sets the title.
#[verifier::rlimit(80)]
proof fn lemma_title_line(c0: ContactView, o: Option<Seq<char>>)
    requires
        o matches Some(v) ==> line_value_ok(v),
        c0.title is None,
    ensures
        apply_all(c0, optional_line("TITLE:"@, o, true)) == (ContactView { title: o, ..c0 }),
{
    lemma_names();
    lemma_line_literals();
    match o {
        Some(v) => {
            let w = encode_value(v);
            assert(optional_line("TITLE:"@, o, true) =~= seq!["TITLE:"@ + w]);
            lemma_apply_one(c0, "TITLE:"@ + w);
            assert("TITLE:"@ + w =~= "TITLE"@ + seq![':'] + w);
            lemma_plain_line(c0, "TITLE"@, w);
        },
        None => {
            assert(optional_line("TITLE:"@, o, true) =~= Seq::<Seq<char>>::empty());
        },
    }
}

/// The birthday line, when there is one, sets the birthday.
#[verifier::rlimit(80)]
proof fn lemma_bday_line(c0: ContactView, o: Option<Seq<char>>)
    requires
        o matches Some(v) ==> ends_clean(v),
        c0.birthday is None,
    ensures
        apply_all(c0, optional_line("BDAY:"@, o, false)) == (ContactView { birthday: o, ..c0 }),
{
    lemma_names();
    lemma_line_literals();
    match o {
        Some(v) => {
            assert(optional_line("BDAY:"@, o, false) =~= seq!["BDAY:"@ + v]);
            lemma_apply_one(c0, "BDAY:"@ + v);
            assert("BDAY:"@ + v =~= "BDAY"@ + seq![':'] + v);
            lemma_plain_line(c0, "BDAY"@, v);
        },
        None => {
            assert(optional_line("BDAY:"@, o, false) =~= Seq::<Seq<char>>::empty());
        },
    }
}

/// The note line, when there is one, sets the note.
#[verifier::rlimit(80)]
proof fn lemma_note_line(c0: ContactView, o: Option<Seq<char>>)
    requires
        o matches Some(v) ==> line_value_ok(v),
        c0.notes is None,
    ensures
        apply_all(c0, optional_line("NOTE:"@, o, true)) == (ContactView { notes: o, ..c0 }),
{
    lemma_names();
    lemma_line_literals();
    match o {
        Some(v) => {
            let w = encode_value(v);
            assert(optional_line("NOTE:"@, o, true) =~= seq!["NOTE:"@ + w]);
            lemma_apply_one(c0, "NOTE:"@ + w);
            assert("NOTE:"@ + w =~= "NOTE"@ + seq![':'] + w);
            lemma_plain_line(c0, "NOTE"@, w);
        },
        None => {
            assert(optional_line("NOTE:"@, o, true) =~= Seq::<Seq<char>>::empty());
        },
    }
}

/// The last line changes nothing.
proof fn lemma_end_line(c0: ContactView)
    ensures
        apply_all(c0, seq!["END:VCARD"@]) == c0,
{
    lemma_names();
    lemma_line_literals();
    lemma_apply_one(c0, "END:VCARD"@);
    lemma_ignored_line(c0, "END"@, "VCARD"@);
}


/// Reading the lines of a writable contact's vCard gives the contact as it
/// reads back.
#[verifier::rlimit(80)]
proof fn lemma_read_written_lines(c: ContactView)
    requires
        writable(c),
    ensures
        read_lines(vcard_lines(c)) == read_back(c),
{
    let e = empty_contact();
    let h = head_lines(c);
    let n = optional_line("NICKNAME:"@, c.nickname, true);
    let em = c.emails.map_values(|x: EntryView| entry_line("EMAIL"@, x));
    let ph = c.phones.map_values(|x: EntryView| entry_line("TEL"@, x));
    let ad = c.addresses.map_values(|a: AddressView| address_line(a));
    let o = optional_line("ORG:"@, c.organization, true);
    let t = optional_line("TITLE:"@, c.title, true);
    let b = optional_line("BDAY:"@, c.birthday, false);
    let no = optional_line("NOTE:"@, c.notes, true);
    let z = seq!["END:VCARD"@];
    let x2 = h + n;
    let x3 = x2 + em;
    let x4 = x3 + ph;
    let x5 = x4 + ad;
    let x6 = x5 + o;
    let x7 = x6 + t;
    let x8 = x7 + b;
    let x9 = x8 + no;
    assert(vcard_lines(c) == x9 + z);
    lemma_read_lines_apply_all(x9 + z);
    lemma_apply_all_concat(e, x9, z);
    lemma_apply_all_concat(e, x8, no);
    lemma_apply_all_concat(e, x7, b);
    lemma_apply_all_concat(e, x6, t);
    lemma_apply_all_concat(e, x5, o);
    lemma_apply_all_concat(e, x4, ad);
    lemma_apply_all_concat(e, x3, ph);
    lemma_apply_all_concat(e, x2, em);
    lemma_apply_all_concat(e, h, n);
    lemma_head(c);
    let c1 = apply_all(e, h);
    lemma_nickname_line(c1, c.nickname);
    let c2 = apply_all(c1, n);
    assert(c2.emails =~= Seq::<EntryView>::empty());
    lemma_email_lines(c2, c.emails);
    let c3 = apply_all(c2, em);
    assert(c3.emails =~= c.emails.map_values(|x: EntryView| read_back_entry(x)));
    lemma_tel_lines(c3, c.phones);
    let c4 = apply_all(c3, ph);
    assert(c4.phones =~= c.phones.map_values(|x: EntryView| read_back_entry(x)));
    lemma_adr_lines(c4, c.addresses);
    let c5 = apply_all(c4, ad);
    assert(c5.addresses =~= c.addresses.map_values(|a: AddressView| read_back_address(a)));
    lemma_org_line(c5, c.organization);
    let c6 = apply_all(c5, o);
    lemma_title_line(c6, c.title);
    let c7 = apply_all(c6, t);
    lemma_bday_line(c7, c.birthday);
    let c8 = apply_all(c7, b);
    lemma_note_line(c8, c.notes);
    let c9 = apply_all(c8, no);
    lemma_end_line(c9);
    assert(c9 == read_back(c));
}


// ── The vCard is made of whole lines ────────────────────────────────────────

/// No line holds a newline.
pub open spec fn one_lines(ls: Seq<Seq<char>>) -> bool {
    forall|i: int| 0 <= i < ls.len() ==> !(#[trigger] ls[i]).contains('\n')
}

proof fn lemma_one_lines_concat(a: Seq<Seq<char>>, b: Seq<Seq<char>>)
    requires
        one_lines(a),
        one_lines(b),
    ensures
        one_lines(a + b),
{
    assert forall|i: int| 0 <= i < (a + b).len() implies !(#[trigger] (a + b)[i]).contains('\n') by {
        if i < a.len() {
            assert((a + b)[i] == a[i]);
        } else {
            assert((a + b)[i] == b[i - a.len()]);
        }
    }
}

/// A property line without parameters is one line when its value is.
proof fn lemma_plain_line_lacks(name: Seq<char>, v: Seq<char>)
    requires
        capital_name(name),
        !v.contains('\n'),
    ensures
        !(name + seq![':'] + v).contains('\n'),
{
    lemma_capital_name(name);
    lemma_lacks_single(':', '\n');
    lemma_lacks_concat(name, seq![':'], '\n');
    lemma_lacks_concat(name + seq![':'], v, '\n');
}

/// An optional line is one line when its value is.
proof fn lemma_optional_one_line(name: Seq<char>, prefix: Seq<char>, o: Option<Seq<char>>, escaped: bool)
    requires
        capital_name(name),
        prefix == name + seq![':'],
        !escaped ==> (o matches Some(v) ==> !v.contains('\n')),
    ensures
        one_lines(optional_line(prefix, o, escaped)),
{
    match o {
        Some(v) => {
            let w = if escaped { encode_value(v) } else { v };
            lemma_encoded(v);
            lemma_plain_line_lacks(name, w);
            assert(optional_line(prefix, o, escaped) =~= seq![name + seq![':'] + w]);
        },
        None => {},
    }
}

/// The lines of entries are one line each.
proof fn lemma_entries_one_line(name: Seq<char>, es: Seq<EntryView>)
    requires
        capital_name(name),
        forall|i: int| 0 <= i < es.len() ==> entry_ok(#[trigger] es[i]),
    ensures
        one_lines(es.map_values(|e: EntryView| entry_line(name, e))),
{
    lemma_names();
    let ls = es.map_values(|e: EntryView| entry_line(name, e));
    assert forall|i: int| 0 <= i < ls.len() implies !(#[trigger] ls[i]).contains('\n') by {
        let e = es[i];
        assert(entry_ok(e));
        lemma_entry_params(name, e.kind, e.primary);
        let np = name + type_part(e.kind) + pref_part(e.primary);
        lemma_lacks_single(':', '\n');
        lemma_lacks_concat(np, seq![':'], '\n');
        lemma_lacks_concat(np + seq![':'], e.value, '\n');
        assert(ls[i] == entry_line(name, e));
        assert(entry_line(name, e) =~= np + seq![':'] + e.value);
    }
}

/// The lines of postal addresses are one line each.
proof fn lemma_addresses_one_line(xs: Seq<AddressView>)
    requires
        forall|i: int| 0 <= i < xs.len() ==> address_ok(#[trigger] xs[i]),
    ensures
        one_lines(xs.map_values(|a: AddressView| address_line(a))),
{
    let ls = xs.map_values(|a: AddressView| address_line(a));
    assert forall|i: int| 0 <= i < ls.len() implies !(#[trigger] ls[i]).contains('\n') by {
        assert(address_ok(xs[i]));
        lemma_adr_line_one_line(xs[i]);
    }
}

/// The head of a vCard is made of whole lines.
#[verifier::rlimit(80)]
proof fn lemma_head_one_lines(c: ContactView)
    requires
        !c.id.contains('\n'),
        component_ok(c.family_name),
        component_ok(c.given_name),
    ensures
        one_lines(head_lines(c)),
{
    lemma_names();
    lemma_line_literals();
    assert(capital_name("VCARD"@));
    lemma_capital_name("VCARD"@);
    let three = "3.0"@;
    assert(!three.contains('\n')) by {
        if three.contains('\n') {
            let i = choose|i: int| 0 <= i < three.len() && three[i] == '\n';
        }
    }
    lemma_plain_line_lacks("BEGIN"@, "VCARD"@);
    lemma_plain_line_lacks("VERSION"@, three);
    lemma_plain_line_lacks("UID"@, c.id);
    lemma_encoded(c.full_name);
    lemma_plain_line_lacks("FN"@, encode_value(c.full_name));
    lemma_part_shape(c.family_name);
    lemma_part_shape(c.given_name);
    let ef = encode_opt(c.family_name);
    let eg = encode_opt(c.given_name);
    let semi = seq![';'];
    lemma_lacks_single(';', '\n');
    let v = ef + semi + eg + (semi + semi + semi);
    lemma_lacks_concat(ef, semi, '\n');
    lemma_lacks_concat(ef + semi, eg, '\n');
    lemma_lacks_concat(semi, semi, '\n');
    lemma_lacks_concat(semi + semi, semi, '\n');
    lemma_lacks_concat(ef + semi + eg, semi + semi + semi, '\n');
    lemma_plain_line_lacks("N"@, v);
    let h = head_lines(c);
    assert(h[0] == "BEGIN"@ + seq![':'] + "VCARD"@);
    assert(h[1] == "VERSION"@ + seq![':'] + three);
    assert(h[2] =~= "UID"@ + seq![':'] + c.id);
    assert(h[3] =~= "FN"@ + seq![':'] + encode_value(c.full_name));
    assert(h[4] =~= "N"@ + seq![':'] + v);
}

/// The lines of a writable contact's vCard hold no newline, and the last is
/// not empty.
#[verifier::rlimit(80)]
proof fn lemma_written_one_lines(c: ContactView)
    requires
        writable(c),
    ensures
        one_lines(vcard_lines(c)),
        vcard_lines(c).last().len() > 0,
{
    lemma_names();
    lemma_line_literals();
    let h = head_lines(c);
    let n = optional_line("NICKNAME:"@, c.nickname, true);
    let em = c.emails.map_values(|x: EntryView| entry_line("EMAIL"@, x));
    let ph = c.phones.map_values(|x: EntryView| entry_line("TEL"@, x));
    let ad = c.addresses.map_values(|a: AddressView| address_line(a));
    let o = optional_line("ORG:"@, c.organization, true);
    let t = optional_line("TITLE:"@, c.title, true);
    let b = optional_line("BDAY:"@, c.birthday, false);
    let no = optional_line("NOTE:"@, c.notes, true);
    let z = seq!["END:VCARD"@];
    lemma_head_one_lines(c);
    lemma_optional_one_line("NICKNAME"@, "NICKNAME:"@, c.nickname, true);
    assert(capital_name("EMAIL"@));
    assert(capital_name("TEL"@));
    lemma_entries_one_line("EMAIL"@, c.emails);
    lemma_entries_one_line("TEL"@, c.phones);
    lemma_addresses_one_line(c.addresses);
    lemma_optional_one_line("ORG"@, "ORG:"@, c.organization, true);
    lemma_optional_one_line("TITLE"@, "TITLE:"@, c.title, true);
    lemma_optional_one_line("BDAY"@, "BDAY:"@, c.birthday, false);
    lemma_optional_one_line("NOTE"@, "NOTE:"@, c.notes, true);
    assert(capital_name("VCARD"@));
    lemma_capital_name("VCARD"@);
    lemma_plain_line_lacks("END"@, "VCARD"@);
    assert(one_lines(z));
    lemma_one_lines_concat(h, n);
    lemma_one_lines_concat(h + n, em);
    lemma_one_lines_concat(h + n + em, ph);
    lemma_one_lines_concat(h + n + em + ph, ad);
    lemma_one_lines_concat(h + n + em + ph + ad, o);
    lemma_one_lines_concat(h + n + em + ph + ad + o, t);
    lemma_one_lines_concat(h + n + em + ph + ad + o + t, b);
    lemma_one_lines_concat(h + n + em + ph + ad + o + t + b, no);
    lemma_one_lines_concat(h + n + em + ph + ad + o + t + b + no, z);
    assert(vcard_lines(c) == h + n + em + ph + ad + o + t + b + no + z);
    assert(vcard_lines(c).last() == "END:VCARD"@);
}

// ── No line of the vCard is folded ─────────────────────────────────────────

/// A line that starts with a capital letter and does not end in white
/// space: it is not folded and is its own trim.
pub open spec fn clean_line(l: Seq<char>) -> bool {
    l.len() > 0 && 'A' <= l[0] && l[0] <= 'Z' && ends_clean(l)
}

/// Every line is clean.
pub open spec fn clean_lines(ls: Seq<Seq<char>>) -> bool {
    forall|i: int| 0 <= i < ls.len() ==> clean_line(#[trigger] ls[i])
}

proof fn lemma_clean_lines_concat(a: Seq<Seq<char>>, b: Seq<Seq<char>>)
    requires
        clean_lines(a),
        clean_lines(b),
    ensures
        clean_lines(a + b),
{
    assert forall|i: int| 0 <= i < (a + b).len() implies clean_line(#[trigger] (a + b)[i]) by {
        if i < a.len() {
            assert((a + b)[i] == a[i]);
        } else {
            assert((a + b)[i] == b[i - a.len()]);
        }
    }
}

/// A name part, a colon and a value that does not end in white space make
/// a clean line.
proof fn lemma_clean_join(np: Seq<char>, v: Seq<char>)
    requires
        np.len() > 0,
        'A' <= np[0] && np[0] <= 'Z',
        ends_clean(v),
    ensures
        clean_line(np + seq![':'] + v),
{
    let l = np + seq![':'] + v;
    assert(l[0] == np[0]);
    if v.len() > 0 {
        assert(l.last() == v.last());
    } else {
        assert(l.last() == ':');
    }
}

/// Clean lines are left as they are by unfolding.
proof fn lemma_unfold_clean(ls: Seq<Seq<char>>)
    requires
        clean_lines(ls),
    ensures
        unfold(ls) == ls,
    decreases ls.len(),
{
    if ls.len() > 0 {
        let d = ls.drop_last();
        assert forall|i: int| 0 <= i < d.len() implies clean_line(#[trigger] d[i]) by {
            assert(d[i] == ls[i]);
        }
        lemma_unfold_clean(d);
        let l = ls.last();
        assert(clean_line(ls[ls.len() - 1]));
        assert(!is_folded(l));
        text::lemma_trim_unchanged(l);
        assert(d.push(l) =~= ls);
    } else {
        assert(ls =~= Seq::<Seq<char>>::empty());
    }
}

/// A line without parameters whose value does not end in white space is
/// clean.
proof fn lemma_plain_clean(name: Seq<char>, v: Seq<char>)
    requires
        capital_name(name),
        ends_clean(v),
    ensures
        clean_line(name + seq![':'] + v),
{
    assert('A' <= name[0] && name[0] <= 'Z');
    lemma_clean_join(name, v);
}

/// An optional line is clean when its value does not end in white space.
proof fn lemma_optional_clean(name: Seq<char>, prefix: Seq<char>, o: Option<Seq<char>>, escaped: bool)
    requires
        capital_name(name),
        prefix == name + seq![':'],
        o matches Some(v) ==> ends_clean(if escaped { encode_value(v) } else { v }),
    ensures
        clean_lines(optional_line(prefix, o, escaped)),
{
    match o {
        Some(v) => {
            let w = if escaped { encode_value(v) } else { v };
            lemma_plain_clean(name, w);
            assert(optional_line(prefix, o, escaped) =~= seq![name + seq![':'] + w]);
        },
        None => {},
    }
}

/// The head of a vCard is clean.
#[verifier::rlimit(80)]
proof fn lemma_head_clean(c: ContactView)
    requires
        ends_clean(c.id),
        line_value_ok(c.full_name),
    ensures
        clean_lines(head_lines(c)),
{
    lemma_names();
    lemma_line_literals();
    let three = "3.0"@;
    lemma_plain_clean("BEGIN"@, "VCARD"@);
    lemma_plain_clean("VERSION"@, three);
    lemma_plain_clean("UID"@, c.id);
    lemma_plain_clean("FN"@, encode_value(c.full_name));
    let ef = encode_opt(c.family_name);
    let eg = encode_opt(c.given_name);
    let semi = seq![';'];
    let v = ef + semi + eg + (semi + semi + semi);
    assert(v.last() == ';');
    lemma_plain_clean("N"@, v);
    let h = head_lines(c);
    assert(h[0] == "BEGIN"@ + seq![':'] + "VCARD"@);
    assert(h[1] == "VERSION"@ + seq![':'] + three);
    assert(h[2] =~= "UID"@ + seq![':'] + c.id);
    assert(h[3] =~= "FN"@ + seq![':'] + encode_value(c.full_name));
    assert(h[4] =~= "N"@ + seq![':'] + v);
}

/// The lines of entries are clean.
proof fn lemma_entries_clean(name: Seq<char>, es: Seq<EntryView>)
    requires
        capital_name(name),
        forall|i: int| 0 <= i < es.len() ==> entry_ok(#[trigger] es[i]),
    ensures
        clean_lines(es.map_values(|e: EntryView| entry_line(name, e))),
{
    lemma_names();
    let ls = es.map_values(|e: EntryView| entry_line(name, e));
    assert forall|i: int| 0 <= i < ls.len() implies clean_line(#[trigger] ls[i]) by {
        let e = es[i];
        assert(entry_ok(e));
        let np = name + type_part(e.kind) + pref_part(e.primary);
        assert(np[0] == name[0]);
        lemma_clean_join(np, e.value);
        assert(ls[i] == entry_line(name, e));
        assert(entry_line(name, e) =~= np + seq![':'] + e.value);
    }
}

/// The lines of postal addresses are clean.
proof fn lemma_addresses_clean(xs: Seq<AddressView>)
    requires
        forall|i: int| 0 <= i < xs.len() ==> address_ok(#[trigger] xs[i]),
    ensures
        clean_lines(xs.map_values(|a: AddressView| address_line(a))),
{
    lemma_names();
    let ls = xs.map_values(|a: AddressView| address_line(a));
    assert forall|i: int| 0 <= i < ls.len() implies clean_line(#[trigger] ls[i]) by {
        let a = xs[i];
        assert(address_ok(a));
        let np = "ADR"@ + type_part(a.kind) + pref_part(a.primary);
        assert(np[0] == 'A');
        lemma_adr_shape(a);
        lemma_adr_comps(a);
        lemma_clean_join(np, adr_value(a));
        assert(ls[i] == address_line(a));
    }
}

/// The lines of a writable contact's vCard are clean.
#[verifier::rlimit(80)]
proof fn lemma_written_clean(c: ContactView)
    requires
        writable(c),
    ensures
        clean_lines(vcard_lines(c)),
{
    lemma_names();
    lemma_line_literals();
    let h = head_lines(c);
    let n = optional_line("NICKNAME:"@, c.nickname, true);
    let em = c.emails.map_values(|x: EntryView| entry_line("EMAIL"@, x));
    let ph = c.phones.map_values(|x: EntryView| entry_line("TEL"@, x));
    let ad = c.addresses.map_values(|a: AddressView| address_line(a));
    let o = optional_line("ORG:"@, c.organization, true);
    let t = optional_line("TITLE:"@, c.title, true);
    let b = optional_line("BDAY:"@, c.birthday, false);
    let no = optional_line("NOTE:"@, c.notes, true);
    let z = seq!["END:VCARD"@];
    lemma_head_clean(c);
    lemma_optional_clean("NICKNAME"@, "NICKNAME:"@, c.nickname, true);
    assert(capital_name("EMAIL"@));
    assert(capital_name("TEL"@));
    lemma_entries_clean("EMAIL"@, c.emails);
    lemma_entries_clean("TEL"@, c.phones);
    lemma_addresses_clean(c.addresses);
    lemma_optional_clean("ORG"@, "ORG:"@, c.organization, true);
    lemma_optional_clean("TITLE"@, "TITLE:"@, c.title, true);
    lemma_optional_clean("BDAY"@, "BDAY:"@, c.birthday, false);
    lemma_optional_clean("NOTE"@, "NOTE:"@, c.notes, true);
    lemma_plain_clean("END"@, "VCARD"@);
    assert(clean_lines(z));
    lemma_clean_lines_concat(h, n);
    lemma_clean_lines_concat(h + n, em);
    lemma_clean_lines_concat(h + n + em, ph);
    lemma_clean_lines_concat(h + n + em + ph, ad);
    lemma_clean_lines_concat(h + n + em + ph + ad, o);
    lemma_clean_lines_concat(h + n + em + ph + ad + o, t);
    lemma_clean_lines_concat(h + n + em + ph + ad + o + t, b);
    lemma_clean_lines_concat(h + n + em + ph + ad + o + t + b, no);
    lemma_clean_lines_concat(h + n + em + ph + ad + o + t + b + no, z);
    assert(vcard_lines(c) == h + n + em + ph + ad + o + t + b + no + z);
}

// ── The law ─────────────────────────────────────────────────────────────────

/// A contact written as a vCard reads back as it was, except for what the
/// card does not carry (photo, location, tag and raw text) and the type of a
/// preferred entry, which reads back empty: the `PREF` mark is read as the
/// entry's type. This holds for every contact whose values can be written
/// and read (see [`writable`]).
pub proof fn law_vcard_roundtrip(c: ContactView)
    requires
        writable(c),
    ensures
        read_vcard(write_vcard(c)) == read_back(c),
{
    lemma_written_one_lines(c);
    let ls = vcard_lines(c);
    assert forall|i: int| 0 <= i < ls.len() implies !(#[trigger] ls[i]).contains('\n') by {}
    text::lemma_lines_of_crlf_join(ls);
    lemma_written_clean(c);
    lemma_unfold_clean(ls);
    lemma_read_written_lines(c);
}

} // verus!
