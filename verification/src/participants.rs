//! Participant sets, participant keys and conversation identifiers.
use vstd::prelude::*;
use vstd::string::StringSliceAdditionalSpecFns;
use crate::text;
use crate::sorted_set;

verus! {

broadcast use vstd::string::group_string_axioms;

// ── Address normalization ───────────────────────────────────────────────────

/// `s` without its `'.'` characters.
pub open spec fn without_dots(s: Seq<char>) -> Seq<char> {
    s.filter(|c: char| c != '.')
}

/// Whether a domain is one of Gmail's, where dots in the local part do not
/// distinguish mailboxes.
pub open spec fn is_gmail_domain(d: Seq<char>) -> bool {
    d == "gmail.com"@ || d == "googlemail.com"@
}

/// The canonical form of an address: trimmed and lowercased, and for Gmail
/// domains without dots in the local part.
pub open spec fn normalized(addr: Seq<char>) -> Seq<char> {
    let t = text::lowercase(text::trim(addr));
    let parts = text::split_char(t, '@');
    if parts.len() == 2 && is_gmail_domain(parts[1]) {
        without_dots(parts[0]) + seq!['@'] + parts[1]
    } else {
        t
    }
}

fn without_dots_exec(s: &[char]) -> (r: Vec<char>)
    ensures
        r@ == without_dots(s@),
{
    let mut r: Vec<char> = Vec::new();
    let mut i: usize = 0;
    while i < s.len()
        invariant
            i <= s@.len(),
            r@ == without_dots(s@.take(i as int)),
        decreases s@.len() - i,
    {
        proof {
            assert(s@.take(i + 1).drop_last() =~= s@.take(i as int));
            s@.take(i + 1).filter_lemma(|c: char| c != '.');
            reveal_with_fuel(Seq::filter, 1);
        }
        if s[i] != '.' {
            r.push(s[i]);
        }
        i += 1;
    }
    assert(s@.take(s@.len() as int) =~= s@);
    r
}

/// Canonical form of an email address (see [`normalized`]).
pub fn normalize_email(addr: &str) -> (r: String)
    ensures
        r@ == normalized(addr@),
{
    let a = text::str_chars(addr);
    let t = text::trim_chars(a.as_slice());
    let ts = text::chars_to_string(t.as_slice());
    let lower = text::to_lowercase(ts.as_str());
    let l = text::string_chars(&lower);
    let parts = text::split_char_exec(l.as_slice(), '@');
    if parts.len() == 2 {
        let gmail = text::str_chars("gmail.com");
        let googlemail = text::str_chars("googlemail.com");
        assert(text::seqs_of(parts@)[1] == parts@[1]@);
        assert(text::seqs_of(parts@)[0] == parts@[0]@);
        if text::chars_eq(parts[1].as_slice(), gmail.as_slice()) || text::chars_eq(parts[1].as_slice(), googlemail.as_slice()) {
            let mut r = without_dots_exec(parts[0].as_slice());
            r.push('@');
            text::append_chars(&mut r, parts[1].as_slice());
            return text::chars_to_string(r.as_slice());
        }
    }
    lower
}

// ── Self addresses ──────────────────────────────────────────────────────────

/// The views of a slice of strings.
pub open spec fn views(v: Seq<String>) -> Seq<Seq<char>> {
    v.map_values(|s: String| s@)
}

/// `addr` equals one of the self addresses, ignoring ASCII case.
pub open spec fn is_self_ascii(addr: Seq<char>, selfs: Seq<Seq<char>>) -> bool {
    exists|i: int| 0 <= i < selfs.len() && text::eq_ignore_ascii_case(#[trigger] selfs[i], addr)
}

/// `addr` has the canonical form of one of the self addresses.
pub open spec fn is_self_normalized(addr: Seq<char>, selfs: Seq<Seq<char>>) -> bool {
    exists|i: int| 0 <= i < selfs.len() && normalized(#[trigger] selfs[i]) == normalized(addr)
}

/// Whether `addr` is one of the account's own addresses, ignoring ASCII case.
pub fn is_self_ascii_exec(addr: &[char], self_emails: &[String]) -> (r: bool)
    ensures
        r == is_self_ascii(addr@, views(self_emails@)),
{
    let mut i: usize = 0;
    while i < self_emails.len()
        invariant
            i <= self_emails@.len(),
            forall|j: int| 0 <= j < i ==> !text::eq_ignore_ascii_case(#[trigger] views(self_emails@)[j], addr@),
        decreases self_emails@.len() - i,
    {
        let s = text::string_chars(&self_emails[i]);
        assert(views(self_emails@)[i as int] == s@);
        if text::eq_ignore_ascii_case_chars(s.as_slice(), addr) {
            return true;
        }
        i += 1;
    }
    false
}

/// Whether `addr` has the canonical form of one of the account's addresses.
pub fn is_self_normalized_exec(addr: &str, self_emails: &[String]) -> (r: bool)
    ensures
        r == is_self_normalized(addr@, views(self_emails@)),
{
    let n = normalize_email(addr);
    let nc = text::string_chars(&n);
    let mut i: usize = 0;
    while i < self_emails.len()
        invariant
            i <= self_emails@.len(),
            nc@ == normalized(addr@),
            forall|j: int| 0 <= j < i ==> normalized(#[trigger] views(self_emails@)[j]) != normalized(addr@),
        decreases self_emails@.len() - i,
    {
        let s = normalize_email(self_emails[i].as_str());
        let sc = text::string_chars(&s);
        assert(views(self_emails@)[i as int] == self_emails@[i as int]@);
        if text::chars_eq(sc.as_slice(), nc.as_slice()) {
            return true;
        }
        i += 1;
    }
    false
}

// ── Participant sets ────────────────────────────────────────────────────────

/// How addresses are compared when collecting participants.
pub enum AddressRule {
    /// Lowercased addresses; self addresses match ignoring ASCII case.
    Lowercase,
    /// Canonical addresses ([`normalized`]); self addresses match by
    /// canonical form.
    Normalized,
}

/// The form an address takes in a participant set.
pub open spec fn address_form(rule: AddressRule, a: Seq<char>) -> Seq<char> {
    match rule {
        AddressRule::Lowercase => text::lowercase(a),
        AddressRule::Normalized => normalized(a),
    }
}

/// Whether an address (in its participant form) is the account's own.
pub open spec fn is_own(rule: AddressRule, form: Seq<char>, selfs: Seq<Seq<char>>) -> bool {
    match rule {
        AddressRule::Lowercase => is_self_ascii(form, selfs),
        AddressRule::Normalized => is_self_normalized(form, selfs),
    }
}

/// `y` is a participant among `addrs`: the form of one of them that is not
/// the account's own.
pub open spec fn is_participant(rule: AddressRule, addrs: Seq<Seq<char>>, selfs: Seq<Seq<char>>, y: Seq<char>) -> bool {
    exists|i: int| 0 <= i < addrs.len() && y == address_form(rule, #[trigger] addrs[i])
        && !is_own(rule, y, selfs)
}

/// All addresses of a message: sender, then To, then Cc.
pub open spec fn message_addresses(from: Seq<char>, to: Seq<Seq<char>>, cc: Seq<Seq<char>>) -> Seq<Seq<char>> {
    seq![from] + to + cc
}

/// The participant form of one address, and whether it is the account's own.
fn address_form_exec(rule: &AddressRule, a: &str, self_emails: &[String]) -> (r: (Vec<char>, bool))
    ensures
        r.0@ == address_form(*rule, a@),
        r.1 == is_own(*rule, r.0@, views(self_emails@)),
{
    match rule {
        AddressRule::Lowercase => {
            let l = text::to_lowercase(a);
            let lc = text::string_chars(&l);
            let own = is_self_ascii_exec(lc.as_slice(), self_emails);
            (lc, own)
        },
        AddressRule::Normalized => {
            let n = normalize_email(a);
            let own = is_self_normalized_exec(n.as_str(), self_emails);
            (text::string_chars(&n), own)
        },
    }
}

/// `set` holds exactly the elements of `base` and the participants among `addrs`.
pub open spec fn holds_participants(
    set: Seq<Seq<char>>,
    base: Seq<Seq<char>>,
    rule: AddressRule,
    addrs: Seq<Seq<char>>,
    selfs: Seq<Seq<char>>,
) -> bool {
    forall|y: Seq<char>| #[trigger] set.contains(y) <==> (base.contains(y) || is_participant(rule, addrs, selfs, y))
}

/// Adds the participants among `addrs` to a strictly increasing set.
fn add_participants(
    set: &mut Vec<Vec<char>>,
    rule: &AddressRule,
    addrs: &[String],
    self_emails: &[String],
)
    requires
        sorted_set::sorted_strict(text::seqs_of(old(set)@)),
    ensures
        sorted_set::sorted_strict(text::seqs_of(final(set)@)),
        forall|y: Seq<char>| text::seqs_of(final(set)@).contains(y) <==> (text::seqs_of(old(set)@).contains(y)
            || is_participant(*rule, views(addrs@), views(self_emails@), y)),
{
    let ghost s0 = text::seqs_of(set@);
    let mut i: usize = 0;
    assert(holds_participants(s0, s0, *rule, views(addrs@).take(0), views(self_emails@)));
    while i < addrs.len()
        invariant
            i <= addrs@.len(),
            sorted_set::sorted_strict(text::seqs_of(set@)),
            holds_participants(text::seqs_of(set@), s0, *rule, views(addrs@).take(i as int), views(self_emails@)),
        decreases addrs@.len() - i,
    {
        let ghost prev = text::seqs_of(set@);
        let (form, own) = address_form_exec(rule, addrs[i].as_str(), self_emails);
        if !own {
            sorted_set::insert_sorted(set, form.as_slice());
        }
        assert(forall|y: Seq<char>| text::seqs_of(set@).contains(y) <==> (prev.contains(y) || (y == form@ && !own)));
        proof {
            let a = views(addrs@);
            assert(a.take(i + 1) =~= a.take(i as int).push(a[i as int]));
            assert forall|y: Seq<char>| is_participant(*rule, a.take(i + 1), views(self_emails@), y)
                <==> (is_participant(*rule, a.take(i as int), views(self_emails@), y)
                    || (y == form@ && !own)) by {
                if is_participant(*rule, a.take(i + 1), views(self_emails@), y) {
                    let k = choose|k: int| 0 <= k < a.take(i + 1).len() && y == address_form(*rule, #[trigger] a.take(i + 1)[k])
                        && !is_own(*rule, y, views(self_emails@));
                    if k < i {
                        assert(a.take(i as int)[k] == a.take(i + 1)[k]);
                    }
                }
                if is_participant(*rule, a.take(i as int), views(self_emails@), y) {
                    let k = choose|k: int| 0 <= k < a.take(i as int).len() && y == address_form(*rule, #[trigger] a.take(i as int)[k])
                        && !is_own(*rule, y, views(self_emails@));
                    assert(a.take(i + 1)[k] == a.take(i as int)[k]);
                }
                if y == form@ && !own {
                    assert(a.take(i + 1)[i as int] == addrs@[i as int]@);
                }
            }
            assert forall|y: Seq<char>| #[trigger] text::seqs_of(set@).contains(y) <==> (s0.contains(y)
                || is_participant(*rule, a.take(i + 1), views(self_emails@), y)) by {
                assert(text::seqs_of(set@).contains(y) <==> (prev.contains(y) || (y == form@ && !own)));
                assert(prev.contains(y) <==> (s0.contains(y)
                    || is_participant(*rule, a.take(i as int), views(self_emails@), y)));
            }
            assert(holds_participants(text::seqs_of(set@), s0, *rule, a.take(i + 1), views(self_emails@)));
        }
        i += 1;
    }
    assert(views(addrs@).take(addrs@.len() as int) =~= views(addrs@));
}

/// The participants of one message: the forms of its sender, To and Cc
/// addresses that are not the account's own, as a strictly increasing list.
pub fn collect_participants_with(
    rule: &AddressRule,
    from: &str,
    to: &[String],
    cc: &[String],
    self_emails: &[String],
) -> (r: Vec<Vec<char>>)
    ensures
        sorted_set::sorted_strict(text::seqs_of(r@)),
        forall|y: Seq<char>| text::seqs_of(r@).contains(y) <==> is_participant(
            *rule,
            message_addresses(from@, views(to@), views(cc@)),
            views(self_emails@),
            y,
        ),
{
    let mut set: Vec<Vec<char>> = Vec::new();
    assert(text::seqs_of(set@) =~= Seq::<Seq<char>>::empty());
    let (form, own) = address_form_exec(rule, from, self_emails);
    if !own {
        sorted_set::insert_sorted(&mut set, form.as_slice());
    }
    add_participants(&mut set, rule, to, self_emails);
    add_participants(&mut set, rule, cc, self_emails);
    proof {
        let all = message_addresses(from@, views(to@), views(cc@));
        let selfs = views(self_emails@);
        assert forall|y: Seq<char>| is_participant(*rule, all, selfs, y) <==> (
            (y == form@ && !own) || is_participant(*rule, views(to@), selfs, y)
                || is_participant(*rule, views(cc@), selfs, y)) by {
            let nt = views(to@).len();
            if is_participant(*rule, all, selfs, y) {
                let k = choose|k: int| 0 <= k < all.len() && y == address_form(*rule, #[trigger] all[k])
                    && !is_own(*rule, y, selfs);
                if k == 0 {
                } else if k < 1 + nt {
                    assert(views(to@)[k - 1] == all[k]);
                } else {
                    assert(views(cc@)[k - 1 - nt] == all[k]);
                }
            }
            if is_participant(*rule, views(to@), selfs, y) {
                let k = choose|k: int| 0 <= k < views(to@).len() && y == address_form(*rule, #[trigger] views(to@)[k])
                    && !is_own(*rule, y, selfs);
                assert(all[k + 1] == views(to@)[k]);
            }
            if is_participant(*rule, views(cc@), selfs, y) {
                let k = choose|k: int| 0 <= k < views(cc@).len() && y == address_form(*rule, #[trigger] views(cc@)[k])
                    && !is_own(*rule, y, selfs);
                assert(all[k + 1 + nt] == views(cc@)[k]);
            }
            if y == form@ && !own {
                assert(all[0] == from@);
            }
        }
    }
    set
}


// ── Participant keys ────────────────────────────────────────────────────────

/// `y` belongs to the participant key of a message with addresses `all`: it
/// is the canonical form of one of them, and no self address has that
/// canonical form.
pub open spec fn key_member(all: Seq<Seq<char>>, selfs: Seq<Seq<char>>, y: Seq<char>) -> bool {
    &&& exists|i: int| 0 <= i < all.len() && y == normalized(#[trigger] all[i])
    &&& forall|j: int| 0 <= j < selfs.len() ==> normalized(#[trigger] selfs[j]) != y
}

/// The participant key built from a strictly increasing member list.
pub open spec fn key_text(members: Seq<Seq<char>>) -> Seq<char> {
    if members.len() == 0 {
        "__self__"@
    } else {
        text::join(members, seq!['\n'])
    }
}

/// Adds the canonical forms of `addrs` that are not self forms to a strictly
/// increasing set.
fn add_key_members(set: &mut Vec<Vec<char>>, addrs: &[String], selfs_norm: &Vec<Vec<char>>, Ghost(selfs): Ghost<Seq<Seq<char>>>)
    requires
        sorted_set::sorted_strict(text::seqs_of(old(set)@)),
        selfs_norm@.len() == selfs.len(),
        forall|j: int| 0 <= j < selfs.len() ==> #[trigger] selfs_norm@[j]@ == normalized(selfs[j]),
    ensures
        sorted_set::sorted_strict(text::seqs_of(final(set)@)),
        forall|y: Seq<char>| #[trigger] text::seqs_of(final(set)@).contains(y) <==> (text::seqs_of(old(set)@).contains(y)
            || key_member(views(addrs@), selfs, y)),
{
    let ghost s0 = text::seqs_of(set@);
    let mut i: usize = 0;
    while i < addrs.len()
        invariant
            i <= addrs@.len(),
            selfs_norm@.len() == selfs.len(),
            forall|j: int| 0 <= j < selfs.len() ==> #[trigger] selfs_norm@[j]@ == normalized(selfs[j]),
            sorted_set::sorted_strict(text::seqs_of(set@)),
            forall|y: Seq<char>| #[trigger] text::seqs_of(set@).contains(y) <==> (s0.contains(y)
                || key_member(views(addrs@).take(i as int), selfs, y)),
        decreases addrs@.len() - i,
    {
        let ghost prev = text::seqs_of(set@);
        let n = normalize_email(addrs[i].as_str());
        let nc = text::string_chars(&n);
        let mut is_self = false;
        let mut j: usize = 0;
        while j < selfs_norm.len()
            invariant
                j <= selfs_norm@.len(),
                selfs_norm@.len() == selfs.len(),
                forall|k: int| 0 <= k < selfs.len() ==> #[trigger] selfs_norm@[k]@ == normalized(selfs[k]),
                is_self == (exists|k: int| 0 <= k < j && normalized(#[trigger] selfs[k]) == nc@),
            decreases selfs_norm@.len() - j,
        {
            if text::chars_eq(selfs_norm[j].as_slice(), nc.as_slice()) {
                is_self = true;
            }
            j += 1;
        }
        if !is_self {
            sorted_set::insert_sorted(set, nc.as_slice());
        }
        proof {
            let a = views(addrs@);
            assert(a.take(i + 1) =~= a.take(i as int).push(a[i as int]));
            assert(a[i as int] == addrs@[i as int]@);
            assert forall|y: Seq<char>| #[trigger] text::seqs_of(set@).contains(y) <==> (s0.contains(y)
                || key_member(a.take(i + 1), selfs, y)) by {
                assert(prev.contains(y) <==> (s0.contains(y) || key_member(a.take(i as int), selfs, y)));
                if key_member(a.take(i + 1), selfs, y) {
                    let k = choose|k: int| 0 <= k < a.take(i + 1).len() && y == normalized(#[trigger] a.take(i + 1)[k]);
                    if k < i {
                        assert(a.take(i as int)[k] == a.take(i + 1)[k]);
                    }
                }
                if key_member(a.take(i as int), selfs, y) {
                    let k = choose|k: int| 0 <= k < a.take(i as int).len() && y == normalized(#[trigger] a.take(i as int)[k]);
                    assert(a.take(i + 1)[k] == a.take(i as int)[k]);
                }
                if y == nc@ && !is_self {
                    assert(a.take(i + 1)[i as int] == a[i as int]);
                }
            }
        }
        i += 1;
    }
    assert(views(addrs@).take(addrs@.len() as int) =~= views(addrs@));
}

/// The members of a participant key, in increasing order: the canonical
/// forms of the addresses that are not canonical forms of a self address.
pub open spec fn key_members_of(all: Seq<Seq<char>>, selfs: Seq<Seq<char>>) -> Seq<Seq<char>> {
    sorted_members(Set::new(|y: Seq<char>| key_member(all, selfs, y)))
}

/// The members of a set of texts in strictly increasing order.
pub open spec fn sorted_members(s: Set<Seq<char>>) -> Seq<Seq<char>> {
    choose|m: Seq<Seq<char>>| sorted_set::sorted_strict(m) && forall|y: Seq<char>| #[trigger] m.contains(y) <==> s.contains(y)
}

/// The participant key, and with it the conversation, depends only on which
/// addresses a message has: the order of the addresses, repeats, and which
/// of sender, `To` or `Cc` holds them do not matter.
pub proof fn law_participant_key_address_set(
    from1: Seq<char>, to1: Seq<Seq<char>>, cc1: Seq<Seq<char>>,
    from2: Seq<char>, to2: Seq<Seq<char>>, cc2: Seq<Seq<char>>,
    selfs: Seq<Seq<char>>,
)
    requires
        forall|a: Seq<char>| message_addresses(from1, to1, cc1).contains(a) <==> message_addresses(from2, to2, cc2).contains(a),
    ensures
        participant_key_of(from1, to1, cc1, selfs) == participant_key_of(from2, to2, cc2, selfs),
        crate::digest::short_digest_id(participant_key_of(from1, to1, cc1, selfs))
            == crate::digest::short_digest_id(participant_key_of(from2, to2, cc2, selfs)),
{
    let a1 = message_addresses(from1, to1, cc1);
    let a2 = message_addresses(from2, to2, cc2);
    assert forall|y: Seq<char>| key_member(a1, selfs, y) == key_member(a2, selfs, y) by {
        if key_member(a1, selfs, y) {
            let i = choose|i: int| 0 <= i < a1.len() && y == normalized(#[trigger] a1[i]);
            assert(a1.contains(a1[i]));
            assert(a2.contains(a1[i]));
            let j = choose|j: int| 0 <= j < a2.len() && a2[j] == a1[i];
            assert(y == normalized(a2[j]));
        }
        if key_member(a2, selfs, y) {
            let i = choose|i: int| 0 <= i < a2.len() && y == normalized(#[trigger] a2[i]);
            assert(a2.contains(a2[i]));
            assert(a1.contains(a2[i]));
            let j = choose|j: int| 0 <= j < a1.len() && a1[j] == a2[i];
            assert(y == normalized(a1[j]));
        }
    }
    assert(Set::new(|y: Seq<char>| key_member(a1, selfs, y)) =~= Set::new(|y: Seq<char>| key_member(a2, selfs, y)));
}

/// The participant key of a message with these sender, To and Cc addresses.
pub open spec fn participant_key_of(from: Seq<char>, to: Seq<Seq<char>>, cc: Seq<Seq<char>>, selfs: Seq<Seq<char>>) -> Seq<char> {
    key_text(key_members_of(message_addresses(from, to, cc), selfs))
}

/// The participant key of a message: the canonical forms of its sender, To
/// and Cc addresses, without those that are canonical forms of a self
/// address, sorted, deduplicated and joined with newlines; `"__self__"` when
/// none is left.
pub fn compute_participant_key(from: &str, to: &[String], cc: &[String], self_emails: &[String]) -> (r: String)
    ensures
        r@ == participant_key_of(from@, views(to@), views(cc@), views(self_emails@)),
{
    let ghost selfs = views(self_emails@);
    let mut selfs_norm: Vec<Vec<char>> = Vec::new();
    let mut k: usize = 0;
    while k < self_emails.len()
        invariant
            k <= self_emails@.len(),
            selfs == views(self_emails@),
            selfs_norm@.len() == k,
            forall|j: int| 0 <= j < k ==> #[trigger] selfs_norm@[j]@ == normalized(selfs[j]),
        decreases self_emails@.len() - k,
    {
        let n = normalize_email(self_emails[k].as_str());
        selfs_norm.push(text::string_chars(&n));
        k += 1;
    }
    let mut set: Vec<Vec<char>> = Vec::new();
    assert(text::seqs_of(set@) =~= Seq::<Seq<char>>::empty());
    let from_vec: Vec<String> = vec![String::from_str(from)];
    assert(views(from_vec@) =~= seq![from@]);
    add_key_members(&mut set, from_vec.as_slice(), &selfs_norm, Ghost(selfs));
    add_key_members(&mut set, to, &selfs_norm, Ghost(selfs));
    add_key_members(&mut set, cc, &selfs_norm, Ghost(selfs));
    let ghost members = text::seqs_of(set@);
    proof {
        let all = message_addresses(from@, views(to@), views(cc@));
        let nt = views(to@).len();
        assert forall|y: Seq<char>| #[trigger] members.contains(y) <==> key_member(all, selfs, y) by {
            if key_member(all, selfs, y) {
                let i = choose|i: int| 0 <= i < all.len() && y == normalized(#[trigger] all[i]);
                if i == 0 {
                    assert(views(from_vec@)[0] == all[0]);
                } else if i < 1 + nt {
                    assert(views(to@)[i - 1] == all[i]);
                } else {
                    assert(views(cc@)[i - 1 - nt] == all[i]);
                }
            }
            if key_member(views(from_vec@), selfs, y) {
                let i = choose|i: int| 0 <= i < views(from_vec@).len() && y == normalized(#[trigger] views(from_vec@)[i]);
                assert(all[0] == views(from_vec@)[i]);
            }
            if key_member(views(to@), selfs, y) {
                let i = choose|i: int| 0 <= i < views(to@).len() && y == normalized(#[trigger] views(to@)[i]);
                assert(all[i + 1] == views(to@)[i]);
            }
            if key_member(views(cc@), selfs, y) {
                let i = choose|i: int| 0 <= i < views(cc@).len() && y == normalized(#[trigger] views(cc@)[i]);
                assert(all[i + 1 + nt] == views(cc@)[i]);
            }
        }
    }
    proof {
        let all = message_addresses(from@, views(to@), views(cc@));
        let m = key_members_of(all, selfs);
        assert(sorted_set::sorted_strict(members) && forall|y: Seq<char>| #[trigger] members.contains(y) <==> key_member(all, selfs, y));
        sorted_set::lemma_sorted_unique(m, members);
    }
    if set.len() == 0 {
        String::from_str("__self__")
    } else {
        let sep: Vec<char> = vec!['\n'];
        assert(sep@ =~= seq!['\n']);
        let joined = text::join_exec(&set, sep.as_slice());
        text::chars_to_string(joined.as_slice())
    }
}

// ── Sent detection ──────────────────────────────────────────────────────────

/// A message was sent by the account: Gmail labels it `Sent`, it was fetched
/// from a folder whose lowercase name contains `sent`, or its sender has the
/// canonical form of a self address.
pub open spec fn is_sent_spec(gmail_labels: Seq<char>, imap_folder: Seq<char>, from: Seq<char>, selfs: Seq<Seq<char>>) -> bool {
    text::contains(gmail_labels, "Sent"@)
        || text::contains(text::lowercase(imap_folder), "sent"@)
        || is_self_normalized(from, selfs)
}

/// Whether a message was sent by the account (see [`is_sent_spec`]).
pub fn is_sent(gmail_labels: &str, imap_folder: &str, from_address: &str, self_emails: &[String]) -> (r: bool)
    ensures
        r == is_sent_spec(gmail_labels@, imap_folder@, from_address@, views(self_emails@)),
{
    let labels = text::str_chars(gmail_labels);
    let sent_label = text::str_chars("Sent");
    if text::contains_chars(labels.as_slice(), sent_label.as_slice()) {
        return true;
    }
    let folder_lower = text::to_lowercase(imap_folder);
    let fl = text::string_chars(&folder_lower);
    let sent = text::str_chars("sent");
    if text::contains_chars(fl.as_slice(), sent.as_slice()) {
        return true;
    }
    is_self_normalized_exec(from_address, self_emails)
}

} // verus!
