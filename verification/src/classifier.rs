//! Deterministic email classification rules.
//!
//! Rules are checked in strict priority order and the first one that fires
//! decides the verdict; when none fires the message is left for the model.
use vstd::prelude::*;
use crate::text;

verus! {

broadcast use vstd::string::group_string_axioms;

// ── Lookup tables ────────────────────────────────────────────────────────────

/// Known Email Service Provider sending domains.
pub open spec fn esp_domains() -> Seq<Seq<char>> {
    seq![
        "mailchimp.com"@, "sendgrid.net"@, "amazonses.com"@, "mandrillapp.com"@,
        "mailgun.org"@, "sparkpostmail.com"@, "exacttarget.com"@, "mcsv.net"@,
        "sendinblue.com"@, "brevo.com"@, "klaviyomail.com"@, "constantcontact.com"@,
        "campaignmonitor.com"@, "freshdesk.com"@, "zendesk.com"@, "salesforce.com"@,
        "marketo.net"@, "eloqua.com"@, "pardot.com"@, "hubspot.com"@,
        "mailerlite.com"@, "postmarkapp.com"@, "mailjet.com"@,
    ]
}

/// The sending domains of [`esp_domains`].
pub fn esp_domain_list() -> (v: Vec<&'static str>)
    ensures
        v@.map_values(|s: &str| s@) == esp_domains(),
{
    let v = vec![
        "mailchimp.com", "sendgrid.net", "amazonses.com", "mandrillapp.com",
        "mailgun.org", "sparkpostmail.com", "exacttarget.com", "mcsv.net",
        "sendinblue.com", "brevo.com", "klaviyomail.com", "constantcontact.com",
        "campaignmonitor.com", "freshdesk.com", "zendesk.com", "salesforce.com",
        "marketo.net", "eloqua.com", "pardot.com", "hubspot.com",
        "mailerlite.com", "postmarkapp.com", "mailjet.com",
    ];
    assert(v@.map_values(|s: &str| s@) =~= esp_domains());
    v
}


/// Local-part prefixes that identify automated senders.
pub open spec fn automated_local_prefixes() -> Seq<Seq<char>> {
    seq![
        "noreply"@, "no-reply"@, "donotreply"@, "do-not-reply"@, "mailer"@, "mailer-daemon"@,
        "newsletter"@, "notifications"@, "notification"@, "updates"@, "update"@, "alerts"@,
        "alert"@, "bounce"@, "bounces"@, "unsubscribe"@, "marketing"@, "promotions"@,
        "promotion"@, "deals"@, "offers"@, "news"@, "digest"@, "postmaster"@,
        "autoresponder"@, "automated"@, "system"@, "robot"@,
    ]
}

/// The prefixes of [`automated_local_prefixes`].
pub fn automated_local_prefix_list() -> (v: Vec<&'static str>)
    ensures
        v@.map_values(|s: &str| s@) == automated_local_prefixes(),
{
    let v = vec![
        "noreply", "no-reply", "donotreply", "do-not-reply", "mailer", "mailer-daemon",
        "newsletter", "notifications", "notification", "updates", "update", "alerts",
        "alert", "bounce", "bounces", "unsubscribe", "marketing", "promotions",
        "promotion", "deals", "offers", "news", "digest", "postmaster",
        "autoresponder", "automated", "system", "robot",
    ];
    assert(v@.map_values(|s: &str| s@) =~= automated_local_prefixes());
    v
}

/// Gmail category labels that unambiguously indicate non-personal mail.
pub open spec fn gmail_not_chat_labels() -> Seq<Seq<char>> {
    seq!["CATEGORY_PROMOTIONS"@, "CATEGORY_UPDATES"@, "CATEGORY_FORUMS"@, "CATEGORY_SOCIAL"@]
}

/// The labels of [`gmail_not_chat_labels`].
pub fn gmail_not_chat_label_list() -> (v: Vec<&'static str>)
    ensures
        v@.map_values(|s: &str| s@) == gmail_not_chat_labels(),
{
    let v = vec!["CATEGORY_PROMOTIONS", "CATEGORY_UPDATES", "CATEGORY_FORUMS", "CATEGORY_SOCIAL"];
    assert(v@.map_values(|s: &str| s@) =~= gmail_not_chat_labels());
    v
}

/// IMAP folder name substrings that imply automated mail buckets.
pub open spec fn automated_folder_patterns() -> Seq<Seq<char>> {
    seq![
        "newsletter"@, "promotions"@, "promotion"@, "updates"@, "bulk"@, "spam"@, "junk"@,
        "marketing"@, "notifications"@, "automated"@, "trash"@,
    ]
}

/// The patterns of [`automated_folder_patterns`].
pub fn automated_folder_pattern_list() -> (v: Vec<&'static str>)
    ensures
        v@.map_values(|s: &str| s@) == automated_folder_patterns(),
{
    let v = vec![
        "newsletter", "promotions", "promotion", "updates", "bulk", "spam", "junk",
        "marketing", "notifications", "automated", "trash",
    ];
    assert(v@.map_values(|s: &str| s@) =~= automated_folder_patterns());
    v
}

/// The regular expression for mailing-list subject tags such as `[GitHub]`.
pub open spec fn mailing_list_tag_pattern() -> Seq<char> {
    "\\[[\\w\\s\\-]+\\]"@
}

// ── Regular expressions (regex crate) ───────────────────────────────────────

/// Whether the `regex` crate accepts a pattern (`Regex::new(p).is_ok()`).
pub uninterp spec fn regex_compiles(pattern: Seq<char>) -> bool;

/// What `Regex::is_match` answers for a compiled pattern and a haystack.
pub uninterp spec fn regex_is_match(pattern: Seq<char>, haystack: Seq<char>) -> bool;

/// `regex::Regex::new(pattern)` followed by `Regex::is_match(haystack)`.
/// The contract claims that compilation succeeds exactly when the pattern is
/// accepted (`regex_compiles`), and that the answer is then the crate's
/// match result, named `regex_is_match`; the matching semantics are not
/// restated here.
#[verifier::external_body]
fn regex_match(pattern: &str, haystack: &str) -> (r: Option<bool>)
    ensures
        r is Some <==> regex_compiles(pattern@),
        r matches Some(b) ==> b == regex_is_match(pattern@, haystack@),
{
    match regex::Regex::new(pattern) {
        Ok(re) => Some(re.is_match(haystack)),
        Err(_) => None,
    }
}

// ── Public types ─────────────────────────────────────────────────────────────

/// The outcome of the deterministic classifier for a single email.
#[derive(Debug, Clone)]
pub enum Verdict {
    /// Definitively a human-written personal email.
    Chat { reason: String },
    /// Definitively automated / bulk / non-personal email.
    NotChat { reason: String },
    /// No rule fired — forward to the model.
    Ambiguous,
}

/// The mathematical value of a [`Verdict`].
pub enum VerdictView {
    Chat(Seq<char>),
    NotChat(Seq<char>),
    Ambiguous,
}

impl View for Verdict {
    type V = VerdictView;

    open spec fn view(&self) -> VerdictView {
        match self {
            Verdict::Chat { reason } => VerdictView::Chat(reason@),
            Verdict::NotChat { reason } => VerdictView::NotChat(reason@),
            Verdict::Ambiguous => VerdictView::Ambiguous,
        }
    }
}

impl PartialEq for Verdict {
    fn eq(&self, other: &Self) -> (r: bool) {
        match (self, other) {
            (Verdict::Chat { reason: a }, Verdict::Chat { reason: b }) => *a == *b,
            (Verdict::NotChat { reason: a }, Verdict::NotChat { reason: b }) => *a == *b,
            (Verdict::Ambiguous, Verdict::Ambiguous) => true,
            _ => false,
        }
    }
}

impl vstd::std_specs::cmp::PartialEqSpecImpl for Verdict {
    open spec fn obeys_eq_spec() -> bool {
        true
    }

    open spec fn eq_spec(&self, other: &Self) -> bool {
        self@ == other@
    }
}

impl Verdict {
    /// Label string for output: `"chat"`, `"not_chat"`, or none when ambiguous.
    pub fn label(&self) -> (r: Option<&'static str>)
        ensures
            self is Chat ==> (r matches Some(l) && l@ == "chat"@),
            self is NotChat ==> (r matches Some(l) && l@ == "not_chat"@),
            self is Ambiguous ==> r is None,
    {
        match self {
            Verdict::Chat { .. } => Some("chat"),
            Verdict::NotChat { .. } => Some("not_chat"),
            Verdict::Ambiguous => None,
        }
    }

    /// Human-readable reason for the decision.
    pub fn reason(&self) -> (r: &str)
        ensures
            r@ == match self@ {
                VerdictView::Chat(reason) => reason,
                VerdictView::NotChat(reason) => reason,
                VerdictView::Ambiguous => "ambiguous"@,
            },
    {
        match self {
            Verdict::Chat { reason } => reason.as_str(),
            Verdict::NotChat { reason } => reason.as_str(),
            Verdict::Ambiguous => "ambiguous",
        }
    }

    pub fn is_ambiguous(&self) -> (r: bool)
        ensures
            r == (self is Ambiguous),
    {
        match self {
            Verdict::Ambiguous => true,
            _ => false,
        }
    }
}

// ── Input struct ─────────────────────────────────────────────────────────────

/// All fields needed to run the deterministic classifier.
pub struct EmailFields<'a> {
    pub from_address: &'a str,
    pub subject: &'a str,
    pub body_text: &'a str,
    pub body_html: &'a str,
    pub in_reply_to: Option<&'a str>,
    /// Number of entries of the `references_ids` column.
    pub reference_count: usize,
    /// Number of entries of the `to_addresses` column.
    pub to_count: usize,
    /// Number of entries of the `cc_addresses` column.
    pub cc_count: usize,
    pub imap_folder: &'a str,
    /// Entries of the `gmail_labels` column.
    pub gmail_labels: Vec<String>,
}

// ── Rule specification ───────────────────────────────────────────────────────

/// The views of a vector of strings.
pub open spec fn string_views(v: Seq<String>) -> Seq<Seq<char>> {
    v.map_values(|s: String| s@)
}

/// The first label that is one of the Gmail non-personal categories.
pub open spec fn first_not_chat_label(labels: Seq<Seq<char>>) -> Option<Seq<char>>
    decreases labels.len(),
{
    if labels.len() == 0 {
        None
    } else if gmail_not_chat_labels().contains(labels[0]) {
        Some(labels[0])
    } else {
        first_not_chat_label(labels.drop_first())
    }
}

/// Some automated-folder pattern occurs in the lowercased folder name.
pub open spec fn folder_is_automated(folder_lower: Seq<char>) -> bool {
    exists|i: int| 0 <= i < automated_folder_patterns().len()
        && text::contains(folder_lower, #[trigger] automated_folder_patterns()[i])
}

/// The domain is a known ESP domain or one of its subdomains.
pub open spec fn is_esp_domain(domain: Seq<char>) -> bool {
    exists|i: int| 0 <= i < esp_domains().len()
        && (domain == #[trigger] esp_domains()[i] || text::ends_with(domain, seq!['.'] + esp_domains()[i]))
}

/// The local part is an automated prefix, alone or followed by `+` or `.`.
pub open spec fn is_automated_local(local: Seq<char>) -> bool {
    exists|i: int| 0 <= i < automated_local_prefixes().len()
        && (local == #[trigger] automated_local_prefixes()[i]
            || text::starts_with(local, automated_local_prefixes()[i].push('+'))
            || text::starts_with(local, automated_local_prefixes()[i].push('.')))
}

/// The part after the first `@` up to the next one (`split('@').nth(1)`).
pub open spec fn address_domain(addr: Seq<char>) -> Option<Seq<char>> {
    let parts = text::split_char(addr, '@');
    if parts.len() >= 2 {
        Some(parts[1])
    } else {
        None
    }
}

/// The part before the first `@` (`split('@').next()`).
pub open spec fn address_local(addr: Seq<char>) -> Seq<char> {
    text::split_char(addr, '@')[0]
}

/// The verdict of the rules on fields already lowercased where the rules
/// compare case-insensitively.
///
/// `folder` is the folder name as given, `folder_lower` its lowercase form,
/// `from_lower` the lowercased sender, `body_lower` the lowercased plain body,
/// a space and the lowercased HTML body, and `subject_tagged` whether the
/// lowercased subject carries a mailing-list tag.
pub open spec fn rules_verdict(
    labels: Seq<Seq<char>>,
    folder: Seq<char>,
    folder_lower: Seq<char>,
    from_lower: Seq<char>,
    body_lower: Seq<char>,
    has_in_reply_to: bool,
    reference_count: int,
    total_recipients: int,
    subject_tagged: bool,
) -> VerdictView {
    if let Some(l) = first_not_chat_label(labels) {
        VerdictView::NotChat("gmail_label:"@ + l)
    } else if folder_is_automated(folder_lower) {
        VerdictView::NotChat("imap_folder:"@ + folder)
    } else if address_domain(from_lower) is Some && is_esp_domain(address_domain(from_lower)->0) {
        VerdictView::NotChat("esp_domain:"@ + address_domain(from_lower)->0)
    } else if is_automated_local(address_local(from_lower)) {
        VerdictView::NotChat("sender_local:"@ + address_local(from_lower))
    } else if text::contains(body_lower, "unsubscribe"@) || text::contains(body_lower, "list-unsubscribe"@) {
        VerdictView::NotChat("body:unsubscribe_text"@)
    } else if !has_in_reply_to && subject_tagged {
        VerdictView::NotChat("subject:mailing_list_tag"@)
    } else if total_recipients > 5 {
        VerdictView::NotChat("recipients:"@ + text::decimal(total_recipients as nat))
    } else if has_in_reply_to && reference_count > 0 {
        VerdictView::Chat("thread:in_reply_to+references"@)
    } else if has_in_reply_to {
        VerdictView::Chat("thread:in_reply_to"@)
    } else {
        VerdictView::Ambiguous
    }
}

/// The verdict of [`classify`] on the given fields, with `subject_tagged`
/// standing for the mailing-list tag match on the lowercased subject.
pub open spec fn classify_spec(f: EmailFields, subject_tagged: bool) -> VerdictView {
    rules_verdict(
        string_views(f.gmail_labels@),
        f.imap_folder@,
        text::lowercase(f.imap_folder@),
        text::lowercase(f.from_address@),
        text::lowercase(f.body_text@) + seq![' '] + text::lowercase(f.body_html@),
        f.in_reply_to is Some,
        f.reference_count as int,
        f.to_count + f.cc_count,
        subject_tagged,
    )
}



/// The automated-folder words are written in lowercase.
proof fn lemma_folder_patterns_lowercase(k: int, j: int)
    requires
        0 <= k < automated_folder_patterns().len(),
        0 <= j < automated_folder_patterns()[k].len(),
    ensures
        text::ascii_lower(automated_folder_patterns()[k][j]) == automated_folder_patterns()[k][j],
{
    reveal_strlit("newsletter");
    reveal_strlit("promotions");
    reveal_strlit("promotion");
    reveal_strlit("updates");
    reveal_strlit("bulk");
    reveal_strlit("spam");
    reveal_strlit("junk");
    reveal_strlit("marketing");
    reveal_strlit("notifications");
    reveal_strlit("automated");
    reveal_strlit("trash");
}

/// The folder rule does not depend on letter case: a message without a
/// not-chat Gmail label whose (ASCII) folder name holds one of the
/// automated-folder words in any mix of upper and lower case (`Junk`,
/// `[Gmail]/Spam`, `TRASH`) is not chat, with the folder name as given in
/// the reason.
pub proof fn law_folder_rule_ignores_case(f: EmailFields, subject_tagged: bool, k: int, at: int)
    requires
        first_not_chat_label(string_views(f.gmail_labels@)) is None,
        text::all_ascii(f.imap_folder@),
        0 <= k < automated_folder_patterns().len(),
        0 <= at,
        at + automated_folder_patterns()[k].len() <= f.imap_folder@.len(),
        text::eq_ignore_ascii_case(
            f.imap_folder@.subrange(at, at + automated_folder_patterns()[k].len()),
            automated_folder_patterns()[k],
        ),
    ensures
        classify_spec(f, subject_tagged) == VerdictView::NotChat("imap_folder:"@ + f.imap_folder@),
{
    let folder = f.imap_folder@;
    let word = automated_folder_patterns()[k];
    let lower = text::lowercase(folder);
    assert(lower == folder.map_values(|c: char| text::ascii_lower(c)));
    let window = folder.subrange(at, at + word.len());
    assert forall|j: int| 0 <= j < word.len() implies #[trigger] lower.subrange(at, at + word.len())[j] == word[j] by {
        lemma_folder_patterns_lowercase(k, j);
        assert(text::ascii_lower(window[j]) == text::ascii_lower(word[j]));
        assert(window[j] == folder[at + j]);
        assert(lower[at + j] == text::ascii_lower(folder[at + j]));
    }
    assert(lower.subrange(at, at + word.len()) =~= word);
    assert(text::occurs_at(lower, word, at));
    text::lemma_find_from_occurs(lower, word, 0, at);
    assert(text::contains(lower, automated_folder_patterns()[k]));
    assert(folder_is_automated(lower));
}

/// Two messages alike but for the letter case of their (ASCII) folder names
/// get verdicts of the same kind; where the verdicts differ at all, both
/// come from the folder rule, each with its own folder name as the reason.
pub proof fn law_folder_case_invariant(f: EmailFields, g: EmailFields, subject_tagged: bool)
    requires
        string_views(g.gmail_labels@) == string_views(f.gmail_labels@),
        g.from_address@ == f.from_address@,
        g.body_text@ == f.body_text@,
        g.body_html@ == f.body_html@,
        g.in_reply_to is Some <==> f.in_reply_to is Some,
        g.reference_count == f.reference_count,
        g.to_count == f.to_count,
        g.cc_count == f.cc_count,
        text::all_ascii(f.imap_folder@),
        text::eq_ignore_ascii_case(f.imap_folder@, g.imap_folder@),
    ensures
        classify_spec(f, subject_tagged) is Chat <==> classify_spec(g, subject_tagged) is Chat,
        classify_spec(f, subject_tagged) is NotChat <==> classify_spec(g, subject_tagged) is NotChat,
        classify_spec(f, subject_tagged) is Ambiguous <==> classify_spec(g, subject_tagged) is Ambiguous,
        classify_spec(f, subject_tagged) != classify_spec(g, subject_tagged) ==> {
            &&& classify_spec(f, subject_tagged) == VerdictView::NotChat("imap_folder:"@ + f.imap_folder@)
            &&& classify_spec(g, subject_tagged) == VerdictView::NotChat("imap_folder:"@ + g.imap_folder@)
        },
{
    let a = f.imap_folder@;
    let b = g.imap_folder@;
    assert(text::all_ascii(b)) by {
        assert forall|i: int| 0 <= i < b.len() implies (#[trigger] b[i] as u32) < 128 by {
            assert(text::ascii_lower(a[i]) == text::ascii_lower(b[i]));
            assert((a[i] as u32) < 128);
        }
    }
    assert(text::lowercase(a) =~= text::lowercase(b)) by {
        assert forall|i: int| 0 <= i < a.len() implies text::lowercase(a)[i] == text::lowercase(b)[i] by {
            assert(text::ascii_lower(a[i]) == text::ascii_lower(b[i]));
        }
    }
}

/// A reply (a message with `In-Reply-To`) is never left to the model: some
/// rule always decides it.
pub proof fn law_reply_is_decided(f: EmailFields, subject_tagged: bool)
    requires
        f.in_reply_to is Some,
    ensures
        !(classify_spec(f, subject_tagged) is Ambiguous),
{
}

/// The mailing-list tag of the subject does not matter for a reply: the
/// reply rules come first.
pub proof fn law_reply_ignores_list_tag(f: EmailFields)
    requires
        f.in_reply_to is Some,
    ensures
        classify_spec(f, true) == classify_spec(f, false),
{
}

/// Only replies are judged chat: a message without `In-Reply-To` is never
/// classified as chat by the rules.
pub proof fn law_chat_only_for_replies(f: EmailFields, subject_tagged: bool)
    requires
        classify_spec(f, subject_tagged) is Chat,
    ensures
        f.in_reply_to is Some,
{
}



// ── JSON columns ────────────────────────────────────────────────────────────

/// The items of the JSON array in `text`, each as its string when it is a
/// string; `None` when the text is not JSON or not an array.
pub uninterp spec fn json_array_items(text: Seq<char>) -> Option<Seq<Option<Seq<char>>>>;

/// The view of parsed array items.
pub open spec fn items_view(v: Seq<Option<String>>) -> Seq<Option<Seq<char>>> {
    v.map_values(|x: Option<String>| text::opt_view(x))
}

/// `serde_json::from_str` into a `Value`; for an array, `as_str` of each
/// item. The contract claims the outcome is the one named
/// `json_array_items`; JSON is not restated.
#[verifier::external_body]
pub(crate) fn json_array(text: &str) -> (r: Option<Vec<Option<String>>>)
    ensures
        match r {
            Some(v) => json_array_items(text@) == Some(items_view(v@)),
            None => json_array_items(text@) is None,
        },
{
    match serde_json::from_str::<serde_json::Value>(text) {
        Ok(serde_json::Value::Array(v)) => Some(v.iter().map(|x| x.as_str().map(str::to_owned)).collect()),
        _ => None,
    }
}

/// The number of items of a JSON array column (0 when it is not one).
pub fn parse_json_array_len(json_str: &str) -> (r: usize)
    ensures
        r == match json_array_items(json_str@) {
            Some(items) => items.len(),
            None => 0,
        },
{
    match json_array(json_str) {
        Some(v) => v.len(),
        None => 0,
    }
}

/// The strings of a JSON array column, in order: the items that are not
/// strings are left out; empty when the column is not an array.
pub open spec fn array_strings(items: Seq<Option<Seq<char>>>) -> Seq<Seq<char>>
    decreases items.len(),
{
    if items.len() == 0 {
        Seq::empty()
    } else {
        let rest = array_strings(items.drop_last());
        match items.last() {
            Some(s) => rest.push(s),
            None => rest,
        }
    }
}

/// The strings of a JSON array column (see [`array_strings`]).
pub fn parse_json_string_array(json_str: &str) -> (r: Vec<String>)
    ensures
        string_views(r@) == match json_array_items(json_str@) {
            Some(items) => array_strings(items),
            None => Seq::empty(),
        },
{
    match json_array(json_str) {
        Some(v) => {
            let ghost iv = items_view(v@);
            let mut r: Vec<String> = Vec::new();
            let mut i: usize = 0;
            while i < v.len()
                invariant
                    i <= v@.len(),
                    iv == items_view(v@),
                    string_views(r@) == array_strings(iv.take(i as int)),
                decreases v@.len() - i,
            {
                assert(iv.take(i + 1).drop_last() =~= iv.take(i as int));
                assert(iv.take(i + 1).last() == text::opt_view(v@[i as int]));
                match &v[i] {
                    Some(s) => {
                        let ghost r0 = string_views(r@);
                        r.push(s.clone());
                        assert(string_views(r@) =~= r0.push(s@));
                    },
                    None => {},
                }
                i += 1;
            }
            assert(iv.take(v@.len() as int) =~= iv);
            r
        },
        None => Vec::new(),
    }
}

// ── Address helpers ─────────────────────────────────────────────────────────

/// Extract the domain part of an email address (already lowercased).
fn from_domain(addr: &[char]) -> (r: Option<Vec<char>>)
    ensures
        r matches Some(d) ==> address_domain(addr@) == Some(d@),
        r is None ==> address_domain(addr@) is None,
{
    let parts = text::split_char_exec(addr, '@');
    if parts.len() >= 2 {
        assert(text::seqs_of(parts@)[1] == parts@[1]@);
        Some(text::copy_chars(&parts[1]))
    } else {
        None
    }
}

/// Extract the local part of an email address (already lowercased).
fn from_local(addr: &[char]) -> (r: Option<Vec<char>>)
    ensures
        r matches Some(l) && l@ == address_local(addr@),
{
    let parts = text::split_char_exec(addr, '@');
    proof { text::lemma_split_char_nonempty(addr@, '@'); }
    assert(text::seqs_of(parts@)[0] == parts@[0]@);
    Some(text::copy_chars(&parts[0]))
}

// ── Rule evaluation ─────────────────────────────────────────────────────────

fn first_not_chat_label_exec(labels: &Vec<String>) -> (r: Option<Vec<char>>)
    ensures
        r matches Some(l) ==> first_not_chat_label(string_views(labels@)) == Some(l@),
        r is None ==> first_not_chat_label(string_views(labels@)) is None,
{
    let known = gmail_not_chat_label_list();
    let mut i: usize = 0;
    assert(string_views(labels@).skip(0) =~= string_views(labels@));
    while i < labels.len()
        invariant
            i <= labels@.len(),
            known@.map_values(|s: &str| s@) == gmail_not_chat_labels(),
            first_not_chat_label(string_views(labels@)) == first_not_chat_label(string_views(labels@).skip(i as int)),
        decreases labels@.len() - i,
    {
        let l = text::string_chars(&labels[i]);
        let ghost rest = string_views(labels@).skip(i as int);
        assert(rest[0] == l@);
        assert(rest.drop_first() =~= string_views(labels@).skip(i + 1));
        if text::list_contains(&known, l.as_slice()) {
            return Some(l);
        }
        i += 1;
    }
    assert(string_views(labels@).skip(i as int) =~= Seq::<Seq<char>>::empty());
    None
}

fn folder_is_automated_exec(folder_lower: &[char]) -> (r: bool)
    ensures
        r == folder_is_automated(folder_lower@),
{
    let pats = automated_folder_pattern_list();
    let mut i: usize = 0;
    while i < pats.len()
        invariant
            i <= pats@.len(),
            pats@.map_values(|s: &str| s@) == automated_folder_patterns(),
            forall|j: int| 0 <= j < i ==> !text::contains(folder_lower@, #[trigger] automated_folder_patterns()[j]),
        decreases pats@.len() - i,
    {
        let p = text::str_chars(pats[i]);
        assert(p@ == automated_folder_patterns()[i as int]);
        if text::contains_chars(folder_lower, p.as_slice()) {
            return true;
        }
        i += 1;
    }
    false
}

fn is_esp_domain_exec(domain: &[char]) -> (r: bool)
    ensures
        r == is_esp_domain(domain@),
{
    let esps = esp_domain_list();
    let mut i: usize = 0;
    while i < esps.len()
        invariant
            i <= esps@.len(),
            esps@.map_values(|s: &str| s@) == esp_domains(),
            forall|j: int| 0 <= j < i ==> !(domain@ == #[trigger] esp_domains()[j]
                || text::ends_with(domain@, seq!['.'] + esp_domains()[j])),
        decreases esps@.len() - i,
    {
        let e = text::str_chars(esps[i]);
        assert(e@ == esp_domains()[i as int]);
        let mut dotted: Vec<char> = Vec::new();
        dotted.push('.');
        text::append_chars(&mut dotted, e.as_slice());
        assert(dotted@ =~= seq!['.'] + e@);
        if text::chars_eq(domain, e.as_slice()) || text::ends_with_chars(domain, dotted.as_slice()) {
            return true;
        }
        i += 1;
    }
    false
}

fn is_automated_local_exec(local: &[char]) -> (r: bool)
    ensures
        r == is_automated_local(local@),
{
    let prefixes = automated_local_prefix_list();
    let mut i: usize = 0;
    while i < prefixes.len()
        invariant
            i <= prefixes@.len(),
            prefixes@.map_values(|s: &str| s@) == automated_local_prefixes(),
            forall|j: int| 0 <= j < i ==> !(local@ == #[trigger] automated_local_prefixes()[j]
                || text::starts_with(local@, automated_local_prefixes()[j].push('+'))
                || text::starts_with(local@, automated_local_prefixes()[j].push('.'))),
        decreases prefixes@.len() - i,
    {
        let p = text::str_chars(prefixes[i]);
        assert(p@ == automated_local_prefixes()[i as int]);
        let mut plus = text::copy_chars(&p);
        plus.push('+');
        let mut dot = text::copy_chars(&p);
        dot.push('.');
        if text::chars_eq(local, p.as_slice()) || text::starts_with_chars(local, plus.as_slice())
            || text::starts_with_chars(local, dot.as_slice()) {
            return true;
        }
        i += 1;
    }
    false
}

/// A `NotChat` verdict whose reason is `prefix` followed by `detail`.
fn not_chat_with(prefix: &str, detail: &[char]) -> (v: Verdict)
    ensures
        v@ == VerdictView::NotChat(prefix@ + detail@),
{
    let mut r = text::str_chars(prefix);
    text::append_chars(&mut r, detail);
    Verdict::NotChat { reason: text::chars_to_string(r.as_slice()) }
}

/// Runs the rules on fields whose case-insensitive parts are already
/// lowercased: `from_lower` (sender), `body_lower` (plain body, a space, HTML
/// body), `folder_lower` (folder name), and `subject_tagged` (whether the
/// lowercased subject carries a mailing-list tag).
pub fn apply_rules(
    fields: &EmailFields<'_>,
    from_lower: &str,
    body_lower: &str,
    folder_lower: &str,
    subject_tagged: bool,
) -> (v: Verdict)
    requires
        fields.to_count + fields.cc_count <= usize::MAX,
    ensures
        v@ == rules_verdict(
            string_views(fields.gmail_labels@),
            fields.imap_folder@,
            folder_lower@,
            from_lower@,
            body_lower@,
            fields.in_reply_to is Some,
            fields.reference_count as int,
            fields.to_count + fields.cc_count,
            subject_tagged,
        ),
{
    let from_l = text::str_chars(from_lower);
    let body_l = text::str_chars(body_lower);
    let folder_l = text::str_chars(folder_lower);
    let total_recipients: usize = fields.to_count + fields.cc_count;

    // Rule 1: Gmail category labels.
    if let Some(label) = first_not_chat_label_exec(&fields.gmail_labels) {
        return not_chat_with("gmail_label:", label.as_slice());
    }
    // Rule 2: IMAP folder name implies an automated bucket.
    if folder_is_automated_exec(folder_l.as_slice()) {
        let folder = text::str_chars(fields.imap_folder);
        return not_chat_with("imap_folder:", folder.as_slice());
    }
    // Rule 3: known ESP domain in the From address.
    if let Some(domain) = from_domain(from_l.as_slice()) {
        if is_esp_domain_exec(domain.as_slice()) {
            return not_chat_with("esp_domain:", domain.as_slice());
        }
    }
    // Rule 4: automated local-part prefix.
    if let Some(local) = from_local(from_l.as_slice()) {
        if is_automated_local_exec(local.as_slice()) {
            return not_chat_with("sender_local:", local.as_slice());
        }
    }
    // Rule 5: unsubscribe text in the body.
    let unsub = text::str_chars("unsubscribe");
    let list_unsub = text::str_chars("list-unsubscribe");
    if text::contains_chars(body_l.as_slice(), unsub.as_slice())
        || text::contains_chars(body_l.as_slice(), list_unsub.as_slice()) {
        return Verdict::NotChat { reason: String::from_str("body:unsubscribe_text") };
    }
    // Rule 6: mailing-list subject tag and not a reply.
    if fields.in_reply_to.is_none() && subject_tagged {
        return Verdict::NotChat { reason: String::from_str("subject:mailing_list_tag") };
    }
    // Rule 7: mass recipient count.
    if total_recipients > 5 {
        let mut r = text::str_chars("recipients:");
        text::push_decimal(&mut r, total_recipients as u64);
        return Verdict::NotChat { reason: text::chars_to_string(r.as_slice()) };
    }
    // Rule 8: full thread context.
    if fields.in_reply_to.is_some() && fields.reference_count > 0 {
        return Verdict::Chat { reason: String::from_str("thread:in_reply_to+references") };
    }
    // Rule 9: direct reply.
    if fields.in_reply_to.is_some() {
        return Verdict::Chat { reason: String::from_str("thread:in_reply_to") };
    }
    Verdict::Ambiguous
}

/// Runs all deterministic rules against `fields` and returns a verdict.
///
/// Rules are checked in strict priority order — the first match wins. The
/// mailing-list tag is matched with the `regex` crate on the lowercased
/// subject; the pattern is a fixed one that the crate accepts (were it
/// refused, no subject would count as tagged).
pub fn classify(fields: &EmailFields<'_>) -> (v: Verdict)
    requires
        fields.to_count + fields.cc_count <= usize::MAX,
    ensures
        v@ == classify_spec(
            *fields,
            regex_compiles(mailing_list_tag_pattern())
                && regex_is_match(mailing_list_tag_pattern(), text::lowercase(fields.subject@)),
        ),
{
    let from_lower = text::to_lowercase(fields.from_address);
    let subject_lower = text::to_lowercase(fields.subject);
    let body_text_lower = text::to_lowercase(fields.body_text);
    let body_html_lower = text::to_lowercase(fields.body_html);
    let folder_lower = text::to_lowercase(fields.imap_folder);
    let mut combined = text::string_chars(&body_text_lower);
    combined.push(' ');
    let html = text::string_chars(&body_html_lower);
    text::append_chars(&mut combined, html.as_slice());
    let combined_body = text::chars_to_string(combined.as_slice());

    let pattern = "\\[[\\w\\s\\-]+\\]";
    assert(pattern@ == mailing_list_tag_pattern());
    assert(combined@ == text::lowercase(fields.body_text@) + seq![' '] + text::lowercase(fields.body_html@));
    let tagged = match regex_match(pattern, subject_lower.as_str()) {
        Some(b) => b,
        None => false,
    };
    apply_rules(fields, from_lower.as_str(), combined_body.as_str(), folder_lower.as_str(), tagged)
}

} // verus!
