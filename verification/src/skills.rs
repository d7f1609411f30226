//! Skills: user-defined classifiers run by a local model over synced mail,
//! their modifiers, revisions and classification cursors.
use vstd::prelude::*;
use crate::text;
use crate::digest;

verus! {

broadcast use vstd::string::group_string_axioms;

/// A skill of an account.
pub struct Skill {
    pub id: String,
    pub account_id: String,
    pub name: String,
    pub icon: String,
    pub icon_bg: String,
    pub enabled: bool,
    pub prompt: String,
    /// JSON object of [`Modifiers`].
    pub modifiers: String,
    /// JSON object of model settings.
    pub settings: String,
    pub revision_hash: String,
    pub created_at: i64,
    pub updated_at: i64,
    pub has_model: bool,
}

/// How far a skill has classified a folder.
pub struct ClassifyCursor {
    pub skill_rev: String,
    pub highest_classified_uid: u32,
    pub lowest_classified_uid: u32,
}

/// A message a skill may classify.
pub struct ClassifyCandidate {
    pub id: String,
    pub imap_uid: u32,
    pub subject: Option<String>,
    pub body_text: Option<String>,
}

/// Filters that narrow the messages a skill classifies.
pub struct Modifiers {
    pub exclude_newsletters: bool,
    pub only_known_senders: bool,
    pub has_attachments: bool,
    pub recent_six_months: bool,
    pub exclude_auto_replies: bool,
}

impl Default for Modifiers {
    fn default() -> (r: Self)
        ensures
            !r.exclude_newsletters && !r.only_known_senders && !r.has_attachments
                && !r.recent_six_months && !r.exclude_auto_replies,
    {
        Modifiers {
            exclude_newsletters: false,
            only_known_senders: false,
            has_attachments: false,
            recent_six_months: false,
            exclude_auto_replies: false,
        }
    }
}

/// The boolean that member `key` of the JSON object in `text` holds; `None`
/// when the text is not JSON, the member is missing or is not a boolean.
pub uninterp spec fn json_bool_member(text: Seq<char>, key: Seq<char>) -> Option<bool>;

/// `serde_json::from_str` into a `Value`, then `get(key)` and `as_bool`.
/// The contract claims the outcome is the one named `json_bool_member`;
/// JSON is not restated.
#[verifier::external_body]
fn json_bool(text: &str, key: &str) -> (r: Option<bool>)
    ensures
        r == json_bool_member(text@, key@),
{
    serde_json::from_str::<serde_json::Value>(text).ok()?.get(key)?.as_bool()
}

/// A JSON boolean member, false when it is not one.
pub open spec fn flag(text: Seq<char>, key: Seq<char>) -> bool {
    match json_bool_member(text, key) {
        Some(b) => b,
        None => false,
    }
}

/// A JSON boolean member, false when it is not one.
fn flag_exec(text: &str, key: &str) -> (r: bool)
    ensures
        r == flag(text@, key@),
{
    match json_bool(text, key) {
        Some(b) => b,
        None => false,
    }
}

impl Modifiers {
    /// The modifiers a JSON object names (`excludeNewsletters`,
    /// `onlyKnownSenders`, `hasAttachments`, `recentSixMonths`,
    /// `excludeAutoReplies`); each is off unless it is `true` there.
    pub fn from_json(json_str: &str) -> (r: Self)
        ensures
            r.exclude_newsletters == flag(json_str@, "excludeNewsletters"@),
            r.only_known_senders == flag(json_str@, "onlyKnownSenders"@),
            r.has_attachments == flag(json_str@, "hasAttachments"@),
            r.recent_six_months == flag(json_str@, "recentSixMonths"@),
            r.exclude_auto_replies == flag(json_str@, "excludeAutoReplies"@),
    {
        Modifiers {
            exclude_newsletters: flag_exec(json_str, "excludeNewsletters"),
            only_known_senders: flag_exec(json_str, "onlyKnownSenders"),
            has_attachments: flag_exec(json_str, "hasAttachments"),
            recent_six_months: flag_exec(json_str, "recentSixMonths"),
            exclude_auto_replies: flag_exec(json_str, "excludeAutoReplies"),
        }
    }
}

/// A signed integer in decimal.
pub open spec fn signed_decimal(n: int) -> Seq<char> {
    if n < 0 {
        seq!['-'] + text::decimal((-n) as nat)
    } else {
        text::decimal(n as nat)
    }
}

/// Appends a signed integer in decimal.
fn push_signed_decimal(out: &mut Vec<char>, n: i64)
    ensures
        final(out)@ == old(out)@ + signed_decimal(n as int),
{
    if n < 0 {
        out.push('-');
        let m: u64 = if n == i64::MIN { 9223372036854775808u64 } else { (-n) as u64 };
        text::push_decimal(out, m);
    } else {
        text::push_decimal(out, n as u64);
    }
}

/// The SQL conditions of the modifiers, each starting with `AND`, joined
/// with spaces: not newsletters, not automated, with attachments, not older
/// than `cutoff` (milliseconds), from known senders of the account (its
/// identifier with single quotes doubled).
pub open spec fn modifier_clauses(mods: Modifiers, account_id: Seq<char>, cutoff: i64) -> Seq<Seq<char>> {
    let a = if mods.exclude_newsletters { seq!["AND classification != 'newsletter'"@] } else { Seq::empty() };
    let b = if mods.exclude_auto_replies { seq!["AND classification != 'automated'"@] } else { Seq::empty() };
    let c = if mods.has_attachments { seq!["AND has_attachments = 1"@] } else { Seq::empty() };
    let d = if mods.recent_six_months { seq!["AND date >= "@ + signed_decimal(cutoff as int)] } else { Seq::empty() };
    let e = if mods.only_known_senders {
        seq![
            "AND from_address IN (SELECT email FROM entities WHERE account_id = '"@
                + text::replace(account_id, "'"@, "''"@)
                + "' AND trust_level IN ('connection', 'contact'))"@,
        ]
    } else {
        Seq::empty()
    };
    a + b + c + d + e
}

/// The SQL fragment of the modifiers with a given cutoff date (see
/// [`modifier_clauses`]).
pub fn build_modifier_clause_at(mods: &Modifiers, account_id: &str, cutoff: i64) -> (r: String)
    ensures
        r@ == text::join(modifier_clauses(*mods, account_id@, cutoff), seq![' ']),
{
    let mut clauses: Vec<Vec<char>> = Vec::new();
    let ghost mut acc: Seq<Seq<char>> = Seq::empty();
    if mods.exclude_newsletters {
        clauses.push(text::str_chars("AND classification != 'newsletter'"));
    }
    if mods.exclude_auto_replies {
        clauses.push(text::str_chars("AND classification != 'automated'"));
    }
    if mods.has_attachments {
        clauses.push(text::str_chars("AND has_attachments = 1"));
    }
    if mods.recent_six_months {
        let mut d = text::str_chars("AND date >= ");
        push_signed_decimal(&mut d, cutoff);
        clauses.push(d);
    }
    if mods.only_known_senders {
        proof {
            reveal_strlit("'");
        }
        let quote = text::str_chars("'");
        let safe = text::replace_exec(text::str_chars(account_id).as_slice(), quote.as_slice(), text::str_chars("''").as_slice());
        let mut e = text::lit_then("AND from_address IN (SELECT email FROM entities WHERE account_id = '", safe.as_slice());
        text::append_chars(&mut e, text::str_chars("' AND trust_level IN ('connection', 'contact'))").as_slice());
        clauses.push(e);
    }
    assert(text::seqs_of(clauses@) =~= modifier_clauses(*mods, account_id@, cutoff));
    let sep: Vec<char> = vec![' '];
    assert(sep@ =~= seq![' ']);
    let joined = text::join_exec(&clauses, sep.as_slice());
    text::chars_to_string(joined.as_slice())
}

/// The earliest time chrono represents (the start of year -262143), in
/// milliseconds since the epoch.
pub open spec fn earliest_millis() -> int {
    -8_334_601_315_200_000
}

/// The latest time chrono represents (the end of year 262142), in
/// milliseconds since the epoch.
pub open spec fn latest_millis() -> int {
    8_210_266_876_799_999
}

/// Six months (180 days) before `now`, in milliseconds, when chrono can
/// represent that time; 0 when it cannot.
pub open spec fn six_months_before_spec(now: i64) -> i64 {
    let t = now - 15_552_000_000;
    if earliest_millis() <= t <= latest_millis() {
        t as i64
    } else {
        0
    }
}

/// Six months (180 days) before `now` (see [`six_months_before_spec`]).
pub fn six_months_before(now: i64) -> (r: i64)
    ensures
        r == six_months_before_spec(now),
{
    if now >= -8_334_601_315_200_000 + 15_552_000_000 && now <= 8_210_266_876_799_999 + 15_552_000_000 {
        now - 15_552_000_000
    } else {
        0
    }
}

/// The SQL fragment of the modifiers, with the cutoff six months before
/// now: the fragment of [`build_modifier_clause_at`] for the cutoff of some
/// time the clock gave.
pub fn build_modifier_clause(mods: &Modifiers, account_id: &str) -> (r: String)
    ensures
        exists|now: i64| r@ == text::join(modifier_clauses(*mods, account_id@, six_months_before_spec(now)), seq![' ']),
{
    let now = crate::compose::now_millis();
    let cutoff = six_months_before(now);
    build_modifier_clause_at(mods, account_id, cutoff)
}

/// The revision of a skill: the first 8 bytes, in lowercase hex, of the
/// SHA-256 of its prompt, model and temperature (as text), separated by NUL
/// characters.
pub open spec fn revision_of(prompt: Seq<char>, model: Seq<char>, temperature: Seq<char>) -> Seq<char> {
    digest::hex_lower(digest::sha256(vstd::utf8::encode_utf8(prompt + seq!['\0'] + model + seq!['\0'] + temperature)).take(8))
}

/// The revision of a skill's prompt and model settings (see
/// [`revision_of`]); `model` is the settings' model (see
/// [`settings_model`]) and `temperature` the settings' temperature as its
/// number formats.
pub fn compute_revision_hash(prompt: &str, model: &str, temperature: &str) -> (r: String)
    ensures
        r@ == revision_of(prompt@, model@, temperature@),
{
    let mut input = text::str_chars(prompt);
    input.push('\0');
    text::append_chars(&mut input, text::str_chars(model).as_slice());
    input.push('\0');
    text::append_chars(&mut input, text::str_chars(temperature).as_slice());
    assert(input@ =~= prompt@ + seq!['\0'] + model@ + seq!['\0'] + temperature@);
    let s = text::chars_to_string(input.as_slice());
    digest::hex_of_digest_prefix(s.as_str(), 8)
}

/// The string that member `key` of the JSON object in `text` holds; `None`
/// when the text is not JSON, the member is missing or is not a string.
pub uninterp spec fn json_str_member(text: Seq<char>, key: Seq<char>) -> Option<Seq<char>>;

/// `serde_json::from_str` into a `Value`, then `get(key)` and `as_str`.
/// The contract claims the outcome is the one named `json_str_member`;
/// JSON is not restated.
#[verifier::external_body]
fn json_str(text: &str, key: &str) -> (r: Option<String>)
    ensures
        text::opt_view(r) == json_str_member(text@, key@),
{
    Some(serde_json::from_str::<serde_json::Value>(text).ok()?.get(key)?.as_str()?.to_string())
}

/// The model a skill's settings name (`ollamaModel`), empty when they name
/// none.
pub fn settings_model(settings_json: &str) -> (r: String)
    ensures
        r@ == match json_str_member(settings_json@, "ollamaModel"@) {
            Some(m) => m,
            None => Seq::empty(),
        },
{
    match json_str(settings_json, "ollamaModel") {
        Some(m) => m,
        None => String::new(),
    }
}

/// The model settings of a skill, or of all skills.
pub struct OllamaEntry {
    pub selected_model: Option<String>,
}

/// The entry of `key`, if any (the last one for the key).
pub open spec fn entry_for(entries: Seq<(String, OllamaEntry)>, key: Seq<char>) -> Option<OllamaEntry>
    decreases entries.len(),
{
    if entries.len() == 0 {
        None
    } else if entries.last().0@ == key {
        Some(entries.last().1)
    } else {
        entry_for(entries.drop_last(), key)
    }
}

/// The entry of a key.
fn entry_for_exec<'a>(entries: &'a [(String, OllamaEntry)], key: &str) -> (r: Option<&'a OllamaEntry>)
    ensures
        match r {
            Some(e) => entry_for(entries@, key@) == Some(*e),
            None => entry_for(entries@, key@) is None,
        },
{
    let mut i: usize = entries.len();
    assert(entries@.take(i as int) =~= entries@);
    while i > 0
        invariant
            i <= entries@.len(),
            entry_for(entries@, key@) == entry_for(entries@.take(i as int), key@),
        decreases i,
    {
        assert(entries@.take(i as int).drop_last() =~= entries@.take(i - 1));
        assert(entries@.take(i as int).last() == entries@[i - 1]);
        if text::chars_eq(text::string_chars(&entries[i - 1].0).as_slice(), text::str_chars(key).as_slice()) {
            return Some(&entries[i - 1].1);
        }
        i -= 1;
    }
    None
}

/// Whether a skill has a model: its own entry, else the default entry,
/// selects one.
pub fn has_model(ollama: &[(String, OllamaEntry)], skill_id: &str, default_key: &str) -> (r: bool)
    ensures
        r == match entry_for(ollama@, skill_id@) {
            Some(e) => e.selected_model is Some,
            None => match entry_for(ollama@, default_key@) {
                Some(e) => e.selected_model is Some,
                None => false,
            },
        },
{
    let entry = match entry_for_exec(ollama, skill_id) {
        Some(e) => Some(e),
        None => entry_for_exec(ollama, default_key),
    };
    match entry {
        Some(e) => e.selected_model.is_some(),
        None => false,
    }
}

/// An Ollama endpoint: the base URL without trailing slashes, then `path`.
pub fn ollama_endpoint(url: &str, path: &str) -> (r: String)
    ensures
        r@ == text::trim_end_char(url@, '/') + path@,
{
    let mut v = text::trim_end_char_exec(text::str_chars(url).as_slice(), '/');
    text::append_chars(&mut v, text::str_chars(path).as_slice());
    text::chars_to_string(v.as_slice())
}

} // verus!
