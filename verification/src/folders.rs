//! IMAP folders: their sync priority, the Sent folder, and which folders to
//! sync.
use vstd::prelude::*;
use crate::text;

verus! {

broadcast use vstd::string::group_string_axioms;

/// How urgently a folder is synced.
#[derive(Clone, Copy, Debug, PartialEq, Eq, Structural)]
pub enum FolderPriority {
    High,
    Medium,
    Low,
    Excluded,
    NoSelect,
}

/// A folder of the server: its name, its attributes (as the server names
/// them) and its priority.
pub struct FolderInfo {
    pub name: String,
    pub attributes: Vec<String>,
    pub priority: FolderPriority,
}

/// Whether some attribute contains `p`.
pub open spec fn any_contains(attrs: Seq<Seq<char>>, p: Seq<char>) -> bool {
    exists|i: int| 0 <= i < attrs.len() && text::contains(#[trigger] attrs[i], p)
}

/// Whether an attribute marks a folder to sync first (Sent or Drafts) or
/// second (All).
pub open spec fn is_marked(a: Seq<char>) -> bool {
    text::contains(a, "Sent"@) || text::contains(a, "Drafts"@) || text::contains(a, "All"@)
}

/// The first attribute from `from` on that marks the folder.
pub open spec fn first_marked(attrs: Seq<Seq<char>>, from: int) -> Option<int>
    decreases attrs.len() - from,
{
    if from < 0 || from >= attrs.len() {
        None
    } else if is_marked(attrs[from]) {
        Some(from)
    } else {
        first_marked(attrs, from + 1)
    }
}

/// The priority of a folder: not selectable when an attribute says so;
/// excluded for junk and trash; high for the inbox; else by the first
/// attribute that marks it: high for Sent or Drafts, medium for All; low
/// otherwise.
pub open spec fn priority_of(name: Seq<char>, attrs: Seq<Seq<char>>) -> FolderPriority {
    if any_contains(attrs, "NoSelect"@) {
        FolderPriority::NoSelect
    } else if any_contains(attrs, "Junk"@) || any_contains(attrs, "Trash"@) {
        FolderPriority::Excluded
    } else if name == "INBOX"@ {
        FolderPriority::High
    } else {
        match first_marked(attrs, 0) {
            Some(i) => if text::contains(attrs[i], "Sent"@) || text::contains(attrs[i], "Drafts"@) {
                FolderPriority::High
            } else {
                FolderPriority::Medium
            },
            None => FolderPriority::Low,
        }
    }
}

pub proof fn lemma_first_marked(attrs: Seq<Seq<char>>, from: int)
    ensures
        first_marked(attrs, from) matches Some(i) ==> from <= i < attrs.len() && is_marked(attrs[i]),
    decreases attrs.len() - from,
{
    if 0 <= from < attrs.len() && !is_marked(attrs[from]) {
        lemma_first_marked(attrs, from + 1);
    }
}

/// Whether some attribute contains the literal `p`.
fn any_attr_contains(attributes: &[String], p: &str) -> (r: bool)
    ensures
        r == any_contains(text::string_views(attributes@), p@),
{
    let ghost av = text::string_views(attributes@);
    let mut i: usize = 0;
    while i < attributes.len()
        invariant
            i <= attributes@.len(),
            av == text::string_views(attributes@),
            forall|j: int| 0 <= j < i ==> !text::contains(#[trigger] av[j], p@),
        decreases attributes@.len() - i,
    {
        let a = text::string_chars(&attributes[i]);
        assert(av[i as int] == a@);
        if text::contains_lit(a.as_slice(), p) {
            return true;
        }
        i += 1;
    }
    false
}

impl FolderInfo {
    /// The priority of a folder with this name and these attributes (see
    /// [`priority_of`]).
    pub fn compute_priority(name: &str, attributes: &[String]) -> (r: FolderPriority)
        ensures
            r == priority_of(name@, text::string_views(attributes@)),
    {
        let ghost av = text::string_views(attributes@);
        if any_attr_contains(attributes, "NoSelect") {
            return FolderPriority::NoSelect;
        }
        if any_attr_contains(attributes, "Junk") || any_attr_contains(attributes, "Trash") {
            return FolderPriority::Excluded;
        }
        if text::chars_eq(text::str_chars(name).as_slice(), text::str_chars("INBOX").as_slice()) {
            return FolderPriority::High;
        }
        let mut i: usize = 0;
        while i < attributes.len()
            invariant
                i <= attributes@.len(),
                av == text::string_views(attributes@),
                !any_contains(av, "NoSelect"@),
                !any_contains(av, "Junk"@) && !any_contains(av, "Trash"@),
                name@ != "INBOX"@,
                first_marked(av, 0) == first_marked(av, i as int),
            decreases attributes@.len() - i,
        {
            let a = text::string_chars(&attributes[i]);
            assert(av[i as int] == a@);
            if text::contains_lit(a.as_slice(), "Sent") || text::contains_lit(a.as_slice(), "Drafts") {
                return FolderPriority::High;
            }
            if text::contains_lit(a.as_slice(), "All") {
                return FolderPriority::Medium;
            }
            i += 1;
        }
        FolderPriority::Low
    }
}

/// The views of the attributes of each folder.
pub open spec fn folder_attrs(f: FolderInfo) -> Seq<Seq<char>> {
    text::string_views(f.attributes@)
}

/// The first folder from `from` on with an attribute containing `p`.
pub open spec fn first_with_attr(fs: Seq<FolderInfo>, p: Seq<char>, from: int) -> Option<int>
    decreases fs.len() - from,
{
    if from < 0 || from >= fs.len() {
        None
    } else if any_contains(folder_attrs(fs[from]), p) {
        Some(from)
    } else {
        first_with_attr(fs, p, from + 1)
    }
}

pub proof fn lemma_first_with_attr(fs: Seq<FolderInfo>, p: Seq<char>, from: int)
    ensures
        first_with_attr(fs, p, from) matches Some(i) ==> from <= i < fs.len(),
    decreases fs.len() - from,
{
    if 0 <= from < fs.len() && !any_contains(folder_attrs(fs[from]), p) {
        lemma_first_with_attr(fs, p, from + 1);
    }
}

/// The name of the first folder with an attribute containing `attribute`.
pub fn find_folder_by_attribute(folders: &[FolderInfo], attribute: &str) -> (r: Option<String>)
    ensures
        text::opt_view(r) == match first_with_attr(folders@, attribute@, 0) {
            Some(i) => Some(folders@[i].name@),
            None => None,
        },
{
    let mut i: usize = 0;
    while i < folders.len()
        invariant
            i <= folders@.len(),
            first_with_attr(folders@, attribute@, 0) == first_with_attr(folders@, attribute@, i as int),
        decreases folders@.len() - i,
    {
        if any_attr_contains(folders[i].attributes.as_slice(), attribute) {
            return Some(folders[i].name.clone());
        }
        i += 1;
    }
    None
}

/// Names of Sent folders across languages and providers, compared with the
/// last segment of a folder's name, lowercased.
pub open spec fn sent_folder_names() -> Seq<Seq<char>> {
    seq![
        "sent"@, "sent items"@, "sent messages"@, "sent mail"@,
        "gesendet"@, "gesendete objekte"@, "gesendete elemente"@,
        "envoyés"@, "éléments envoyés"@, "messages envoyés"@,
        "enviados"@, "elementos enviados"@,
        "enviadas"@, "itens enviados"@,
        "inviata"@, "inviati"@,
        "verzonden"@, "verzonden items"@,
        "skickat"@, "skickade"@,
        "sendt"@, "sendte"@, "sendte elementer"@,
        "lähetetyt"@,
        "wysłane"@,
        "odeslané"@, "odeslaná pošta"@,
        "elküldött"@, "elküldött elemek"@,
        "trimise"@, "mesaje trimise"@,
        "отправленные"@,
        "gönderilenler"@,
        "απεσταλμένα"@,
    ]
}

/// The names of [`sent_folder_names`].
fn sent_folder_name_list() -> (v: Vec<&'static str>)
    ensures
        text::str_views(v@) == sent_folder_names(),
{
    let v = vec![
        "sent", "sent items", "sent messages", "sent mail",
        "gesendet", "gesendete objekte", "gesendete elemente",
        "envoyés", "éléments envoyés", "messages envoyés",
        "enviados", "elementos enviados",
        "enviadas", "itens enviados",
        "inviata", "inviati",
        "verzonden", "verzonden items",
        "skickat", "skickade",
        "sendt", "sendte", "sendte elementer",
        "lähetetyt",
        "wysłane",
        "odeslané", "odeslaná pošta",
        "elküldött", "elküldött elemek",
        "trimise", "mesaje trimise",
        "отправленные",
        "gönderilenler",
        "απεσταλμένα",
    ];
    assert(text::str_views(v@) =~= sent_folder_names());
    v
}

/// The index of the last `c` in `s`.
pub open spec fn last_index_of(s: Seq<char>, c: char) -> Option<int>
    decreases s.len(),
{
    if s.len() == 0 {
        None
    } else if s.last() == c {
        Some(s.len() - 1)
    } else {
        last_index_of(s.drop_last(), c)
    }
}

pub proof fn lemma_last_index_of(s: Seq<char>, c: char)
    ensures
        last_index_of(s, c) matches Some(i) ==> 0 <= i < s.len() && s[i] == c,
    decreases s.len(),
{
    if s.len() > 0 && s.last() != c {
        lemma_last_index_of(s.drop_last(), c);
    }
}

/// The last segment of a folder name: after its last `.`, else after its
/// last `/`, else the whole name.
pub open spec fn leaf_name(name: Seq<char>) -> Seq<char> {
    match last_index_of(name, '.') {
        Some(i) => name.skip(i + 1),
        None => match last_index_of(name, '/') {
            Some(i) => name.skip(i + 1),
            None => name,
        },
    }
}

/// The index of the last `c` in `s`.
fn last_index_of_exec(s: &[char], c: char) -> (r: Option<usize>)
    ensures
        match r {
            Some(i) => last_index_of(s@, c) == Some(i as int),
            None => last_index_of(s@, c) is None,
        },
{
    let mut j: usize = s.len();
    assert(s@.take(j as int) =~= s@);
    while j > 0
        invariant
            j <= s@.len(),
            last_index_of(s@, c) == last_index_of(s@.take(j as int), c),
        decreases j,
    {
        assert(s@.take(j as int).drop_last() =~= s@.take(j - 1));
        if s[j - 1] == c {
            return Some(j - 1);
        }
        j -= 1;
    }
    None
}

/// The last segment of a folder name.
fn leaf_name_exec(name: &[char]) -> (r: Vec<char>)
    ensures
        r@ == leaf_name(name@),
{
    let n: usize = name.len();
    match last_index_of_exec(name, '.') {
        Some(i) => {
            proof { lemma_last_index_of(name@, '.'); }
            let v = text::slice_to_vec(name, i + 1, name.len());
            assert(v@ =~= name@.skip(i + 1));
            v
        },
        None => match last_index_of_exec(name, '/') {
            Some(i) => {
                proof { lemma_last_index_of(name@, '/'); }
                let v = text::slice_to_vec(name, i + 1, name.len());
                assert(v@ =~= name@.skip(i + 1));
                v
            },
            None => text::slice_to_vec(name, 0, name.len()),
        },
    }
}

/// Whether a known Sent name occurs in `s`.
pub open spec fn has_sent_name(s: Seq<char>) -> bool {
    exists|k: int| 0 <= k < sent_folder_names().len() && text::contains(s, #[trigger] sent_folder_names()[k])
}

/// A folder whose name marks it as a Sent folder: selectable, not
/// excluded, and its last segment, lowercased, holds a known Sent name.
pub open spec fn named_sent(f: FolderInfo) -> bool {
    &&& f.priority != FolderPriority::NoSelect
    &&& f.priority != FolderPriority::Excluded
    &&& has_sent_name(text::lowercase(leaf_name(f.name@)))
}

/// Whether a known Sent name occurs in `s` (see [`has_sent_name`]).
fn has_sent_name_exec(names: &Vec<&str>, s: &[char]) -> (r: bool)
    requires
        text::str_views(names@) == sent_folder_names(),
    ensures
        r == has_sent_name(s@),
{
    let mut k: usize = 0;
    while k < names.len()
        invariant
            k <= names@.len(),
            text::str_views(names@) == sent_folder_names(),
            forall|j: int| 0 <= j < k ==> !text::contains(s@, #[trigger] sent_folder_names()[j]),
        decreases names@.len() - k,
    {
        let known = text::str_chars(names[k]);
        assert(sent_folder_names()[k as int] == names@[k as int]@);
        if text::contains_chars(s, known.as_slice()) {
            return true;
        }
        k += 1;
    }
    false
}

/// The first folder from `from` on whose name marks it as a Sent folder.
pub open spec fn first_named_sent(fs: Seq<FolderInfo>, from: int) -> Option<int>
    decreases fs.len() - from,
{
    if from < 0 || from >= fs.len() {
        None
    } else if named_sent(fs[from]) {
        Some(from)
    } else {
        first_named_sent(fs, from + 1)
    }
}

pub proof fn lemma_first_named_sent(fs: Seq<FolderInfo>, from: int)
    ensures
        first_named_sent(fs, from) matches Some(i) ==> from <= i < fs.len(),
    decreases fs.len() - from,
{
    if 0 <= from < fs.len() && !named_sent(fs[from]) {
        lemma_first_named_sent(fs, from + 1);
    }
}

/// The Sent folder: the first folder with a `Sent` attribute (RFC 6154),
/// else the first whose name marks it as a Sent folder.
pub open spec fn sent_folder(fs: Seq<FolderInfo>) -> Option<Seq<char>> {
    match first_with_attr(fs, "Sent"@, 0) {
        Some(i) => Some(fs[i].name@),
        None => match first_named_sent(fs, 0) {
            Some(i) => Some(fs[i].name@),
            None => None,
        },
    }
}

/// The name of the Sent folder (see [`sent_folder`]).
pub fn find_sent_folder(folders: &[FolderInfo]) -> (r: Option<String>)
    ensures
        text::opt_view(r) == sent_folder(folders@),
{
    proof { lemma_first_with_attr(folders@, "Sent"@, 0); }
    match find_folder_by_attribute(folders, "Sent") {
        Some(name) => {
            return Some(name);
        },
        None => {},
    }
    let names = sent_folder_name_list();
    let mut i: usize = 0;
    while i < folders.len()
        invariant
            i <= folders@.len(),
            text::str_views(names@) == sent_folder_names(),
            first_with_attr(folders@, "Sent"@, 0) is None,
            first_named_sent(folders@, 0) == first_named_sent(folders@, i as int),
        decreases folders@.len() - i,
    {
        let f = &folders[i];
        if f.priority != FolderPriority::NoSelect && f.priority != FolderPriority::Excluded {
            let nc = text::string_chars(&f.name);
            let leaf = leaf_name_exec(nc.as_slice());
            let lower = text::lower_chars(leaf.as_slice());
            assert(folders@[i as int] == *f);
            if has_sent_name_exec(&names, lower.as_slice()) {
                return Some(f.name.clone());
            }
        }
        i += 1;
    }
    None
}

/// Attributes of folders that are not synced outside Gmail.
pub open spec fn skip_attributes() -> Seq<Seq<char>> {
    seq!["Drafts"@, "Trash"@, "Junk"@, "NoSelect"@, "All"@, "Flagged"@]
}

/// Whether a folder is synced: on Gmail only All Mail (an attribute
/// containing `All`), which holds every message once; elsewhere every
/// folder without one of the skipped attributes (compared exactly).
pub open spec fn synced(f: FolderInfo, is_gmail: bool) -> bool {
    if is_gmail {
        any_contains(folder_attrs(f), "All"@)
    } else {
        !(exists|i: int| 0 <= i < folder_attrs(f).len() && skip_attributes().contains(#[trigger] folder_attrs(f)[i]))
    }
}

/// The synced folders among `fs`, in order.
pub open spec fn synced_folders(fs: Seq<FolderInfo>, is_gmail: bool) -> Seq<FolderInfo>
    decreases fs.len(),
{
    if fs.len() == 0 {
        Seq::empty()
    } else if synced(fs.last(), is_gmail) {
        synced_folders(fs.drop_last(), is_gmail).push(fs.last())
    } else {
        synced_folders(fs.drop_last(), is_gmail)
    }
}

/// Whether a folder is synced (see [`synced`]).
fn is_synced(f: &FolderInfo, is_gmail: bool, skips: &Vec<&str>) -> (r: bool)
    requires
        text::str_views(skips@) == skip_attributes(),
    ensures
        r == synced(*f, is_gmail),
{
    if is_gmail {
        return any_attr_contains(f.attributes.as_slice(), "All");
    }
    let ghost av = folder_attrs(*f);
    let mut i: usize = 0;
    while i < f.attributes.len()
        invariant
            i <= f.attributes@.len(),
            av == folder_attrs(*f),
            !is_gmail,
            text::str_views(skips@) == skip_attributes(),
            forall|j: int| 0 <= j < i ==> !skip_attributes().contains(#[trigger] av[j]),
        decreases f.attributes@.len() - i,
    {
        let a = text::string_chars(&f.attributes[i]);
        assert(av[i as int] == a@);
        if text::list_contains(skips, a.as_slice()) {
            assert(skip_attributes().contains(folder_attrs(*f)[i as int]));
            return false;
        }
        i += 1;
    }
    true
}

/// The folders to sync (see [`synced`]), in order.
pub fn folders_to_sync(folders: &[FolderInfo], is_gmail: bool) -> (r: Vec<&FolderInfo>)
    ensures
        r@.map_values(|f: &FolderInfo| *f) == synced_folders(folders@, is_gmail),
{
    let skips = vec!["Drafts", "Trash", "Junk", "NoSelect", "All", "Flagged"];
    assert(text::str_views(skips@) =~= skip_attributes());
    let mut r: Vec<&FolderInfo> = Vec::new();
    let mut i: usize = 0;
    assert(folders@.take(0) =~= Seq::<FolderInfo>::empty());
    while i < folders.len()
        invariant
            i <= folders@.len(),
            text::str_views(skips@) == skip_attributes(),
            r@.map_values(|f: &FolderInfo| *f) == synced_folders(folders@.take(i as int), is_gmail),
        decreases folders@.len() - i,
    {
        assert(folders@.take(i + 1).drop_last() =~= folders@.take(i as int));
        assert(folders@.take(i + 1).last() == folders@[i as int]);
        let ghost r0 = r@;
        if is_synced(&folders[i], is_gmail, &skips) {
            r.push(&folders[i]);
            assert(r@.map_values(|f: &FolderInfo| *f) =~= r0.map_values(|f: &FolderInfo| *f).push(folders@[i as int]));
        }
        i += 1;
    }
    assert(folders@.take(folders@.len() as int) =~= folders@);
    r
}

} // verus!
