//! Setting up a new account and gating queued actions: the tasks of a new
//! account, when its setup counts as complete, whether an action may be
//! queued, and which messages a queued `mark_read` marks.
use vstd::prelude::*;
use crate::text;
use crate::mime::EddieError;

verus! {

broadcast use vstd::string::group_string_axioms;

/// An onboarding task of an account and its status (such as `pending` or `done`).
pub struct Task {
    pub name: String,
    pub status: String,
}

/// A task as the front end receives it.
pub struct TaskStatus {
    pub name: String,
    pub status: String,
}

/// A contact of the trust network as the front end receives it.
pub struct TrustContact {
    pub name: String,
    pub email: String,
    pub message_count: i32,
}

/// Where onboarding of an account stands.
pub struct OnboardingStatus {
    pub tasks: Vec<TaskStatus>,
    pub message_count: usize,
    pub trust_contacts: Vec<TrustContact>,
    pub trust_contact_count: usize,
    pub is_complete: bool,
}

/// The tasks every new account goes through, in order.
pub open spec fn onboarding_task_names() -> Seq<Seq<char>> {
    seq!["trust_network"@, "historical_fetch"@, "connection_history"@]
}

/// The tasks every new account goes through, in order.
pub fn onboarding_tasks() -> (r: Vec<String>)
    ensures
        text::string_views(r@) == onboarding_task_names(),
{
    let mut r: Vec<String> = Vec::new();
    r.push("trust_network".to_string());
    r.push("historical_fetch".to_string());
    r.push("connection_history".to_string());
    assert(text::string_views(r@) =~= onboarding_task_names());
    r
}

/// How many messages make onboarding complete whatever the tasks.
pub open spec fn enough_messages() -> usize {
    600
}

/// Onboarding is complete when there are tasks and all are done, or when
/// enough messages have arrived.
pub open spec fn onboarding_complete(tasks: Seq<Task>, message_count: usize) -> bool {
    (tasks.len() > 0 && forall|i: int| 0 <= i < tasks.len() ==> (#[trigger] tasks[i]).status@ == "done"@)
        || message_count >= enough_messages()
}

/// Where onboarding stands: the tasks with their statuses, the counts and
/// contacts given, and whether it is complete (see [`onboarding_complete`]).
pub fn onboarding_status(tasks: Vec<Task>, message_count: usize, trust_contacts: Vec<TrustContact>, trust_contact_count: usize) -> (r: OnboardingStatus)
    ensures
        r.tasks@.len() == tasks@.len(),
        forall|i: int| 0 <= i < tasks@.len() ==> (#[trigger] r.tasks@[i]).name@ == tasks@[i].name@
            && r.tasks@[i].status@ == tasks@[i].status@,
        r.message_count == message_count,
        r.trust_contacts@ == trust_contacts@,
        r.trust_contact_count == trust_contact_count,
        r.is_complete == onboarding_complete(tasks@, message_count),
{
    let mut all_done = tasks.len() > 0;
    let mut statuses: Vec<TaskStatus> = Vec::new();
    let mut i: usize = 0;
    while i < tasks.len()
        invariant
            i <= tasks@.len(),
            statuses@.len() == i,
            forall|k: int| 0 <= k < i ==> (#[trigger] statuses@[k]).name@ == tasks@[k].name@
                && statuses@[k].status@ == tasks@[k].status@,
            all_done == (tasks@.len() > 0 && forall|k: int| 0 <= k < i ==> (#[trigger] tasks@[k]).status@ == "done"@),
        decreases tasks@.len() - i,
    {
        let t: &Task = &tasks[i];
        let done = text::chars_eq(text::string_chars(&t.status).as_slice(), text::str_chars("done").as_slice());
        if !done {
            all_done = false;
        }
        statuses.push(TaskStatus { name: t.name.clone(), status: t.status.clone() });
        i += 1;
    }
    let is_complete = all_done || message_count >= 600;
    OnboardingStatus { tasks: statuses, message_count, trust_contacts, trust_contact_count, is_complete }
}

// ── Queued actions ──────────────────────────────────────────────────────────

/// Whether the `write_mode` setting allows actions: only `true` does; a
/// missing setting does not.
pub fn write_mode_enabled(setting: Option<&str>) -> (r: bool)
    ensures
        r == (setting matches Some(s) && s@ == "true"@),
{
    match setting {
        Some(s) => text::chars_eq(text::str_chars(s).as_slice(), text::str_chars("true").as_slice()),
        None => false,
    }
}

/// An action may be queued only in write mode; otherwise it is refused as
/// invalid input.
pub fn action_gate(write_mode: bool) -> (r: Result<(), EddieError>)
    ensures
        write_mode ==> r is Ok,
        !write_mode ==> (r matches Err(EddieError::InvalidInput(m)) && m@ == "Read-only mode: action not permitted"@),
{
    if write_mode {
        Ok(())
    } else {
        Err(EddieError::InvalidInput("Read-only mode: action not permitted".to_string()))
    }
}

/// The items of the array that member `key` of the JSON object in `text`
/// holds, each as its string when it is a string; `None` when the text is
/// not JSON or the member is missing or not an array.
pub uninterp spec fn json_member_items(text: Seq<char>, key: Seq<char>) -> Option<Seq<Option<Seq<char>>>>;

/// `serde_json::from_str` into a `Value`, then indexing by `key` and
/// `as_array`, with `as_str` of each item. The contract claims the outcome
/// is the one named `json_member_items`; JSON is not restated.
#[verifier::external_body]
fn json_member_array(text: &str, key: &str) -> (r: Option<Vec<Option<String>>>)
    ensures
        match r {
            Some(v) => json_member_items(text@, key@) == Some(crate::classifier::items_view(v@)),
            None => json_member_items(text@, key@) is None,
        },
{
    let parsed = serde_json::from_str::<serde_json::Value>(text).ok()?;
    Some(parsed[key].as_array()?.iter().map(|x| x.as_str().map(str::to_owned)).collect())
}

/// The messages a queued `mark_read` marks as seen at once: the strings of
/// the `ids` array of its payload (none when there is no such array).
pub fn mark_read_ids(payload: &str) -> (r: Vec<String>)
    ensures
        text::string_views(r@) == match json_member_items(payload@, "ids"@) {
            Some(items) => crate::classifier::array_strings(items),
            None => Seq::empty(),
        },
{
    match json_member_array(payload, "ids") {
        Some(v) => {
            let ghost iv = crate::classifier::items_view(v@);
            let mut r: Vec<String> = Vec::new();
            let mut i: usize = 0;
            while i < v.len()
                invariant
                    i <= v@.len(),
                    iv == crate::classifier::items_view(v@),
                    text::string_views(r@) == crate::classifier::array_strings(iv.take(i as int)),
                decreases v@.len() - i,
            {
                assert(iv.take(i + 1).drop_last() =~= iv.take(i as int));
                assert(iv.take(i + 1).last() == text::opt_view(v@[i as int]));
                match &v[i] {
                    Some(s) => {
                        let ghost r0 = text::string_views(r@);
                        r.push(s.clone());
                        assert(text::string_views(r@) =~= r0.push(s@));
                    },
                    None => {},
                }
                i += 1;
            }
            assert(iv.take(v@.len() as int) =~= iv);
            r
        },
        None => Vec::new(),
    }
}

} // verus!
