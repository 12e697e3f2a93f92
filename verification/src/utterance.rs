use vstd::prelude::*;

verus! {

/// The number of symbols in a session id.
pub const SESSION_ID_LEN: usize = 10;

/// The language that a query is in where the caller names none.
pub open spec fn default_language() -> Seq<char> {
    "en"@
}

/// The symbols that a session id is made of: letters, digits, `_` and `-`.
pub open spec fn is_safe_symbol(c: char) -> bool {
    c == '_' || c == '-' || ('0' <= c && c <= '9') || ('a' <= c && c <= 'z') || ('A' <= c && c
        <= 'Z')
}

/// Whether `id` can be a session id.
pub open spec fn is_session_id(id: Seq<char>) -> bool {
    id.len() == SESSION_ID_LEN && forall|i: int|
        0 <= i < id.len() ==> is_safe_symbol(#[trigger] id[i])
}

/// The path of a session of the agent of a project.
pub open spec fn session_path_of(project_id: Seq<char>, session_id: Seq<char>) -> Seq<char> {
    "projects/"@ + project_id + "/agent/sessions/"@ + session_id
}

/// The path of an intent of the agent of a project.
pub open spec fn intent_path_of(project_id: Seq<char>, intent_id: Seq<char>) -> Seq<char> {
    "projects/"@ + project_id + "/agent/intents/"@ + intent_id
}

/// What the intent classifier is asked: a text, its language, and the session that the
/// question belongs to.
#[derive(Clone, Debug, PartialEq, Eq)]
pub struct DetectRequest {
    pub session: String,
    pub text: String,
    pub language_code: String,
}

/// Calls `nanoid::format` with `nanoid::rngs::default` as the source of random bytes and
/// `nanoid::alphabet::SAFE` as the alphabet. Which id comes back is left open: it has
/// `size` symbols, each of them a letter, a digit, `_` or `-`. With no symbol asked for the
/// call would not return, and a size near the largest number would overflow: both are left
/// out.
#[verifier::external_body]
fn random_id(size: usize) -> (id: String)
    requires
        0 < size <= 0x0fff_ffff,
    ensures
        id@.len() == size,
        forall|i: int| 0 <= i < id@.len() ==> is_safe_symbol(#[trigger] id@[i]),
{
    nanoid::format(nanoid::rngs::default, &nanoid::alphabet::SAFE, size)
}

/// A fresh random session id.
pub fn session_id() -> (id: String)
    ensures
        is_session_id(id@),
{
    random_id(SESSION_ID_LEN)
}

/// The path of the session `session_id` of the agent of the project `project_id`.
pub fn session_path(project_id: &str, session_id: &str) -> (path: String)
    ensures
        path@ == session_path_of(project_id@, session_id@),
{
    let mut path = String::new();
    path.append("projects/");
    path.append(project_id);
    path.append("/agent/sessions/");
    path.append(session_id);
    path
}

/// The path of the intent `intent_id` of the agent of the project `project_id`.
pub fn intent_path(project_id: &str, intent_id: &str) -> (path: String)
    ensures
        path@ == intent_path_of(project_id@, intent_id@),
{
    let mut path = String::new();
    path.append("projects/");
    path.append(project_id);
    path.append("/agent/intents/");
    path.append(intent_id);
    path
}

/// The question to the intent classifier about `text`, in a session of its own. The
/// language is English where none is given.
pub fn detect_request(
    project_id: &str,
    text: &str,
    language_code: Option<&str>,
) -> (request: DetectRequest)
    ensures
        request.text@ == text@,
        request.language_code@ == match language_code {
            Some(code) => code@,
            None => default_language(),
        },
        exists|id: Seq<char>|
            is_session_id(id) && request.session@ == #[trigger] session_path_of(project_id@, id),
{
    let id = session_id();
    let session = session_path(project_id, id.as_str());
    let language_code = match language_code {
        Some(code) => code.to_owned(),
        None => "en".to_owned(),
    };
    DetectRequest { session, text: text.to_owned(), language_code }
}

} // verus!
