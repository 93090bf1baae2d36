use vstd::prelude::*;
use vstd::string::StrSliceExecFns;

verus! {

/// How many characters of a backend's message are kept.
pub const MESSAGE_LIMIT: usize = 512;

/// At most the first `limit` characters of a text.
pub open spec fn bounded(text: Seq<char>, limit: int) -> Seq<char> {
    if text.len() <= limit {
        text
    } else {
        text.take(limit)
    }
}

/// Keeps at most the first `limit` characters of a message.
pub fn bounded_text(message: String, limit: usize) -> (text: String)
    ensures
        text@ == bounded(message@, limit as int),
{
    if message.as_str().unicode_len() <= limit {
        return message;
    }
    let text: String = message.as_str().substring_char(0, limit).to_owned();
    assert(text@ =~= message@.take(limit as int));
    text
}

/// Why a worker stopped. `Capacity` is the host being full for a whole bounded
/// wait, which the caller is owed as busy rather than as a failed build.
#[derive(Debug, PartialEq, Eq)]
pub enum WorkerError {
    Failed(String),
    Capacity(String),
}

impl WorkerError {
    pub fn new(message: String) -> (error: WorkerError)
        ensures
            error matches WorkerError::Failed(text) && text@ == bounded(
                message@,
                MESSAGE_LIMIT as int,
            ),
    {
        WorkerError::Failed(bounded_text(message, MESSAGE_LIMIT))
    }

    /// No slot came free before the deadline: retry later, nothing is broken.
    pub fn capacity(message: String) -> (error: WorkerError)
        ensures
            error matches WorkerError::Capacity(text) && text@ == bounded(
                message@,
                MESSAGE_LIMIT as int,
            ),
    {
        WorkerError::Capacity(bounded_text(message, MESSAGE_LIMIT))
    }

    pub fn is_capacity(&self) -> (is: bool)
        ensures
            is == (self is Capacity),
    {
        match self {
            WorkerError::Capacity(_) => true,
            WorkerError::Failed(_) => false,
        }
    }

    /// The text the error reads as.
    pub open spec fn text(&self) -> Seq<char> {
        match self {
            WorkerError::Failed(text) => text@,
            WorkerError::Capacity(text) => text@,
        }
    }

    pub fn message(&self) -> (text: &String)
        ensures
            text@ == self.text(),
    {
        match self {
            WorkerError::Failed(text) => text,
            WorkerError::Capacity(text) => text,
        }
    }
}

impl Clone for WorkerError {
    fn clone(&self) -> (copy: WorkerError)
        ensures
            copy == *self,
    {
        match self {
            WorkerError::Failed(text) => WorkerError::Failed(text.clone()),
            WorkerError::Capacity(text) => WorkerError::Capacity(text.clone()),
        }
    }
}

/// A message is kept whole while it fits, and cut at its end where it does not.
pub proof fn law_message_is_cut_at_its_end(text: Seq<char>, limit: int)
    requires
        0 <= limit,
    ensures
        bounded(text, limit).is_prefix_of(text),
        text.len() <= limit ==> bounded(text, limit) == text,
        text.len() > limit ==> bounded(text, limit).len() == limit,
{
}

} // verus!
