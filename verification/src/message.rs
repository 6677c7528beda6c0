//! Structured events that workers send to the aggregation service.
use vstd::prelude::*;

verus! {

/// Mathematical form of a [`Message`]: text as character sequences,
/// counts as unbounded naturals.
pub enum MessageModel {
    Fixing { file: Seq<char>, fix_count: nat },
    ReplaceFailed { file: Seq<char>, message: Seq<char> },
    FixFailed { files: Seq<Seq<char>>, krate: Option<Seq<char>> },
}

/// An immutable, structured event emitted by a worker.  Each message is
/// created by one worker, transmitted once, and consumed exactly once by
/// the aggregator.
pub enum Message {
    /// A worker successfully rewrote `file`, applying `fix_count` suggestions.
    Fixing { file: String, fix_count: usize },
    /// Applying a suggestion to `file` failed; `message` is the underlying
    /// diagnostic text.
    ReplaceFailed { file: String, message: String },
    /// After rewriting, recompilation of `krate` (or of the whole unit, if
    /// unnamed) still reported errors localized to `files`.
    FixFailed { files: Vec<String>, krate: Option<String> },
}

impl View for Message {
    type V = MessageModel;

    open spec fn view(&self) -> MessageModel {
        match self {
            Message::Fixing { file, fix_count } => MessageModel::Fixing {
                file: file@,
                fix_count: *fix_count as nat,
            },
            Message::ReplaceFailed { file, message } => MessageModel::ReplaceFailed {
                file: file@,
                message: message@,
            },
            Message::FixFailed { files, krate } => MessageModel::FixFailed {
                files: files@.map_values(|f: String| f@),
                krate: match krate {
                    Option::Some(k) => Option::Some(k@),
                    Option::None => Option::None,
                },
            },
        }
    }
}

} // verus!
