//! The commands for the daemon and their form on the wire.
//!
//! A command travels as one JSON text with no terminator of its own:
//! `{"ActOnFakeKey":{"name":"<virtual key>","action":"Press"}}`, or the same
//! with `"Release"`. The frame is written here; the name between its quotes is
//! written by `serde_json`, which knows what JSON wants escaped.

use vstd::prelude::*;
use vstd::string::*;

verus! {

/// What a command does to a virtual key.
#[derive(Clone, Copy, Debug, PartialEq, Eq, Structural)]
pub enum Action {
    Press,
    Release,
}

/// One command for the daemon: act on the virtual key called `name`.
#[derive(Clone, Debug, PartialEq, Eq)]
pub struct Command {
    pub name: String,
    pub action: Action,
}

/// A command as a value of the model: the name as text.
pub struct CommandView {
    pub name: Seq<char>,
    pub action: Action,
}

impl View for Command {
    type V = CommandView;

    open spec fn view(&self) -> CommandView {
        CommandView { name: self.name@, action: self.action }
    }
}

/// The command that presses `name`.
pub open spec fn press(name: Seq<char>) -> CommandView {
    CommandView { name, action: Action::Press }
}

/// The command that releases `name`.
pub open spec fn release(name: Seq<char>) -> CommandView {
    CommandView { name, action: Action::Release }
}

/// The JSON string literal, quotes included, that `serde_json` writes for
/// `text`.
pub uninterp spec fn json_string(text: Seq<char>) -> Seq<char>;

/// `serde_json::Error`: what the JSON writer hands back where it fails. It
/// is carried through and never looked into.
#[verifier::external_type_specification]
#[verifier::external_body]
pub struct ExJsonError(serde_json::Error);

/// Calls `serde_json::to_string` on a string slice. Claims that the call
/// succeeds, and that what comes back is a function of the text alone, which
/// is called `json_string`. The writer fails where a value refuses to be
/// written, where a map has a key that is no string, or where its sink
/// reports an error: a string slice is neither such a value nor a map, and
/// the sink here is a byte vector in memory, which takes whatever is
/// appended.
#[verifier::external_body]
fn json_quote(text: &str) -> (quoted: Result<String, serde_json::Error>)
    ensures
        quoted is Ok,
        quoted matches Ok(literal) ==> literal@ == json_string(text@),
{
    serde_json::to_string(text)
}

/// The name of an action as the daemon spells it.
pub open spec fn action_text(action: Action) -> Seq<char> {
    match action {
        Action::Press => "Press"@,
        Action::Release => "Release"@,
    }
}

/// The wire text of a command on the virtual key whose name, as a JSON
/// string literal, is `name_literal`.
pub open spec fn wire_text(name_literal: Seq<char>, action: Action) -> Seq<char> {
    "{\"ActOnFakeKey\":{\"name\":"@ + name_literal + ",\"action\":\""@ + action_text(action)
        + "\"}}"@
}

/// The JSON writer handed back an error where the literal of a name was
/// asked of it, so that there is no wire text.
#[derive(Clone, Copy, Debug, PartialEq, Eq, Structural)]
pub struct EncodeError;

/// Puts the frame of a command round `name_literal`, the name of the virtual
/// key as a JSON string literal.
pub fn frame(name_literal: &str, action: Action) -> (text: String)
    ensures
        text@ == wire_text(name_literal@, action),
{
    let mut text = "{\"ActOnFakeKey\":{\"name\":".to_owned();
    text.append(name_literal);
    text.append(",\"action\":\"");
    match action {
        Action::Press => text.append("Press"),
        Action::Release => text.append("Release"),
    }
    text.append("\"}}");
    text
}

impl Command {
    /// The wire text of the command: the frame round the literal that the
    /// JSON writer makes of the name. Every command has one, whatever its
    /// name holds.
    pub fn encode(&self) -> (encoded: Result<String, EncodeError>)
        ensures
            encoded is Ok,
            encoded matches Ok(text) ==> text@ == wire_text(json_string(self@.name), self@.action),
    {
        wire_form(json_quote(self.name.as_str()), self.action)
    }
}

/// Makes the wire text of a command from what the JSON writer handed back
/// for the name of its virtual key: the frame round the literal where the
/// writer gave one, and the error where it refused.
pub fn wire_form(quoted: Result<String, serde_json::Error>, action: Action) -> (encoded: Result<
    String,
    EncodeError,
>)
    ensures
        quoted matches Ok(literal) ==> encoded matches Ok(text) && text@ == wire_text(
            literal@,
            action,
        ),
        quoted is Err ==> encoded == Err::<String, EncodeError>(EncodeError),
{
    match quoted {
        Ok(literal) => Ok(frame(literal.as_str(), action)),
        Err(_) => Err(EncodeError),
    }
}

} // verus!
