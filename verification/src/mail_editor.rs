//! The scripts that drive the rich-text compose editor in the page.

use vstd::prelude::*;
use crate::text::owned;

verus! {

broadcast use vstd::string::group_string_axioms;

/// The id of the compose editor element.
pub const MAIL_COMPOSE_EDITOR_ID: &'static str = "mail-compose-editor";

/// A lower-case hexadecimal digit.
pub open spec fn hex_digit(n: int) -> char {
    if n < 10 {
        ('0' as int + n) as char
    } else {
        ('a' as int + n - 10) as char
    }
}

/// How `serde_json` writes one character inside a JSON string: a quote and
/// a backslash behind a backslash; backspace, tab, line feed, form feed and
/// carriage return as `\b`, `\t`, `\n`, `\f`, `\r`; any other character
/// below U+0020 as `\u00` and two lower-case hex digits; every other
/// character as it is.
pub open spec fn json_escape_char(c: char) -> Seq<char> {
    if c == '"' {
        seq!['\\', '"']
    } else if c == '\\' {
        seq!['\\', '\\']
    } else if c == '\u{8}' {
        seq!['\\', 'b']
    } else if c == '\t' {
        seq!['\\', 't']
    } else if c == '\n' {
        seq!['\\', 'n']
    } else if c == '\u{c}' {
        seq!['\\', 'f']
    } else if c == '\r' {
        seq!['\\', 'r']
    } else if (c as int) < 0x20 {
        seq!['\\', 'u', '0', '0', hex_digit(c as int / 16), hex_digit(c as int % 16)]
    } else {
        seq![c]
    }
}

/// The characters of a string, each escaped for JSON.
pub open spec fn json_escaped(s: Seq<char>) -> Seq<char>
    decreases s.len(),
{
    if s.len() == 0 {
        Seq::empty()
    } else {
        json_escaped(s.drop_last()) + json_escape_char(s.last())
    }
}

/// The JSON text of a string as `serde_json` writes it: the escaped string in
/// double quotes.
pub open spec fn json_string(s: Seq<char>) -> Seq<char> {
    seq!['"'] + json_escaped(s) + seq!['"']
}

/// Encodes a string as JSON text.
///
/// Trusted: calls `serde_json::to_string` on a string slice. Claimed: it
/// succeeds, and the text is `json_string` of the input, as the serializer's
/// escape table (`ESCAPE` and `format_escaped_str` in `ser.rs`) writes it.
/// For a string the serializer only writes into a `Vec<u8>`, and that write
/// cannot fail, so no error comes back.
#[verifier::external_body]
fn json_encode(s: &str) -> (r: Option<String>)
    ensures
        r.is_some(),
        r.unwrap()@ == json_string(s@),
{
    serde_json::to_string(s).ok()
}

/// The JSON text, or the given fallback when encoding failed.
pub open spec fn json_or(j: Option<Seq<char>>, fallback: Seq<char>) -> Seq<char> {
    match j {
        Some(x) => x,
        None => fallback,
    }
}

/// The script that runs an editor command.
pub open spec fn command_script(editor_json: Seq<char>, action_json: Seq<char>) -> Seq<char> {
    "window.UncloudMailEditor && window.UncloudMailEditor.command("@ + editor_json + ", "@ + action_json
        + ");"@
}

/// The script that runs an editor command, from the JSON texts of the editor
/// id and the action; a missing text falls back to the quoted editor id and to
/// an empty JSON string.
pub fn editor_command_script_from(editor_json: Option<String>, action_json: Option<String>) -> (r: String)
    ensures
        r@ == command_script(
            json_or(crate::mail_model::opt_view(editor_json), "\"mail-compose-editor\""@),
            json_or(crate::mail_model::opt_view(action_json), "\"\""@),
        ),
{
    let e = match editor_json {
        Some(x) => x,
        None => owned("\"mail-compose-editor\""),
    };
    let a = match action_json {
        Some(x) => x,
        None => owned("\"\""),
    };
    let mut out = owned("window.UncloudMailEditor && window.UncloudMailEditor.command(");
    out.append(e.as_str());
    out.append(", ");
    out.append(a.as_str());
    out.append(");");
    out
}

/// The script that runs `action` in the compose editor, with the editor id
/// and the action encoded as JSON.
pub fn mail_editor_command_script(action: &str) -> (r: String)
    ensures
        r@ == command_script(json_string(MAIL_COMPOSE_EDITOR_ID@), json_string(action@)),
{
    let e = json_encode(MAIL_COMPOSE_EDITOR_ID);
    let a = json_encode(action);
    editor_command_script_from(e, a)
}

/// The script that mounts the editor with some HTML content, or destroys it.
pub open spec fn mount_script(show: bool, editor_json: Seq<char>, content_json: Seq<char>) -> Seq<char> {
    if show {
        "window.UncloudMailEditor && window.UncloudMailEditor.mount("@ + editor_json + ", "@
            + content_json + ");"@
    } else {
        "window.UncloudMailEditor && window.UncloudMailEditor.destroy("@ + editor_json + ");"@
    }
}

/// The script that mounts the editor or destroys it, from the JSON texts of
/// the editor id and the content; a missing text falls back to the quoted
/// editor id and to an empty JSON string.
pub fn mount_script_from(show: bool, editor_json: Option<String>, content_json: Option<String>) -> (r: String)
    ensures
        r@ == mount_script(
            show,
            json_or(crate::mail_model::opt_view(editor_json), "\"mail-compose-editor\""@),
            json_or(crate::mail_model::opt_view(content_json), "\"\""@),
        ),
{
    let e = match editor_json {
        Some(x) => x,
        None => owned("\"mail-compose-editor\""),
    };
    if !show {
        let mut out = owned("window.UncloudMailEditor && window.UncloudMailEditor.destroy(");
        out.append(e.as_str());
        out.append(");");
        return out;
    }
    let c = match content_json {
        Some(x) => x,
        None => owned("\"\""),
    };
    let mut out = owned("window.UncloudMailEditor && window.UncloudMailEditor.mount(");
    out.append(e.as_str());
    out.append(", ");
    out.append(c.as_str());
    out.append(");");
    out
}

/// The script that mounts the compose editor with `content_html` while the
/// compose window shows, and destroys it otherwise. The content is encoded
/// only when the editor is mounted.
pub fn mail_editor_mount_script(show: bool, content_html: &str) -> (r: String)
    ensures
        r@ == mount_script(show, json_string(MAIL_COMPOSE_EDITOR_ID@), json_string(content_html@)),
{
    let e = json_encode(MAIL_COMPOSE_EDITOR_ID);
    let c = if show {
        json_encode(content_html)
    } else {
        None
    };
    mount_script_from(show, e, c)
}

} // verus!
