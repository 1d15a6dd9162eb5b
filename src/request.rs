//! The bodies of the two requests to the remote service, the idempotency
//! keys that close commands carry, and how an answer's status is read.
use vstd::prelude::*;
use crate::error::Error;
use crate::text::{decimal_text, digit_char, push_decimal};

verus! {

pub open spec fn is_lower_hex(c: char) -> bool {
    ('0' <= c && c <= '9') || ('a' <= c && c <= 'f')
}

/// A version-4 UUID in its hyphenated lowercase form.
pub open spec fn is_uuid_v4_text(s: Seq<char>) -> bool {
    &&& s.len() == 36
    &&& forall|i: int|
        0 <= i < 36 ==> if i == 8 || i == 13 || i == 18 || i == 23 {
            #[trigger] s[i] == '-'
        } else {
            is_lower_hex(s[i])
        }
    &&& s[14] == '4'
    &&& (s[19] == '8' || s[19] == '9' || s[19] == 'a' || s[19] == 'b')
}

/// Relies on uuid::Uuid::new_v4 and the Display of Uuid: a random version-4
/// UUID, written as 36 lowercase hex digits and hyphens. `new_v4` panics only
/// where the operating system cannot supply random bytes.
#[verifier::external_body]
fn new_uuid() -> (r: String)
    ensures
        is_uuid_v4_text(r@),
{
    uuid::Uuid::new_v4().to_string()
}

/// A hex digit in lowercase.
pub open spec fn hex_digit(d: int) -> char {
    if d < 10 {
        digit_char(d as nat)
    } else if d == 10 { 'a' }
    else if d == 11 { 'b' }
    else if d == 12 { 'c' }
    else if d == 13 { 'd' }
    else if d == 14 { 'e' }
    else { 'f' }
}

/// How one character is written inside a JSON string: quote and backslash
/// escaped, the five named controls by letter, other controls as `\u00xx`,
/// everything else as itself.
pub open spec fn json_escape_char(c: char) -> Seq<char> {
    let n = c as u32 as int;
    if c == '"' {
        seq!['\\', '"']
    } else if c == '\\' {
        seq!['\\', '\\']
    } else if n == 8 {
        seq!['\\', 'b']
    } else if n == 9 {
        seq!['\\', 't']
    } else if n == 10 {
        seq!['\\', 'n']
    } else if n == 12 {
        seq!['\\', 'f']
    } else if n == 13 {
        seq!['\\', 'r']
    } else if n < 32 {
        seq!['\\', 'u', '0', '0', hex_digit(n / 16), hex_digit(n % 16)]
    } else {
        seq![c]
    }
}

pub open spec fn json_escaped(s: Seq<char>) -> Seq<char>
    decreases s.len(),
{
    if s.len() == 0 {
        Seq::empty()
    } else {
        json_escaped(s.drop_last()) + json_escape_char(s.last())
    }
}

/// The JSON string literal that stands for `s`.
pub open spec fn json_string_text(s: Seq<char>) -> Seq<char> {
    seq!['"'] + json_escaped(s) + seq!['"']
}

/// Relies on the Display of serde_json::Value: a `Value::String` is written
/// as its JSON string literal, escaped character by character as the table
/// `ESCAPE` and `write_char_escape` of serde_json's serializer do.
#[verifier::external_body]
fn json_string(s: &str) -> (r: String)
    ensures
        r@ == json_string_text(s@),
{
    serde_json::Value::String(s.to_owned()).to_string()
}

/// A fresh random identifier for one remote command. The remote service
/// drops a command whose key it has seen, so a resent command takes effect
/// once, and each new command gets a new key.
pub struct IdempotencyKey {
    text: String,
}

impl IdempotencyKey {
    pub closed spec fn view(&self) -> Seq<char> {
        self.text@
    }

    pub fn fresh() -> (r: IdempotencyKey)
        ensures
            is_uuid_v4_text(r@),
    {
        IdempotencyKey { text: new_uuid() }
    }

    pub fn as_str(&self) -> (r: &str)
        ensures
            r@ == self@,
    {
        self.text.as_str()
    }
}

/// `{"project_id":N}`, the body that asks for a project's tasks.
pub open spec fn project_data_text(project_id: nat) -> Seq<char> {
    "{\"project_id\":"@ + decimal_text(project_id) + "}"@
}

pub fn project_data_body(project_id: u32) -> (r: String)
    ensures
        r@ == project_data_text(project_id as nat),
{
    let mut s = String::from_str("{\"project_id\":");
    push_decimal(&mut s, project_id);
    s.append("}");
    proof {
        reveal_strlit("{\"project_id\":");
        reveal_strlit("}");
    }
    s
}

/// The body of a sync request with one `item_close` command for the task
/// whose id is written as the JSON literal `json_id`.
pub open spec fn close_text(json_id: Seq<char>, uuid: Seq<char>, temp_id: Seq<char>) -> Seq<char> {
    "{\"commands\":[{\"type\":\"item_close\",\"uuid\":\""@ + uuid + "\",\"temp_id\":\""@ + temp_id
        + "\",\"args\":{\"id\":"@ + json_id + "}}]}"@
}

pub fn close_body(json_id: &str, uuid: &str, temp_id: &str) -> (r: String)
    ensures
        r@ == close_text(json_id@, uuid@, temp_id@),
{
    let mut s = String::from_str("{\"commands\":[{\"type\":\"item_close\",\"uuid\":\"");
    s.append(uuid);
    s.append("\",\"temp_id\":\"");
    s.append(temp_id);
    s.append("\",\"args\":{\"id\":");
    s.append(json_id);
    s.append("}}]}");
    proof {
        reveal_strlit("{\"commands\":[{\"type\":\"item_close\",\"uuid\":\"");
        reveal_strlit("\",\"temp_id\":\"");
        reveal_strlit("\",\"args\":{\"id\":");
        reveal_strlit("}}]}");
    }
    s
}

/// The body that closes task `task_id`, with two fresh keys: one the remote
/// service de-duplicates by, one naming the command within the request.
pub fn close_command(task_id: &str) -> (r: String)
    ensures
        exists|u: Seq<char>, t: Seq<char>|
            is_uuid_v4_text(u) && is_uuid_v4_text(t) && r@ == close_text(
                json_string_text(task_id@),
                u,
                t,
            ),
{
    let uuid = IdempotencyKey::fresh();
    let temp_id = IdempotencyKey::fresh();
    let id = json_string(task_id);
    close_body(id.as_str(), uuid.as_str(), temp_id.as_str())
}

/// A remote answer counts as success exactly when its status is 2xx; then
/// its body is the result, else the status and body are the error.
pub fn check_response(status: u16, body: String) -> (r: Result<String, Error>)
    ensures
        200 <= status < 300 ==> r == Ok::<String, Error>(body),
        !(200 <= status < 300) ==> r == Err::<String, Error>(Error::RemoteError { status, body }),
{
    if 200 <= status && status < 300 {
        Ok(body)
    } else {
        Err(Error::RemoteError { status, body })
    }
}

} // verus!
