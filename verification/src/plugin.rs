//! The plugin interface: the before and after contents that a host hands
//! over become the file change that the semantic diff works on, and each
//! changed entity becomes a change record with a JSON snapshot.
use vstd::prelude::*;
use crate::text::{decimal, hex_digit, push_decimal, push_text};

verus! {

/// How a file changed.
#[derive(Clone, Copy, Debug, PartialEq, Eq, Structural)]
pub enum FileStatus {
    Added,
    Modified,
    Deleted,
}

/// One changed file, with its contents before and after.
#[derive(Debug)]
pub struct FileChange {
    pub file_path: String,
    pub status: FileStatus,
    pub old_file_path: Option<String>,
    pub before_content: Option<String>,
    pub after_content: Option<String>,
}

/// The status of a file given whether it had contents before and whether
/// it has none after.
pub open spec fn status_of(had_before: bool, after_empty: bool) -> FileStatus {
    if !had_before {
        FileStatus::Added
    } else if after_empty {
        FileStatus::Deleted
    } else {
        FileStatus::Modified
    }
}

/// The change of the file `path` from `before` (absent for a new file) to
/// `after` (empty for a removed file).  An empty `after` stands for no
/// contents.
pub fn file_change_for(path: String, before: Option<String>, after: String) -> (r: FileChange)
    ensures
        r.file_path == path,
        r.status == status_of(before is Some, after@.len() == 0),
        r.old_file_path is None,
        r.before_content == before,
        after@.len() == 0 ==> r.after_content is None,
        after@.len() > 0 ==> r.after_content == Some(after),
{
    let after_empty = after.as_str().is_empty();
    let status = if before.is_none() {
        FileStatus::Added
    } else if after_empty {
        FileStatus::Deleted
    } else {
        FileStatus::Modified
    };
    FileChange {
        file_path: path,
        status,
        old_file_path: None,
        before_content: before,
        after_content: if after_empty {
            None
        } else {
            Some(after)
        },
    }
}

/// The text that `bytes` encode in UTF-8 where they are a valid encoding
/// (well-formed, not overlong, no surrogates), and nothing where they are not.
pub open spec fn utf8_text(bytes: Seq<u8>) -> Option<Seq<char>> {
    if vstd::utf8::valid_utf8(bytes) {
        Some(vstd::utf8::decode_utf8(bytes))
    } else {
        None
    }
}

#[verifier::external_type_specification]
#[verifier::external_body]
pub struct ExFromUtf8Error(std::string::FromUtf8Error);

/// Calls `String::from_utf8`.  Claimed, as std documents it: it succeeds
/// exactly where the bytes are valid UTF-8, and the string holds the text
/// they encode.
#[verifier::external_body]
fn string_from_utf8(bytes: Vec<u8>) -> (r: Result<String, std::string::FromUtf8Error>)
    ensures
        match r {
            Ok(s) => utf8_text(bytes@) == Some(s@),
            Err(_) => utf8_text(bytes@) is None,
        },
{
    String::from_utf8(bytes)
}

/// Input that the plugin refuses: contents that are not UTF-8.
#[derive(Debug)]
pub enum InvalidInput {
    /// The contents before the change.
    Before(std::string::FromUtf8Error),
    /// The contents after the change.
    After(std::string::FromUtf8Error),
}

/// The file change for the bytes that a host hands over: `before` (absent
/// for a new file) and `after` (empty for a removed file) decoded as UTF-8,
/// `after` first.
pub fn file_change_from_bytes(path: String, before: Option<Vec<u8>>, after: Vec<u8>) -> (r: Result<
    FileChange,
    InvalidInput,
>)
    ensures
        r is Ok <==> (utf8_text(after@) is Some && (before matches Some(b) ==> utf8_text(b@) is Some)),
        r matches Err(InvalidInput::After(_)) <==> utf8_text(after@) is None,
        match r {
            Ok(fc) => {
                &&& utf8_text(after@) matches Some(a)
                &&& fc.file_path == path
                &&& fc.status == status_of(before is Some, a.len() == 0)
                &&& fc.old_file_path is None
                &&& (a.len() == 0 ==> fc.after_content is None)
                &&& (a.len() > 0 ==> (fc.after_content matches Some(s) && s@ == a))
                &&& (before is None ==> fc.before_content is None)
                &&& (before matches Some(b) ==> (fc.before_content matches Some(s) && utf8_text(b@)
                    == Some(s@)))
            },
            Err(_) => true,
        },
{
    let after_text = match string_from_utf8(after) {
        Ok(s) => s,
        Err(e) => {
            return Err(InvalidInput::After(e));
        },
    };
    let before_text = match before {
        Some(data) => match string_from_utf8(data) {
            Ok(s) => Some(s),
            Err(e) => {
                return Err(InvalidInput::Before(e));
            },
        },
        None => None,
    };
    Ok(file_change_for(path, before_text, after_text))
}

// ------------------------------------------------------------------
// Entity change records
// ------------------------------------------------------------------

/// One entity that the semantic diff found changed, as the plugin reads it.
#[derive(Debug)]
pub struct EntityDiff {
    pub entity_id: String,
    pub entity_type: String,
    pub entity_name: String,
    pub file_path: String,
    pub line: usize,
    pub after_content: Option<String>,
    /// The entity was deleted.
    pub deleted: bool,
}

/// The change record that the plugin hands back for one entity.
#[derive(Debug)]
pub struct EntityChange {
    pub entity_id: String,
    pub schema_key: String,
    /// The JSON snapshot of the entity; none for a deleted entity.
    pub snapshot_content: Option<String>,
}

/// How `serde_json` writes the character `c` inside a string: `"` and `\`
/// and the control characters below U+0020 escaped (the short forms `\b`,
/// `\t`, `\n`, `\f`, `\r` where there is one, else `\u00` and two
/// lower-case hexadecimal digits), every other character as it is.
pub open spec fn json_escape(c: char) -> Seq<char> {
    if c == '"' {
        seq!['\\', '"']
    } else if c == '\\' {
        seq!['\\', '\\']
    } else if c == '\u{8}' {
        seq!['\\', 'b']
    } else if c == '\t' {
        seq!['\\', 't']
    } else if c == '\n' {
        seq!['\\', 'n']
    } else if c == '\u{c}' {
        seq!['\\', 'f']
    } else if c == '\r' {
        seq!['\\', 'r']
    } else if (c as u32) < 0x20 {
        seq!['\\', 'u', '0', '0', hex_digit((c as u32 / 16) as nat), hex_digit((c as u32 % 16) as nat)]
    } else {
        seq![c]
    }
}

/// The characters of `s`, each as `json_escape` writes it.
pub open spec fn json_escaped(s: Seq<char>) -> Seq<char>
    decreases s.len(),
{
    if s.len() == 0 {
        Seq::empty()
    } else {
        json_escaped(s.drop_last()) + json_escape(s.last())
    }
}

/// `s` as a JSON string literal.
pub open spec fn json_string(s: Seq<char>) -> Seq<char> {
    seq!['"'] + json_escaped(s) + seq!['"']
}

/// Calls `serde_json::to_string` on a string slice, which writes it as a
/// JSON string literal.  Claimed: the result is `json_string` of `s`, as
/// `serde_json`'s compact writer and its escape table give it (writing a
/// string into memory does not fail).
#[verifier::external_body]
fn json_string_literal(s: &str) -> (r: String)
    ensures
        r@ == json_string(s@),
{
    serde_json::to_string(s).unwrap_or_default()
}

/// The JSON snapshot of an entity: an object with its keys in sorted
/// order, written compactly, as `serde_json` writes its maps.  The sorted
/// key order is that of `serde_json`'s default map, a `BTreeMap`; with its
/// `preserve_order` feature switched on (it is not, in this crate's
/// dependencies) `serde_json` would keep the order of insertion instead.
pub open spec fn snapshot_json(
    id: Seq<char>,
    entity_type: Seq<char>,
    entity_name: Seq<char>,
    file_path: Seq<char>,
    line: nat,
    content: Option<Seq<char>>,
) -> Seq<char> {
    "{\"content\":"@ + match content {
        Some(c) => json_string(c),
        None => "null"@,
    } + ",\"entity_name\":"@ + json_string(entity_name) + ",\"entity_type\":"@ + json_string(entity_type)
        + ",\"file_path\":"@ + json_string(file_path) + ",\"id\":"@ + json_string(id) + ",\"line\":"@
        + decimal(line) + "}"@
}

/// The change record for one changed entity: its id, the schema key
/// `sem_entity`, and a JSON snapshot unless the entity was deleted.
pub fn entity_change_for(c: EntityDiff) -> (r: EntityChange)
    ensures
        r.entity_id == c.entity_id,
        r.schema_key@ == "sem_entity"@,
        c.deleted ==> r.snapshot_content is None,
        !c.deleted ==> (r.snapshot_content matches Some(s) && s@ == snapshot_json(
            c.entity_id@,
            c.entity_type@,
            c.entity_name@,
            c.file_path@,
            c.line as nat,
            match c.after_content {
                Some(a) => Some(a@),
                None => None,
            },
        )),
{
    let snapshot = if c.deleted {
        None
    } else {
        let mut out = String::new();
        push_text(&mut out, "{\"content\":");
        match &c.after_content {
            Some(a) => {
                let q = json_string_literal(a.as_str());
                push_text(&mut out, q.as_str());
            },
            None => push_text(&mut out, "null"),
        }
        push_text(&mut out, ",\"entity_name\":");
        let q = json_string_literal(c.entity_name.as_str());
        push_text(&mut out, q.as_str());
        push_text(&mut out, ",\"entity_type\":");
        let q = json_string_literal(c.entity_type.as_str());
        push_text(&mut out, q.as_str());
        push_text(&mut out, ",\"file_path\":");
        let q = json_string_literal(c.file_path.as_str());
        push_text(&mut out, q.as_str());
        push_text(&mut out, ",\"id\":");
        let q = json_string_literal(c.entity_id.as_str());
        push_text(&mut out, q.as_str());
        push_text(&mut out, ",\"line\":");
        push_decimal(&mut out, c.line);
        push_text(&mut out, "}");
        Some(out)
    };
    EntityChange { entity_id: c.entity_id, schema_key: String::from_str("sem_entity"), snapshot_content: snapshot }
}

} // verus!
