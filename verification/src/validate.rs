//! Boundary validation for the HTTP API: the messages and statuses the UI
//! sees for a malformed request, checked by hand so their wording stays put.
//!
//! Request bodies arrive as `Json`, a plain model of a parsed JSON value.

use vstd::prelude::*;

use crate::model::{opt_text, Anchor, AnchorKind, AnchorView, ProgressState, Side, Verdict};
use crate::text::{chars_of, push_str, spells, string_of, trim_chars, trim_of};

verus! {

broadcast use vstd::string::group_string_axioms;

/// A JSON number, as far as the API reads one.
#[derive(Debug, Clone, Copy, PartialEq, Eq, Structural)]
pub enum JsonNumber {
    /// A whole number of zero or more.
    Unsigned(u64),
    /// A negative whole number.
    Signed(i64),
    /// A number with a fraction or exponent.
    Fractional,
}

/// A parsed JSON value. Object members keep their order; a key is looked up
/// by its first occurrence.
#[derive(Debug)]
pub enum Json {
    Null,
    Bool(bool),
    Number(JsonNumber),
    String(String),
    Array(Vec<Json>),
    Object(Vec<(String, Json)>),
}

/// The first member named `key`.
pub open spec fn member_of(members: Seq<(String, Json)>, key: Seq<char>) -> Option<Json>
    decreases members.len(),
{
    if members.len() == 0 {
        None
    } else if members[0].0@ == key {
        Some(members[0].1)
    } else {
        member_of(members.drop_first(), key)
    }
}

/// The member `key` of an object; `None` for anything else.
pub open spec fn get_of(value: Json, key: Seq<char>) -> Option<Json> {
    match value {
        Json::Object(members) => member_of(members@, key),
        _ => None,
    }
}

/// The value an optional reference points at.
pub open spec fn deref_opt(value: Option<&Json>) -> Option<Json> {
    match value {
        Some(v) => Some(*v),
        None => None,
    }
}

/// The text of a string value.
pub open spec fn str_of(value: Option<Json>) -> Option<Seq<char>> {
    match value {
        Some(Json::String(s)) => Some(s@),
        _ => None,
    }
}

impl Json {
    /// The member `key` of an object (its first occurrence); `None` for a
    /// missing member or a value that is no object.
    pub fn get(&self, key: &str) -> (found: Option<&Json>)
        ensures
            deref_opt(found) == get_of(*self, key@),
    {
        match self {
            Json::Object(members) => {
                let want = chars_of(key);
                let mut k: usize = 0;
                assert(members@.skip(0) =~= members@);
                while k < members.len()
                    invariant
                        k <= members@.len(),
                        want@ == key@,
                        get_of(*self, key@) == member_of(members@, key@),
                        member_of(members@, key@) == member_of(members@.skip(k as int), key@),
                    decreases members@.len() - k,
                {
                    assert(members@.skip(k as int).drop_first() =~= members@.skip(k + 1));
                    let name = chars_of(members[k].0.as_str());
                    if spells(&name, key) {
                        assert(members@.skip(k as int)[0] == members@[k as int]);
                        return Some(&members[k].1);
                    }
                    k += 1;
                }
                assert(members@.skip(k as int) =~= Seq::<(String, Json)>::empty());
                None
            },
            _ => None,
        }
    }

    /// The text of a string value.
    pub fn as_str(&self) -> (text: Option<&str>)
        ensures
            match self {
                Json::String(s) => text matches Some(t) && t@ == s@,
                _ => text is None,
            },
    {
        match self {
            Json::String(s) => Some(s.as_str()),
            _ => None,
        }
    }

    /// Whether the value is an object.
    pub fn is_object(&self) -> (r: bool)
        ensures
            r == (self is Object),
    {
        match self {
            Json::Object(_) => true,
            _ => false,
        }
    }
}

/// A refused request: its HTTP status and the message the UI shows.
#[derive(Debug, Clone)]
pub struct ApiError {
    pub status: u16,
    pub message: String,
}

impl ApiError {
    pub fn new(message: &str, status: u16) -> (error: Self)
        ensures
            error.status == status,
            error.message@ == message@,
    {
        ApiError { status, message: string_of(&chars_of(message)) }
    }

    /// The default: a client mistake at the boundary.
    pub fn bad_request(message: &str) -> (error: Self)
        ensures
            error.status == 400,
            error.message@ == message@,
    {
        ApiError::new(message, 400)
    }

    /// The message, as `Display` would show it.
    pub fn to_string(&self) -> (text: String)
        ensures
            text@ == self.message@,
    {
        string_of(&chars_of(self.message.as_str()))
    }
}

/// A result as plain values: the value, or the status and message.
pub open spec fn failed_with<T>(r: Result<T, ApiError>, status: u16, message: Seq<char>) -> bool {
    r matches Err(e) && e.status == status && e.message@ == message
}

pub open spec fn verdict_named(s: Option<Seq<char>>) -> Option<Verdict> {
    match s {
        Some(t) => if t == "ok"@ {
            Some(Verdict::Okay)
        } else if t == "fix"@ {
            Some(Verdict::Fix)
        } else if t == "question"@ {
            Some(Verdict::Question)
        } else {
            None
        },
        None => None,
    }
}

pub fn validate_verdict(value: Option<&Json>) -> (r: Result<Verdict, ApiError>)
    ensures
        match verdict_named(str_of(deref_opt(value))) {
            Some(v) => r == Ok::<Verdict, ApiError>(v),
            None => failed_with(r, 400, "verdict must be one of ok, fix, question"@),
        },
{
    if let Some(Json::String(s)) = value {
        let text = chars_of(s.as_str());
        if spells(&text, "ok") {
            return Ok(Verdict::Okay);
        }
        if spells(&text, "fix") {
            return Ok(Verdict::Fix);
        }
        if spells(&text, "question") {
            return Ok(Verdict::Question);
        }
    }
    Err(ApiError::bad_request("verdict must be one of ok, fix, question"))
}

pub open spec fn progress_named(s: Option<Seq<char>>) -> Option<ProgressState> {
    match s {
        Some(t) => if t == "unreviewed"@ {
            Some(ProgressState::Unreviewed)
        } else if t == "reviewed"@ {
            Some(ProgressState::Reviewed)
        } else {
            None
        },
        None => None,
    }
}

pub fn validate_progress_state(value: Option<&Json>) -> (r: Result<ProgressState, ApiError>)
    ensures
        match progress_named(str_of(deref_opt(value))) {
            Some(p) => r == Ok::<ProgressState, ApiError>(p),
            None => failed_with(r, 400, "state must be one of unreviewed, reviewed"@),
        },
{
    if let Some(Json::String(s)) = value {
        let text = chars_of(s.as_str());
        if spells(&text, "unreviewed") {
            return Ok(ProgressState::Unreviewed);
        }
        if spells(&text, "reviewed") {
            return Ok(ProgressState::Reviewed);
        }
    }
    Err(ApiError::bad_request("state must be one of unreviewed, reviewed"))
}

/// A comment body: the string trimmed of white space, which must leave
/// something; anything but a string counts as empty.
pub open spec fn body_text(value: Option<Json>) -> Seq<char> {
    match str_of(value) {
        Some(t) => trim_of(t),
        None => Seq::empty(),
    }
}

pub fn validate_body(value: Option<&Json>) -> (r: Result<String, ApiError>)
    ensures
        body_text(deref_opt(value)).len() == 0 ==> failed_with(r, 400, "comment body is empty"@),
        body_text(deref_opt(value)).len() > 0 ==> (r matches Ok(text) && text@ == body_text(deref_opt(value))),
{
    let text = match value {
        Some(Json::String(s)) => trim_chars(&chars_of(s.as_str())),
        _ => Vec::new(),
    };
    if text.len() == 0 {
        return Err(ApiError::bad_request("comment body is empty"));
    }
    Ok(string_of(&text))
}

pub fn validate_resolved(value: Option<&Json>) -> (r: Result<bool, ApiError>)
    ensures
        match value {
            Some(Json::Bool(flag)) => r == Ok::<bool, ApiError>(*flag),
            _ => failed_with(r, 400, "resolved must be a boolean"@),
        },
{
    match value {
        Some(Json::Bool(flag)) => Ok(*flag),
        _ => Err(ApiError::bad_request("resolved must be a boolean")),
    }
}

/// An optional string member: `None` when absent, null or empty; an error
/// naming the member for anything that is no string.
pub open spec fn optional_of(anchor: Json, field: Seq<char>) -> Result<Option<Seq<char>>, Seq<char>> {
    match get_of(anchor, field) {
        None => Ok(None),
        Some(Json::Null) => Ok(None),
        Some(Json::String(s)) => if s@.len() == 0 { Ok(None) } else { Ok(Some(s@)) },
        Some(_) => Err("anchor."@ + field + " must be a string"@),
    }
}

/// A string member that must be present and non-empty for an anchor of
/// `kind`.
pub open spec fn required_of(anchor: Json, kind: Seq<char>, field: Seq<char>) -> Result<Seq<char>, Seq<char>> {
    match optional_of(anchor, field) {
        Err(message) => Err(message),
        Ok(None) => Err(kind + " anchor requires "@ + field),
        Ok(Some(s)) => Ok(s),
    }
}

fn optional_string(anchor: &Json, field: &str) -> (r: Result<Option<String>, ApiError>)
    ensures
        match optional_of(*anchor, field@) {
            Ok(found) => r matches Ok(s) && opt_text(s) == found,
            Err(message) => failed_with(r, 400, message),
        },
{
    match anchor.get(field) {
        None => Ok(None),
        Some(Json::Null) => Ok(None),
        Some(Json::String(s)) => {
            let text = chars_of(s.as_str());
            if text.len() == 0 {
                Ok(None)
            } else {
                Ok(Some(string_of(&text)))
            }
        },
        Some(_) => {
            let mut message = chars_of("anchor.");
            push_str(&mut message, field);
            push_str(&mut message, " must be a string");
            Err(ApiError { status: 400, message: string_of(&message) })
        },
    }
}

fn require_string(anchor: &Json, kind: &str, field: &str) -> (r: Result<String, ApiError>)
    ensures
        match required_of(*anchor, kind@, field@) {
            Ok(found) => r matches Ok(s) && s@ == found,
            Err(message) => failed_with(r, 400, message),
        },
{
    match optional_string(anchor, field)? {
        Some(text) => Ok(text),
        None => {
            let mut message = chars_of(kind);
            push_str(&mut message, " anchor requires ");
            push_str(&mut message, field);
            Err(ApiError { status: 400, message: string_of(&message) })
        },
    }
}

pub open spec fn kind_named(s: Option<Seq<char>>) -> Option<AnchorKind> {
    match s {
        Some(t) => if t == "line"@ {
            Some(AnchorKind::Line)
        } else if t == "file"@ {
            Some(AnchorKind::File)
        } else if t == "chapter"@ {
            Some(AnchorKind::Chapter)
        } else if t == "overall"@ {
            Some(AnchorKind::Overall)
        } else {
            None
        },
        None => None,
    }
}

fn anchor_kind(value: Option<&Json>) -> (r: Result<AnchorKind, ApiError>)
    ensures
        match kind_named(str_of(deref_opt(value))) {
            Some(k) => r == Ok::<AnchorKind, ApiError>(k),
            None => failed_with(r, 400, "anchor.kind must be one of line, file, chapter, overall"@),
        },
{
    if let Some(Json::String(s)) = value {
        let text = chars_of(s.as_str());
        if spells(&text, "line") {
            return Ok(AnchorKind::Line);
        }
        if spells(&text, "file") {
            return Ok(AnchorKind::File);
        }
        if spells(&text, "chapter") {
            return Ok(AnchorKind::Chapter);
        }
        if spells(&text, "overall") {
            return Ok(AnchorKind::Overall);
        }
    }
    Err(ApiError::bad_request("anchor.kind must be one of line, file, chapter, overall"))
}

pub open spec fn side_named(s: Option<Seq<char>>) -> Option<Side> {
    match s {
        Some(t) => if t == "old"@ {
            Some(Side::Old)
        } else if t == "new"@ {
            Some(Side::New)
        } else {
            None
        },
        None => None,
    }
}

fn validate_side(anchor: &Json) -> (r: Result<Side, ApiError>)
    ensures
        match side_named(str_of(get_of(*anchor, "side"@))) {
            Some(side) => r == Ok::<Side, ApiError>(side),
            None => failed_with(r, 400, "anchor.side must be 'old' or 'new'"@),
        },
{
    if let Some(Json::String(s)) = anchor.get("side") {
        let text = chars_of(s.as_str());
        if spells(&text, "old") {
            return Ok(Side::Old);
        }
        if spells(&text, "new") {
            return Ok(Side::New);
        }
    }
    Err(ApiError::bad_request("anchor.side must be 'old' or 'new'"))
}

/// A line number: a whole number from 1 up to `u32::MAX`.
pub open spec fn line_of(value: Option<Json>) -> Option<u32> {
    match value {
        Some(Json::Number(JsonNumber::Unsigned(n))) => if 1 <= n && n <= u32::MAX { Some(n as u32) } else { None },
        _ => None,
    }
}

fn validate_line(anchor: &Json) -> (r: Result<u32, ApiError>)
    ensures
        match line_of(get_of(*anchor, "line"@)) {
            Some(line) => r == Ok::<u32, ApiError>(line),
            None => failed_with(r, 400, "anchor.line must be a positive integer"@),
        },
{
    if let Some(Json::Number(JsonNumber::Unsigned(n))) = anchor.get("line") {
        if 1 <= *n && *n <= 4294967295u64 {
            return Ok(*n as u32);
        }
    }
    Err(ApiError::bad_request("anchor.line must be a positive integer"))
}

/// What an anchor value means: an object with a known kind, and for each
/// kind the members it requires, checked in a fixed order so the first
/// problem is the one reported.
pub open spec fn anchor_of(value: Option<Json>) -> Result<AnchorView, Seq<char>> {
    match value {
        Some(anchor) => if !(anchor is Object) {
            Err("anchor must be an object"@)
        } else {
            match kind_named(str_of(get_of(anchor, "kind"@))) {
                None => Err("anchor.kind must be one of line, file, chapter, overall"@),
                Some(kind) => match optional_of(anchor, "chapter"@) {
                    Err(m) => Err(m),
                    Ok(chapter) => anchor_fields(anchor, kind, chapter),
                },
            }
        },
        None => Err("anchor must be an object"@),
    }
}

pub open spec fn anchor_fields(anchor: Json, kind: AnchorKind, chapter: Option<Seq<char>>) -> Result<AnchorView, Seq<char>> {
    let blank = AnchorView { kind, file: None, hunk: None, side: None, line: None, chapter };
    match kind {
        AnchorKind::Line => match required_of(anchor, "line"@, "file"@) {
            Err(m) => Err(m),
            Ok(file) => match required_of(anchor, "line"@, "hunk"@) {
                Err(m) => Err(m),
                Ok(hunk) => match required_of(anchor, "line"@, "side"@) {
                    Err(m) => Err(m),
                    Ok(_) => match side_named(str_of(get_of(anchor, "side"@))) {
                        None => Err("anchor.side must be 'old' or 'new'"@),
                        Some(side) => match line_of(get_of(anchor, "line"@)) {
                            None => Err("anchor.line must be a positive integer"@),
                            Some(line) => Ok(AnchorView {
                                file: Some(file),
                                hunk: Some(hunk),
                                side: Some(side),
                                line: Some(line),
                                ..blank
                            }),
                        },
                    },
                },
            },
        },
        AnchorKind::File => match required_of(anchor, "file"@, "file"@) {
            Err(m) => Err(m),
            Ok(file) => match optional_of(anchor, "hunk"@) {
                Err(m) => Err(m),
                Ok(hunk) => Ok(AnchorView { file: Some(file), hunk, ..blank }),
            },
        },
        AnchorKind::Chapter => match required_of(anchor, "chapter"@, "chapter"@) {
            Err(m) => Err(m),
            Ok(named) => match optional_of(anchor, "file"@) {
                Err(m) => Err(m),
                Ok(file) => match optional_of(anchor, "hunk"@) {
                    Err(m) => Err(m),
                    Ok(hunk) => Ok(AnchorView { chapter: Some(named), file, hunk, ..blank }),
                },
            },
        },
        AnchorKind::Overall => match optional_of(anchor, "file"@) {
            Err(m) => Err(m),
            Ok(file) => match optional_of(anchor, "hunk"@) {
                Err(m) => Err(m),
                Ok(hunk) => Ok(AnchorView { file, hunk, ..blank }),
            },
        },
    }
}

pub fn validate_anchor(value: Option<&Json>) -> (r: Result<Anchor, ApiError>)
    ensures
        match anchor_of(deref_opt(value)) {
            Ok(expected) => r matches Ok(anchor) && anchor@ == expected,
            Err(message) => failed_with(r, 400, message),
        },
{
    let anchor = match value {
        Some(value) => {
            if !value.is_object() {
                return Err(ApiError::bad_request("anchor must be an object"));
            }
            value
        },
        None => {
            return Err(ApiError::bad_request("anchor must be an object"));
        },
    };
    let kind = anchor_kind(anchor.get("kind"))?;
    let mut result = Anchor {
        kind,
        file: None,
        hunk: None,
        side: None,
        line: None,
        chapter: optional_string(anchor, "chapter")?,
    };
    match kind {
        AnchorKind::Line => {
            result.file = Some(require_string(anchor, "line", "file")?);
            result.hunk = Some(require_string(anchor, "line", "hunk")?);
            require_string(anchor, "line", "side")?;
            result.side = Some(validate_side(anchor)?);
            result.line = Some(validate_line(anchor)?);
        },
        AnchorKind::File => {
            result.file = Some(require_string(anchor, "file", "file")?);
            result.hunk = optional_string(anchor, "hunk")?;
        },
        AnchorKind::Chapter => {
            result.chapter = Some(require_string(anchor, "chapter", "chapter")?);
            result.file = optional_string(anchor, "file")?;
            result.hunk = optional_string(anchor, "hunk")?;
        },
        AnchorKind::Overall => {
            result.file = optional_string(anchor, "file")?;
            result.hunk = optional_string(anchor, "hunk")?;
        },
    }
    Ok(result)
}

/// An accepted anchor carries what its kind requires: a line anchor its
/// file, hunk, side and line; a file anchor its file; a chapter anchor its
/// chapter. And every text it carries is non-empty.
pub proof fn accepted_anchors_carry_what_their_kind_requires(value: Option<Json>)
    ensures
        anchor_of(value) matches Ok(a) ==> {
            &&& (a.kind == AnchorKind::Line ==> a.file is Some && a.hunk is Some && a.side is Some && a.line is Some)
            &&& (a.kind == AnchorKind::File ==> a.file is Some)
            &&& (a.kind == AnchorKind::Chapter ==> a.chapter is Some)
            &&& (a.file matches Some(f) ==> f.len() > 0)
            &&& (a.hunk matches Some(h) ==> h.len() > 0)
            &&& (a.chapter matches Some(c) ==> c.len() > 0)
            &&& (a.line matches Some(l) ==> l >= 1)
        },
{
}

} // verus!
