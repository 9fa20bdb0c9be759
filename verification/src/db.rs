//! The records of the clip database, and the rules the app applies around its
//! queries: reading flags and settings, sizing the clean-ups, and what a clip
//! can be copied back as.

use vstd::prelude::*;
use std::path::PathBuf;
use crate::numbers::{decimal, decimal_chars, parse_i64, parse_i64_spec};
use crate::text::{chars_of, concat, string_from_chars};

verus! {

/// `std::path::PathBuf`, carried through as an opaque value.
#[verifier::external_type_specification]
#[verifier::external_body]
pub struct ExPathBuf(PathBuf);

/// Path of the SQLite database, shared by the commands.
pub struct DbPath(pub PathBuf);

/// A clip of the clipboard history, as stored.
#[derive(Debug, Clone)]
pub struct Clip {
    pub id: i64,
    pub content: String,
    pub content_type: String,
    pub preview: Option<String>,
    pub image_base64: Option<String>,
    pub source_app: Option<String>,
    pub hash: String,
    pub is_pinned: bool,
    pub is_favorite: bool,
    pub collection_id: Option<i64>,
    pub created_at: String,
}

/// A named collection of clips.
#[derive(Debug, Clone)]
pub struct Collection {
    pub id: i64,
    pub name: String,
    pub icon: Option<String>,
    pub created_at: String,
}

/// A text-expander shortcut: typing `trigger` and then a space or enter
/// replaces it with `content`.
#[derive(Debug, Clone)]
pub struct Shortcut {
    pub trigger: String,
    pub content: String,
}

/// A flag column as SQLite stores it (0 or 1) read back as a `bool`: any
/// non-zero value is set.
pub fn flag_from_column(v: i32) -> (r: bool)
    ensures
        r == (v != 0),
{
    v != 0
}

/// How a new clip is written: a clip already stored with the same hash is
/// moved to the top of the history, otherwise a new row is inserted.
pub enum ClipWrite {
    /// Refresh the stored clip with this id, making it the newest.
    Refresh(i64),
    /// Insert a new row.
    Insert,
}

/// How a clip is written, given the id of the stored clip with the same hash.
pub fn clip_write_for(existing_id: Option<i64>) -> (r: ClipWrite)
    ensures
        match existing_id {
            Some(id) => r == ClipWrite::Refresh(id),
            None => r == ClipWrite::Insert,
        },
{
    match existing_id {
        Some(id) => ClipWrite::Refresh(id),
        None => ClipWrite::Insert,
    }
}

// ---------------------------------------------------------------------------
// Settings and clean-up
// ---------------------------------------------------------------------------

/// A numeric setting: the stored text read as an `i64`, or `default` when it
/// is missing or is not a number.
pub open spec fn setting_value(stored: Option<Seq<char>>, default: i64) -> i64 {
    match stored {
        Some(s) => match parse_i64_spec(s) {
            Some(v) => v,
            None => default,
        },
        None => default,
    }
}

/// The history limit used when the setting is missing or unreadable.
pub const DEFAULT_HISTORY_LIMIT: i64 = 500;

/// The age in days used when the setting is missing or unreadable.
pub const DEFAULT_AUTO_CLEAR_DAYS: i64 = 30;

/// Reads a numeric setting, falling back to `default`.
pub fn setting_or(stored: Option<&str>, default: i64) -> (r: i64)
    ensures
        r == setting_value(
            match stored {
                Some(s) => Some(s@),
                None => None,
            },
            default,
        ),
{
    match stored {
        Some(s) => match parse_i64(&chars_of(s)) {
            Some(v) => v,
            None => default,
        },
        None => default,
    }
}

/// The history limit and the age limit of a clean-up, from the stored
/// `history_limit` and `auto_clear_days` settings (500 and 30 when missing or
/// unreadable).
pub fn cleanup_limits(history_limit: Option<&str>, auto_clear_days: Option<&str>) -> (r: (
    i64,
    i64,
))
    ensures
        r.0 == setting_value(
            match history_limit {
                Some(s) => Some(s@),
                None => None,
            },
            DEFAULT_HISTORY_LIMIT,
        ),
        r.1 == setting_value(
            match auto_clear_days {
                Some(s) => Some(s@),
                None => None,
            },
            DEFAULT_AUTO_CLEAR_DAYS,
        ),
{
    (
        setting_or(history_limit, DEFAULT_HISTORY_LIMIT),
        setting_or(auto_clear_days, DEFAULT_AUTO_CLEAR_DAYS),
    )
}

/// How many of the `count` unprotected clips go when the history holds at
/// most `limit`: none when within the limit, else the excess.
pub fn history_excess(count: i64, limit: i64) -> (r: Option<i64>)
    requires
        count <= limit || count - limit <= i64::MAX,
    ensures
        count <= limit ==> r is None,
        count > limit ==> r == Some((count - limit) as i64),
{
    if count <= limit {
        None
    } else {
        Some(count - limit)
    }
}

/// The SQLite date modifier that reaches back `days` days: `-N days` for a
/// positive `N`, and nothing (no clean-up by age) otherwise.
pub fn age_modifier(days: i64) -> (r: Option<String>)
    ensures
        days <= 0 ==> r is None,
        days > 0 ==> r is Some && r->Some_0@ == "-"@ + decimal(days as nat) + " days"@,
{
    if days <= 0 {
        return None;
    }
    let digits = decimal_chars(days as u64);
    let text = concat(&concat(&chars_of("-"), &digits), &chars_of(" days"));
    Some(string_from_chars(&text))
}

// ---------------------------------------------------------------------------
// Copying a clip back
// ---------------------------------------------------------------------------

/// What copying a clip back writes to the clipboard: its content, except for
/// images, which cannot be copied back yet.
pub fn copy_text(clip: &Clip) -> (r: Result<String, String>)
    ensures
        clip.content_type@ == "image"@ ==> r is Err && r->Err_0@ == "Image copy not yet supported"@,
        clip.content_type@ != "image"@ ==> r is Ok && r->Ok_0@ == clip.content@,
{
    let image = string_from_chars(&chars_of("image"));
    if clip.content_type == image {
        Err(string_from_chars(&chars_of("Image copy not yet supported")))
    } else {
        Ok(string_from_chars(&chars_of(clip.content.as_str())))
    }
}

} // verus!
