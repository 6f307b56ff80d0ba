//! What is read of one commit, and the pieces of it that need more than
//! copying: hashes in hexadecimal, abbreviated hashes, times in ISO 8601.

use crate::error::FieldError;
use crate::error::FieldErrorView;
use crate::text::bytes_to_hex;
use crate::text::hex_text;
use crate::text::starts_with;
use vstd::prelude::*;

verus! {

/// A point in time as a commit stores it.
#[derive(Debug, Clone, Copy, PartialEq, Eq, Structural)]
pub struct Timestamp {
    /// Seconds since the epoch.
    pub seconds: i64,
    /// Minutes east of UTC at which the time was taken.
    pub offset_minutes: i32,
}

/// The abbreviated hash of an object, as the repository gave it.
#[derive(Debug, PartialEq, Eq)]
pub enum ShortId {
    /// The shortest prefix of the hash that names the object alone.
    Text(String),
    /// An abbreviation came back, but not as valid text.
    NotText,
    /// The object could not be loaded or abbreviated; the text is what the
    /// repository said.
    Failed(String),
}

/// How a commit's tree differs from the tree of the commit visited before.
#[derive(Debug, Clone, Copy, PartialEq, Eq, Structural)]
pub struct DiffStats {
    pub files_changed: usize,
    pub insertions: usize,
    pub deletions: usize,
}

/// The parts of one commit that a report can show. A text that is not valid
/// UTF-8 is absent.
#[derive(Debug, PartialEq, Eq)]
pub struct CommitRecord {
    /// The commit's hash.
    pub id: Vec<u8>,
    pub short_id: ShortId,
    /// The hash of the commit's tree.
    pub tree_id: Vec<u8>,
    pub tree_short_id: ShortId,
    /// The hashes of the parents, in order.
    pub parent_ids: Vec<Vec<u8>>,
    /// The abbreviated hashes of the parents, in the same order.
    pub parent_short_ids: Vec<ShortId>,
    pub author_name: Option<String>,
    pub author_email: Option<String>,
    pub author_time: Timestamp,
    pub committer_time: Timestamp,
    /// The first line of the message.
    pub summary: Option<String>,
    /// The whole message.
    pub message: Option<String>,
}

/// Whether an abbreviated hash, where it is text, begins the full hash
/// written in hexadecimal.
pub open spec fn abbreviates(short: ShortId, id: Seq<u8>) -> bool {
    match short {
        ShortId::Text(prefix) => prefix@.is_prefix_of(hex_text(id)),
        _ => true,
    }
}

/// Says whether an abbreviated hash, where it is text, begins the full hash.
fn is_abbreviation(short: &ShortId, id: &[u8]) -> (b: bool)
    ensures
        b == abbreviates(*short, id@),
{
    match short {
        ShortId::Text(prefix) => {
            let full = bytes_to_hex(id);
            starts_with(full.as_str(), prefix.as_str())
        },
        _ => true,
    }
}

impl CommitRecord {
    /// Whether the abbreviated hashes go with the full ones: there is one
    /// for each parent, and each that is text begins the hash it stands for.
    pub open spec fn consistent(&self) -> bool {
        &&& abbreviates(self.short_id, self.id@)
        &&& abbreviates(self.tree_short_id, self.tree_id@)
        &&& self.parent_short_ids@.len() == self.parent_ids@.len()
        &&& forall|i: int|
            0 <= i < self.parent_ids@.len() ==> abbreviates(
                #[trigger] self.parent_short_ids@[i],
                self.parent_ids@[i]@,
            )
    }

    /// Says whether the abbreviated hashes go with the full ones.
    pub fn is_consistent(&self) -> (b: bool)
        ensures
            b == self.consistent(),
    {
        if !is_abbreviation(&self.short_id, self.id.as_slice()) {
            return false;
        }
        if !is_abbreviation(&self.tree_short_id, self.tree_id.as_slice()) {
            return false;
        }
        if self.parent_short_ids.len() != self.parent_ids.len() {
            return false;
        }
        let mut i: usize = 0;
        while i < self.parent_ids.len()
            invariant
                0 <= i <= self.parent_ids@.len(),
                self.parent_short_ids@.len() == self.parent_ids@.len(),
                forall|j: int|
                    0 <= j < i ==> abbreviates(
                        #[trigger] self.parent_short_ids@[j],
                        self.parent_ids@[j]@,
                    ),
            decreases self.parent_ids@.len() - i,
        {
            if !is_abbreviation(&self.parent_short_ids[i], self.parent_ids[i].as_slice()) {
                return false;
            }
            i += 1;
        }
        true
    }
}

/// The earliest second that can be written as a date: the first of year
/// -262143.
pub const MIN_SECONDS: i64 = -8_334_601_228_800;

/// The latest second that can be written as a date: the last of year 262142.
pub const MAX_SECONDS: i64 = 8_210_266_876_799;

/// A time in RFC 3339 (which is also ISO 8601) at a fixed offset from UTC,
/// as `chrono` writes it: date, `T`, time of day, and the offset as hours
/// and minutes with a sign, such as `1996-12-19T16:39:57-08:00`.
pub uninterp spec fn rfc3339_text(seconds: int, offset_seconds: int) -> Seq<char>;

/// Calls `chrono`: `NaiveDateTime::from_timestamp` for the UTC time,
/// `FixedOffset::east` for the offset, `DateTime::from_utc` to put the two
/// together and `DateTime::to_rfc3339` to write them. The first panics
/// outside the years -262143 to 262142 and the second from a whole day of
/// offset on, so both ranges are required. The result is given the name
/// [`rfc3339_text`]: it depends on the two numbers alone.
#[verifier::external_body]
#[allow(deprecated)]
fn rfc3339(seconds: i64, offset_seconds: i32) -> (text: String)
    requires
        MIN_SECONDS <= seconds <= MAX_SECONDS,
        -86_400 < offset_seconds < 86_400,
    ensures
        text@ == rfc3339_text(seconds as int, offset_seconds as int),
{
    let utc = chrono::NaiveDateTime::from_timestamp(seconds, 0);
    let zone = chrono::FixedOffset::east(offset_seconds);
    chrono::DateTime::<chrono::FixedOffset>::from_utc(utc, zone).to_rfc3339()
}

impl Timestamp {
    /// Whether the time can be written as a date with an offset: the year
    /// has to lie between -262143 and 262142, and the offset within a day.
    pub open spec fn representable(self) -> bool {
        &&& MIN_SECONDS <= self.seconds <= MAX_SECONDS
        &&& -1440 < self.offset_minutes < 1440
    }

    /// The time in ISO 8601, at its own offset.
    pub open spec fn iso8601(self) -> Seq<char> {
        rfc3339_text(self.seconds as int, self.offset_minutes * 60)
    }

    /// Says whether the time can be written as a date with an offset.
    pub fn is_representable(self) -> (b: bool)
        ensures
            b == self.representable(),
    {
        MIN_SECONDS <= self.seconds && self.seconds <= MAX_SECONDS && -1440 < self.offset_minutes
            && self.offset_minutes < 1440
    }
}

/// Writes a time in ISO 8601, keeping the offset at which it was taken.
pub fn git_time_to_iso8601(time: Timestamp) -> (text: String)
    requires
        time.representable(),
    ensures
        text@ == time.iso8601(),
{
    rfc3339(time.seconds, time.offset_minutes * 60)
}

/// Writes a time in ISO 8601 where that can be done.
pub fn checked_iso8601(time: Timestamp) -> (text: Option<String>)
    ensures
        time.representable() ==> text is Some && text->Some_0@ == time.iso8601(),
        !time.representable() ==> text is None,
{
    if time.is_representable() {
        Some(git_time_to_iso8601(time))
    } else {
        None
    }
}

/// Writes a hash in full: two lower-case hexadecimal digits for each byte.
pub fn oid_to_hex_string(oid: &[u8]) -> (hex: String)
    ensures
        hex@ == hex_text(oid@),
{
    bytes_to_hex(oid)
}

/// The text of an abbreviated hash, or why there is none.
pub open spec fn short_id_text(short: ShortId) -> Result<Seq<char>, FieldErrorView> {
    match short {
        ShortId::Text(prefix) => Ok(prefix@),
        ShortId::NotText => Err(FieldErrorView::BadShortHash),
        ShortId::Failed(said) => Err(FieldErrorView::Backend(said@)),
    }
}

/// Gives an abbreviated hash as text, or the error that stands for its
/// absence.
pub fn object_to_hex_string(short: &ShortId) -> (r: Result<String, FieldError>)
    ensures
        match short_id_text(*short) {
            Ok(text) => r is Ok && r->Ok_0@ == text,
            Err(e) => r is Err && r->Err_0@ == e,
        },
{
    match short {
        ShortId::Text(prefix) => Ok(prefix.clone()),
        ShortId::NotText => Err(FieldError::BadShortHash),
        ShortId::Failed(said) => Err(FieldError::Backend(said.clone())),
    }
}

} // verus!
