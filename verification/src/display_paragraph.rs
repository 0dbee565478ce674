//! Showing a stored paragraph for a given time of day: which folder to look
//! in, which of its files to take, and how to credit what is shown.
//!
//! The clock, the random number and the files are the caller's.

use vstd::prelude::*;
use vstd::string::StringExecFns;
use crate::paragraph_info::ParagraphInfo;
use crate::text::{append_decimal, decimal};

verus! {

/// The folder to fall back on where the minute asked for has no records.
pub const FALLBACK_MINUTE: u32 = 0;

/// The folder of an hour or of a minute, relative to the one above it: the
/// number and a slash.
pub open spec fn folder_name(number: u32) -> Seq<char> {
    decimal(number as nat) + "/"@
}

/// The minute whose folder is read: the minute asked for where it has a
/// folder, the fallback otherwise.
pub open spec fn minute_to_read(minute: u32, has_folder: bool) -> u32 {
    if has_folder {
        minute
    } else {
        FALLBACK_MINUTE
    }
}

/// The credit shown under a paragraph: its author and its book.
pub open spec fn credit_of(author: Seq<char>, book: Seq<char>) -> Seq<char> {
    author + " in "@ + book
}

/// The name of the folder of the hour `hour`.
pub fn hour_folder(hour: u32) -> (name: String)
    ensures
        name@ == folder_name(hour),
{
    let mut name = String::new();
    append_decimal(&mut name, hour as u64);
    name.append("/");
    assert(name@ =~= folder_name(hour));
    name
}

/// The name of the folder to read for the minute `minute`, given whether
/// that minute has a folder of its own.
pub fn minute_folder(minute: u32, has_folder: bool) -> (name: String)
    ensures
        name@ == folder_name(minute_to_read(minute, has_folder)),
{
    let chosen: u32 = if has_folder {
        minute
    } else {
        FALLBACK_MINUTE
    };
    let mut name = String::new();
    append_decimal(&mut name, chosen as u64);
    name.append("/");
    assert(name@ =~= folder_name(chosen));
    name
}

/// Picks one of `count` files by the number `random`: the remainder of the
/// one by the other. There is nothing to pick from an empty folder.
pub fn pick(random: usize, count: usize) -> (index: usize)
    requires
        count > 0,
    ensures
        index == random % count,
        index < count,
{
    random % count
}

/// The credit to show under `record`.
pub fn credit(record: &ParagraphInfo) -> (line: String)
    ensures
        line@ == credit_of(record.author@, record.book@),
{
    let mut line = String::from_str(record.author.as_str());
    line.append(" in ");
    line.append(record.book.as_str());
    line
}

} // verus!
