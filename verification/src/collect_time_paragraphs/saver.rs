//! The persister: it decides where a marked record is stored.
//!
//! A record goes to a folder named after its hour and minute, into a file
//! named after a digest of its author, span and text, so that the same
//! record always lands in the same file. The digest is that of the standard
//! library's default hasher. Writing the file is the caller's part.

use std::collections::hash_map::DefaultHasher;
use std::hash::Hasher;
use vstd::bytes::{spec_u64_to_le_bytes, u64_to_le_bytes};
use vstd::prelude::*;
use vstd::std_specs::hash::DefaultHasherAdditionalSpecFns;
use vstd::string::StringExecFns;
use crate::paragraph_info::{ParagraphInfo, ParagraphView};
use crate::text::{append_decimal, append_signed, bytes_of, decimal, signed_decimal};

verus! {

/// The ending of the name of a stored record's file.
pub const FILE_EXTENSION: &'static str = ".yaml";

/// The bytes that stand for one end of a span in the digest: the position
/// as a number of 64 bits, least significant byte first.
pub open spec fn position_bytes(position: usize) -> Seq<u8> {
    spec_u64_to_le_bytes(position as u64)
}

/// The digest of a record: what the default hasher makes of the author's
/// bytes, the two ends of the span, and the text's bytes, written to it in
/// this order.
pub open spec fn digest_of(author: Seq<char>, section: (usize, usize), text: Seq<char>) -> u64 {
    DefaultHasher::spec_finish(
        seq![
            bytes_of(author),
            position_bytes(section.0),
            position_bytes(section.1),
            bytes_of(text),
        ],
    )
}

/// The name of the file of a record with the digest `digest`.
pub open spec fn file_name_of(digest: u64) -> Seq<char> {
    decimal(digest as nat) + FILE_EXTENSION@
}

/// The folder of the records of one minute, relative to the root of the
/// store: the hour, a slash, the minute, a slash.
pub open spec fn folder_of(hour: i32, minute: i32) -> Seq<char> {
    signed_decimal(hour as int) + "/"@ + signed_decimal(minute as int) + "/"@
}

/// The name of the file of `record`, where it carries a span: it depends
/// on the record's author, span and text, and on nothing else.
pub open spec fn stored_name(record: ParagraphInfo) -> Option<Seq<char>> {
    match record.section {
        Some(section) => Some(file_name_of(digest_of(record.author@, section, record.text@))),
        None => None,
    }
}

/// The folder and the file name under which `record` is stored; `None`
/// unless it carries both a span and a time.
pub open spec fn stored_at(record: ParagraphInfo) -> Option<(Seq<char>, Seq<char>)> {
    match (record.time, stored_name(record)) {
        (Some(time), Some(name)) => Some((folder_of(time.0, time.1), name)),
        _ => None,
    }
}

/// Where a record is stored: its folder below the root of the store, and
/// the name of its file in that folder.
pub struct StorageTarget {
    pub folder: String,
    pub file_name: String,
}

/// Places marked records in a store rooted at a directory.
pub struct ParagraphSaver {
    time_path: String,
}

impl ParagraphSaver {
    /// The root of the store.
    pub closed spec fn root(&self) -> Seq<char> {
        self.time_path@
    }

    /// A persister for the store rooted at `data_path`.
    pub fn new(data_path: &str) -> (saver: Self)
        ensures
            saver.root() == data_path@,
    {
        ParagraphSaver { time_path: data_path.to_owned() }
    }

    /// The root of the store.
    pub fn time_path(&self) -> (path: &String)
        ensures
            path@ == self.root(),
    {
        &self.time_path
    }

    /// The room that the persister asks for on the queue that feeds it.
    pub fn get_input_buffer_size(&self) -> (size: usize)
        ensures
            size == 8,
    {
        8
    }

    /// The digest of `record`, where it carries a span.
    pub fn digest(record: &ParagraphInfo) -> (digest: Option<u64>)
        ensures
            digest == match record.section {
                Some(section) => Some(digest_of(record.author@, section, record.text@)),
                None => None,
            },
    {
        match record.section {
            Some((start, end)) => {
                let mut hasher = DefaultHasher::new();
                hasher.write(record.author.as_str().as_bytes());
                hasher.write(u64_to_le_bytes(start as u64).as_slice());
                hasher.write(u64_to_le_bytes(end as u64).as_slice());
                hasher.write(record.text.as_str().as_bytes());
                proof {
                    assert(hasher@ =~= seq![
                        bytes_of(record.author@),
                        position_bytes(start),
                        position_bytes(end),
                        bytes_of(record.text@),
                    ]);
                }
                Some(hasher.finish())
            },
            None => None,
        }
    }

    /// The folder of the records that share the time `hour`:`minute`.
    pub fn folder(hour: i32, minute: i32) -> (folder: String)
        ensures
            folder@ == folder_of(hour, minute),
    {
        let mut folder = String::new();
        append_signed(&mut folder, hour);
        folder.append("/");
        append_signed(&mut folder, minute);
        folder.append("/");
        assert(folder@ =~= folder_of(hour, minute));
        folder
    }

    /// Where `record` is stored. A record is stored only if it carries both
    /// a span and a time.
    pub fn target(record: &ParagraphInfo) -> (target: Option<StorageTarget>)
        ensures
            target is Some <==> record@.marked(),
            target matches Some(t) ==> stored_at(*record) == Some((t.folder@, t.file_name@)),
            target is None ==> stored_at(*record) is None,
    {
        match (record.time, Self::digest(record)) {
            (Some((hour, minute)), Some(digest)) => {
                let mut file_name = String::new();
                append_decimal(&mut file_name, digest);
                file_name.append(FILE_EXTENSION);
                assert(file_name@ =~= file_name_of(digest));
                Some(StorageTarget { folder: Self::folder(hour, minute), file_name })
            },
            _ => None,
        }
    }
}

/// Storing is idempotent: two records with the same author, span and text
/// get the same file name, and where their times agree too they are stored
/// at the same place.
pub proof fn lemma_same_record_same_file(a: ParagraphInfo, b: ParagraphInfo)
    requires
        a.author@ == b.author@,
        a.section == b.section,
        a.text@ == b.text@,
    ensures
        stored_name(a) == stored_name(b),
        a.time == b.time ==> stored_at(a) == stored_at(b),
{
}

/// The store after `record` has been written to it, every write taken to
/// succeed. A store holds, for each place (a folder and a file name below
/// its root), what the record written there last says. A record that is not
/// stored leaves the store as it was.
pub open spec fn written(
    store: Map<(Seq<char>, Seq<char>), ParagraphView>,
    record: ParagraphInfo,
) -> Map<(Seq<char>, Seq<char>), ParagraphView> {
    match stored_at(record) {
        Some(place) => store.insert(place, record@),
        None => store,
    }
}

/// The store after `records` have been written to it one after the other.
pub open spec fn written_all(
    store: Map<(Seq<char>, Seq<char>), ParagraphView>,
    records: Seq<ParagraphInfo>,
) -> Map<(Seq<char>, Seq<char>), ParagraphView>
    decreases records.len(),
{
    if records.len() == 0 {
        store
    } else {
        written(written_all(store, records.drop_last()), records.last())
    }
}

/// What the last of `records` that is stored at `place` says, if any is
/// stored there.
pub open spec fn last_at(records: Seq<ParagraphInfo>, place: (Seq<char>, Seq<char>)) -> Option<
    ParagraphView,
>
    decreases records.len(),
{
    if records.len() == 0 {
        None
    } else if stored_at(records.last()) == Some(place) {
        Some(records.last()@)
    } else {
        last_at(records.drop_last(), place)
    }
}

/// Writing a record a second time overwrites its file with the same
/// contents: the store is as after the first write.
pub proof fn lemma_storing_twice_is_storing_once(
    store: Map<(Seq<char>, Seq<char>), ParagraphView>,
    record: ParagraphInfo,
)
    ensures
        written(written(store, record), record) == written(store, record),
        written_all(store, seq![record, record]) == written_all(store, seq![record]),
{
    assert(written(written(store, record), record) =~= written(store, record));
    let twice = seq![record, record];
    let once = seq![record];
    assert(twice.drop_last() =~= once);
    assert(once.drop_last() =~= Seq::<ParagraphInfo>::empty());
    assert(written_all(store, once.drop_last()) == store);
    assert(written_all(store, once) == written(store, record));
    assert(written_all(store, twice) == written(written_all(store, once), record));
}

/// After records have been written, each place holds what the last record
/// written there says, and every other place holds what it held before.
pub proof fn lemma_store_holds_the_last_write(
    store: Map<(Seq<char>, Seq<char>), ParagraphView>,
    records: Seq<ParagraphInfo>,
    place: (Seq<char>, Seq<char>),
)
    ensures
        written_all(store, records).contains_key(place) <==> store.contains_key(place) || last_at(
            records,
            place,
        ) is Some,
        written_all(store, records).contains_key(place) ==> written_all(store, records)[place]
            == match last_at(records, place) {
            Some(view) => view,
            None => store[place],
        },
    decreases records.len(),
{
    if records.len() > 0 {
        lemma_store_holds_the_last_write(store, records.drop_last(), place);
    }
}

/// Collecting an unchanged corpus a second time leaves the same set of
/// files with the same contents: writing the same records again, in the
/// same order, changes nothing in the store.
pub proof fn lemma_storing_again_changes_nothing(
    store: Map<(Seq<char>, Seq<char>), ParagraphView>,
    records: Seq<ParagraphInfo>,
)
    ensures
        written_all(written_all(store, records), records) == written_all(store, records),
{
    let once = written_all(store, records);
    let twice = written_all(once, records);
    assert forall|place: (Seq<char>, Seq<char>)| #[trigger]
        twice.dom().contains(place) == once.dom().contains(place) by {
        lemma_store_holds_the_last_write(store, records, place);
        lemma_store_holds_the_last_write(once, records, place);
    }
    assert forall|place: (Seq<char>, Seq<char>)| twice.dom().contains(place) implies #[trigger] twice[place]
        == once[place] by {
        lemma_store_holds_the_last_write(store, records, place);
        lemma_store_holds_the_last_write(once, records, place);
    }
    assert(twice =~= once);
}

} // verus!
