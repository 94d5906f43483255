//! A table of one dialect, and the handle of a table at a location.

use vstd::prelude::*;
use crate::android_v1::{android_v1_records, AndroidV1FsEntry, AndroidV1Record};
use crate::android_v2::{android_v2_records, AndroidV2FsEntry, AndroidV2Record};
use crate::detect::{
    classify, detect, detect_lines, device_prefix, dialect_of, is_comment, lemma_detect_first,
    Dialect,
};
use crate::error::FstabError;
use crate::lines::bodies;
use crate::linux::{linux_records, LinuxFsEntry, LinuxRecord};
use crate::text::{fields, split};

verus! {

/// The entries of one table, all of one dialect.
#[derive(Debug, PartialEq, Eq)]
pub enum FstabType {
    Linux(Vec<LinuxFsEntry>),
    AndroidV1(Vec<AndroidV1FsEntry>),
    AndroidV2(Vec<AndroidV2FsEntry>),
}

/// What a table holds, as mathematical text.
pub enum TableRecord {
    Linux(Seq<LinuxRecord>),
    AndroidV1(Seq<AndroidV1Record>),
    AndroidV2(Seq<AndroidV2Record>),
}

impl View for FstabType {
    type V = TableRecord;

    open spec fn view(&self) -> TableRecord {
        match *self {
            FstabType::Linux(v) => TableRecord::Linux(linux_records(v@)),
            FstabType::AndroidV1(v) => TableRecord::AndroidV1(android_v1_records(v@)),
            FstabType::AndroidV2(v) => TableRecord::AndroidV2(android_v2_records(v@)),
        }
    }
}

impl TableRecord {
    /// The dialect of the table.
    pub open spec fn dialect(self) -> Dialect {
        match self {
            TableRecord::Linux(_) => Dialect::Linux,
            TableRecord::AndroidV1(_) => Dialect::AndroidV1,
            TableRecord::AndroidV2(_) => Dialect::AndroidV2,
        }
    }

    /// The table that `text` holds when read in the dialect `d`.
    pub open spec fn decode_as(d: Dialect, text: Seq<char>) -> TableRecord {
        match d {
            Dialect::Linux => TableRecord::Linux(LinuxRecord::decode_text(text)),
            Dialect::AndroidV1 => TableRecord::AndroidV1(AndroidV1Record::decode_text(text)),
            Dialect::AndroidV2 => TableRecord::AndroidV2(AndroidV2Record::decode_text(text)),
        }
    }

    /// The table that `text` holds: its entries in the dialect of the text,
    /// or `UnsupportedFormat` if the text has no dialect.
    pub open spec fn decode(text: Seq<char>) -> Result<TableRecord, FstabError> {
        match dialect_of(text) {
            Some(d) => Ok(Self::decode_as(d, text)),
            None => Err(FstabError::UnsupportedFormat),
        }
    }

    /// Whether the table can be stored and found again: it has an entry,
    /// its entries can stand in a table, and the line of the first one
    /// tells the dialect. For the Android dialects that is a matter of
    /// `/dev/` at the start of the line: there with the second dialect,
    /// not there with the first.
    pub open spec fn storable(self) -> bool {
        match self {
            TableRecord::Linux(v) => {
                &&& v.len() > 0
                &&& forall|i: int| 0 <= i < v.len() ==> (#[trigger] v[i]).storable()
            },
            TableRecord::AndroidV1(v) => {
                &&& v.len() > 0
                &&& forall|i: int| 0 <= i < v.len() ==> (#[trigger] v[i]).storable()
                &&& !device_prefix().is_prefix_of(v[0].mountpoint)
            },
            TableRecord::AndroidV2(v) => {
                &&& v.len() > 0
                &&& forall|i: int| 0 <= i < v.len() ==> (#[trigger] v[i]).storable()
                &&& device_prefix().is_prefix_of(v[0].fs_spec)
            },
        }
    }

    /// The text of the table: the lines of its entries in its dialect.
    pub open spec fn encode(self) -> Seq<char> {
        match self {
            TableRecord::Linux(v) => LinuxRecord::encode_all(v),
            TableRecord::AndroidV1(v) => AndroidV1Record::encode_all(v),
            TableRecord::AndroidV2(v) => AndroidV2Record::encode_all(v),
        }
    }
}

/// What the result of reading a table holds.
pub open spec fn table_outcome(r: Result<FstabType, FstabError>) -> Result<
    TableRecord,
    FstabError,
> {
    match r {
        Ok(t) => Ok(t@),
        Err(x) => Err(x),
    }
}

/// The mount table at a location. It holds the location and nothing else:
/// the text of the table is handed in to be read, and handed out to be
/// stored.
#[derive(Debug)]
pub struct FsTab {
    location: String,
}

impl View for FsTab {
    type V = Seq<char>;

    closed spec fn view(&self) -> Seq<char> {
        self.location@
    }
}

impl FsTab {
    /// The table at `location`.
    pub fn new(location: &str) -> (r: FsTab)
        ensures
            r@ == location@,
    {
        FsTab { location: location.to_owned() }
    }

    /// Where the table lies.
    pub fn location(&self) -> (r: &str)
        ensures
            r@ == self@,
    {
        self.location.as_str()
    }

    /// The text to store at the location so that it holds the table: the
    /// lines of the entries in the table's dialect, and nothing of what the
    /// location held before.
    pub fn save_entry(&self, fstab_type: FstabType) -> (r: String)
        ensures
            r@ == fstab_type@.encode(),
    {
        match fstab_type {
            FstabType::Linux(a) => LinuxFsEntry::save_fstab(a),
            FstabType::AndroidV2(a) => AndroidV2FsEntry::save_fstab(a),
            FstabType::AndroidV1(a) => AndroidV1FsEntry::save_fstab(a),
        }
    }

    /// Reads the table from `contents`, the text found at the location.
    /// The dialect is that of the first line that has the shape of an entry;
    /// lines that are comments or no entries of that dialect are left out.
    /// Fails with `UnsupportedFormat` if no line has the shape of an entry.
    pub fn parse_entries(&self, contents: &str) -> (r: Result<FstabType, FstabError>)
        ensures
            table_outcome(r) == TableRecord::decode(contents@),
    {
        match detect(contents) {
            None => Err(FstabError::UnsupportedFormat),
            Some(Dialect::Linux) => LinuxFsEntry::parse_entries(contents),
            Some(Dialect::AndroidV2) => AndroidV2FsEntry::parse_entries(contents),
            Some(Dialect::AndroidV1) => AndroidV1FsEntry::parse_entries(contents),
        }
    }
}

/// A text in which every line is blank or a comment has no dialect, and
/// holds no table.
pub proof fn lemma_nothing_but_comments(text: Seq<char>)
    requires
        forall|k: int|
            0 <= k < split(text, '\n').len() ==> {
                let f = fields(#[trigger] split(text, '\n')[k]);
                f.len() == 0 || is_comment(f)
            },
    ensures
        dialect_of(text) is None,
        TableRecord::decode(text) == Err::<TableRecord, FstabError>(FstabError::UnsupportedFormat),
{
    let lines = split(text, '\n');
    lemma_detect_first(lines);
    if detect_lines(lines) is Some {
        let d = detect_lines(lines)->Some_0;
        let k = choose|k: int|
            0 <= k < lines.len() && classify(fields(lines[k])) == Some(d) && forall|j: int|
                0 <= j < k ==> classify(fields(#[trigger] lines[j])) is None;
        let f = fields(lines[k]);
        assert(f.len() == 0 || is_comment(f));
    }
}

/// A table that is read from a text has the dialect of the text.
pub proof fn lemma_dialect_read(text: Seq<char>)
    requires
        TableRecord::decode(text) is Ok,
    ensures
        dialect_of(text) == Some(TableRecord::decode(text)->Ok_0.dialect()),
{
}

/// Entries read from a text in one dialect, written and read again in that
/// dialect, are the same entries.
pub proof fn lemma_read_again(d: Dialect, text: Seq<char>)
    ensures
        TableRecord::decode_as(d, TableRecord::decode_as(d, text).encode())
            == TableRecord::decode_as(d, text),
{
    match d {
        Dialect::Linux => {
            crate::linux::lemma_entries_read(text);
            crate::linux::lemma_table_read_written(LinuxRecord::decode_text(text));
        },
        Dialect::AndroidV1 => {
            crate::android_v1::lemma_entries_read(text);
            crate::android_v1::lemma_table_read_written(AndroidV1Record::decode_text(text));
        },
        Dialect::AndroidV2 => {
            crate::android_v2::lemma_entries_read(text);
            crate::android_v2::lemma_table_read_written(AndroidV2Record::decode_text(text));
        },
    }
}

/// A table that can be stored is read back from its text: the dialect is
/// found again, and so is every entry, in its place.
pub proof fn lemma_table_read_back(t: TableRecord)
    requires
        t.storable(),
    ensures
        dialect_of(t.encode()) == Some(t.dialect()),
        TableRecord::decode(t.encode()) == Ok::<TableRecord, FstabError>(t),
{
    let lines = split(t.encode(), '\n');
    match t {
        TableRecord::Linux(v) => {
            crate::linux::lemma_table_read_written(v);
            assert(v[0].storable());
            crate::linux::lemma_fields_of_encoding(v[0]);
            assert(lines[0] == bodies(v, LinuxRecord::writer())[0]);
            assert(fields(lines[0]) == v[0].to_fields());
        },
        TableRecord::AndroidV1(v) => {
            crate::android_v1::lemma_table_read_written(v);
            assert(v[0].storable());
            crate::android_v1::lemma_fields_of_encoding(v[0]);
            assert(lines[0] == bodies(v, AndroidV1Record::writer())[0]);
            assert(fields(lines[0]) == v[0].to_fields());
        },
        TableRecord::AndroidV2(v) => {
            crate::android_v2::lemma_table_read_written(v);
            assert(v[0].storable());
            crate::android_v2::lemma_fields_of_encoding(v[0]);
            assert(lines[0] == bodies(v, AndroidV2Record::writer())[0]);
            assert(fields(lines[0]) == v[0].to_fields());
        },
    }
}

} // verus!
