//! The second Android dialect: five fields to a line.

use vstd::prelude::*;
use crate::detect::{fields_are_comment, is_comment};
use crate::error::FstabError;
use crate::lines::{
    bodies, collect, found_in, lemma_collect_sources, lemma_collect_written, reads_back, write_all,
};
use crate::table::FstabType;
use crate::text::{
    all_chars, fields, is_field, is_list, is_whitespace, join, join_text,
    lemma_fields_are_fields, lemma_fields_of_line, lemma_join_all, lemma_join_list,
    lemma_join_push, lemma_join_split, lemma_split_list, split, split_fields, split_text, views,
};

verus! {

/// One entry of an Android mount table of the second dialect.
#[derive(Clone, Debug, PartialEq, Eq, Default)]
pub struct AndroidV2FsEntry {
    /// The device identifier
    pub fs_spec: String,
    /// The mount point
    pub mountpoint: String,
    /// Which filesystem type it is
    pub vfs_type: String,
    /// Mount options to use
    pub mount_options: Vec<String>,
    /// The flags by which the Android mount manager goes
    pub fsmgr_flags: Vec<String>,
}

/// What an entry of the second Android dialect holds, as mathematical text.
pub struct AndroidV2Record {
    pub fs_spec: Seq<char>,
    pub mountpoint: Seq<char>,
    pub vfs_type: Seq<char>,
    pub mount_options: Seq<Seq<char>>,
    pub fsmgr_flags: Seq<Seq<char>>,
}

impl View for AndroidV2FsEntry {
    type V = AndroidV2Record;

    open spec fn view(&self) -> AndroidV2Record {
        AndroidV2Record {
            fs_spec: self.fs_spec@,
            mountpoint: self.mountpoint@,
            vfs_type: self.vfs_type@,
            mount_options: views(self.mount_options@),
            fsmgr_flags: views(self.fsmgr_flags@),
        }
    }
}

impl AndroidV2Record {
    /// The entry that a line with the fields `f` stands for. The line must
    /// have five fields. The options and the flags are the pieces of the
    /// fourth and of the fifth field between their commas.
    pub open spec fn decode(f: Seq<Seq<char>>) -> Result<AndroidV2Record, FstabError> {
        if f.len() != 5 {
            Err(FstabError::MalformedEntry)
        } else {
            Ok(
                AndroidV2Record {
                    fs_spec: f[0],
                    mountpoint: f[1],
                    vfs_type: f[2],
                    mount_options: split(f[3], ','),
                    fsmgr_flags: split(f[4], ','),
                },
            )
        }
    }

    /// The line for this entry: its fields with one space between each two
    /// and a line feed at the end.
    pub open spec fn encode(self) -> Seq<char> {
        self.fs_spec + seq![' '] + self.mountpoint + seq![' '] + self.vfs_type + seq![' '] + join(
            self.mount_options,
            seq![','],
        ) + seq![' '] + join(self.fsmgr_flags, seq![',']) + seq!['\n']
    }

    /// The entry of one line of a table, if it has one: a comment has none,
    /// nor has a line that does not stand for an entry.
    pub open spec fn decode_line(line: Seq<char>) -> Option<AndroidV2Record> {
        let f = fields(line);
        if is_comment(f) {
            None
        } else {
            match Self::decode(f) {
                Ok(e) => Some(e),
                Err(_) => None,
            }
        }
    }

    /// What reads a line of a table.
    pub open spec fn reader() -> spec_fn(Seq<char>) -> Option<AndroidV2Record> {
        |line: Seq<char>| Self::decode_line(line)
    }

    /// What writes the line of an entry.
    pub open spec fn writer() -> spec_fn(AndroidV2Record) -> Seq<char> {
        |e: AndroidV2Record| e.encode()
    }

    /// The entries of a whole text: of each of its lines, in order, the
    /// entry that the line has, if it has one.
    pub open spec fn decode_text(text: Seq<char>) -> Seq<AndroidV2Record> {
        collect(split(text, '\n'), Self::reader())
    }

    /// The lines of the entries, one after the other.
    pub open spec fn encode_all(entries: Seq<AndroidV2Record>) -> Seq<char> {
        write_all(entries, Self::writer())
    }

    /// The fields of the line for this entry.
    pub open spec fn to_fields(self) -> Seq<Seq<char>> {
        seq![
            self.fs_spec,
            self.mountpoint,
            self.vfs_type,
            join(self.mount_options, seq![',']),
            join(self.fsmgr_flags, seq![',']),
        ]
    }

    /// Whether the entry can stand in a line: device, mount point and type
    /// are fields, and the options and the flags are lists.
    pub open spec fn well_formed(self) -> bool {
        &&& is_field(self.fs_spec)
        &&& is_field(self.mountpoint)
        &&& is_field(self.vfs_type)
        &&& is_list(self.mount_options, ',')
        &&& is_list(self.fsmgr_flags, ',')
    }

    /// Whether the entry can stand in a table: it can stand in a line, and
    /// that line is no comment.
    pub open spec fn storable(self) -> bool {
        self.well_formed() && self.fs_spec[0] != '#'
    }
}

/// What a sequence of entries holds.
pub open spec fn android_v2_records(v: Seq<AndroidV2FsEntry>) -> Seq<AndroidV2Record> {
    Seq::new(v.len(), |i: int| v[i]@)
}

/// What the result of reading a line holds.
pub open spec fn android_v2_outcome(r: Result<AndroidV2FsEntry, FstabError>) -> Result<
    AndroidV2Record,
    FstabError,
> {
    match r {
        Ok(e) => Ok(e@),
        Err(x) => Err(x),
    }
}

impl AndroidV2FsEntry {
    /// Reads one line. Fails with `MalformedEntry` unless the line has five
    /// fields.
    pub fn parse_entry(contents: &str) -> (r: Result<AndroidV2FsEntry, FstabError>)
        ensures
            android_v2_outcome(r) == AndroidV2Record::decode(fields(contents@)),
    {
        let parts = split_fields(contents);
        Self::from_fields(&parts)
    }

    /// Builds the entry of a line from the line's fields.
    pub fn from_fields(parts: &Vec<String>) -> (r: Result<AndroidV2FsEntry, FstabError>)
        ensures
            android_v2_outcome(r) == AndroidV2Record::decode(views(parts@)),
    {
        if parts.len() != 5 {
            return Err(FstabError::MalformedEntry);
        }
        Ok(
            AndroidV2FsEntry {
                fs_spec: parts[0].clone(),
                mountpoint: parts[1].clone(),
                vfs_type: parts[2].clone(),
                mount_options: split_text(parts[3].as_str(), ','),
                fsmgr_flags: split_text(parts[4].as_str(), ','),
            },
        )
    }

    /// Wraps entries of this dialect as a table.
    pub fn get_struct(vector: Vec<AndroidV2FsEntry>) -> (r: FstabType)
        ensures
            r == FstabType::AndroidV2(vector),
    {
        FstabType::AndroidV2(vector)
    }

    /// Reads every line of `contents` that is no comment and stands for an
    /// entry of this dialect, and leaves the other lines out. Never fails.
    pub fn parse_entries(contents: &str) -> (r: Result<FstabType, FstabError>)
        ensures
            r matches Ok(FstabType::AndroidV2(v)) && android_v2_records(v@)
                == AndroidV2Record::decode_text(contents@),
    {
        let lines = split_text(contents, '\n');
        let mut found: Vec<AndroidV2FsEntry> = Vec::new();
        let mut i: usize = 0;
        while i < lines.len()
            invariant
                i <= lines.len(),
                android_v2_records(found@) == collect(
                    views(lines@).take(i as int),
                    AndroidV2Record::reader(),
                ),
            decreases lines.len() - i,
        {
            assert(views(lines@).take(i + 1).drop_last() == views(lines@).take(i as int));
            assert(views(lines@).take(i + 1).last() == lines@[i as int]@);
            let parts = split_fields(lines[i].as_str());
            if !fields_are_comment(&parts) {
                match Self::from_fields(&parts) {
                    Ok(entry) => {
                        let ghost before = android_v2_records(found@);
                        found.push(entry);
                        assert(android_v2_records(found@) == before.push(entry@));
                    },
                    Err(_) => {},
                }
            }
            i += 1;
        }
        assert(views(lines@).take(lines@.len() as int) == views(lines@));
        Ok(Self::get_struct(found))
    }

    /// Writes this entry as one line.
    pub fn encode(&self) -> (r: String)
        ensures
            r@ == self@.encode(),
    {
        proof {
            reveal_strlit(" ");
            reveal_strlit(",");
            reveal_strlit("\n");
        }
        assert(" "@ == seq![' ']);
        assert(","@ == seq![',']);
        assert("\n"@ == seq!['\n']);
        let mut out = String::new();
        out.append(self.fs_spec.as_str());
        out.append(" ");
        out.append(self.mountpoint.as_str());
        out.append(" ");
        out.append(self.vfs_type.as_str());
        out.append(" ");
        out.append(join_text(&self.mount_options, ",").as_str());
        out.append(" ");
        out.append(join_text(&self.fsmgr_flags, ",").as_str());
        out.append("\n");
        assert(out@ == self@.encode());
        out
    }

    /// Writes the entries as the text of a table, one line each.
    pub fn save_fstab(entries: Vec<AndroidV2FsEntry>) -> (r: String)
        ensures
            r@ == AndroidV2Record::encode_all(android_v2_records(entries@)),
    {
        let mut out = String::new();
        let mut i: usize = 0;
        while i < entries.len()
            invariant
                i <= entries.len(),
                out@ == write_all(
                    android_v2_records(entries@).take(i as int),
                    AndroidV2Record::writer(),
                ),
            decreases entries.len() - i,
        {
            assert(android_v2_records(entries@).take(i + 1).drop_last() == android_v2_records(
                entries@,
            ).take(i as int));
            out.append(entries[i].encode().as_str());
            i += 1;
        }
        assert(android_v2_records(entries@).take(entries@.len() as int) == android_v2_records(
            entries@,
        ));
        out
    }
}

/// A line stands for an entry exactly if it has five fields, and is
/// malformed if it has not.
pub proof fn lemma_decode_outcome(line: Seq<char>)
    ensures
        AndroidV2Record::decode(fields(line)) is Ok <==> fields(line).len() == 5,
        AndroidV2Record::decode(fields(line)) == Err::<AndroidV2Record, FstabError>(
            FstabError::MalformedEntry,
        ) <==> fields(line).len() != 5,
{
}

/// The line of an entry that can stand in a line is made of the entry's
/// five fields, single spaces between them and a line feed; read as fields,
/// it gives those five.
pub proof fn lemma_fields_of_encoding(e: AndroidV2Record)
    requires
        e.well_formed(),
    ensures
        forall|i: int| 0 <= i < 5 ==> is_field(#[trigger] e.to_fields()[i]),
        e.encode() == join(e.to_fields(), seq![' ']) + seq!['\n'],
        fields(e.encode()) == e.to_fields(),
        fields(e.encode().drop_last()) == e.to_fields(),
        all_chars(e.encode().drop_last(), |c: char| c != '\n'),
{
    let space = seq![' '];
    let f = e.to_fields();
    lemma_join_list(e.mount_options, ',');
    lemma_join_list(e.fsmgr_flags, ',');
    let p1 = seq![f[0]];
    let p2 = p1.push(f[1]);
    let p3 = p2.push(f[2]);
    let p4 = p3.push(f[3]);
    let p5 = p4.push(f[4]);
    lemma_join_push(p1, f[1], space);
    lemma_join_push(p2, f[2], space);
    lemma_join_push(p3, f[3], space);
    lemma_join_push(p4, f[4], space);
    assert(p5 == f);
    assert(join(p1, space) == f[0]);
    lemma_fields_of_line(f);
    let body = join(f, space);
    assert((body + seq!['\n']).drop_last() == body);
    let plain = |c: char| c != '\n';
    assert forall|i: int| 0 <= i < f.len() implies all_chars(#[trigger] f[i], plain) by {
        assert(is_field(f[i]));
        assert forall|j: int| 0 <= j < f[i].len() implies plain(#[trigger] f[i][j]) by {
            assert(!is_whitespace(f[i][j]));
        }
    }
    assert(all_chars(space, plain));
    lemma_join_all(f, space, plain);
}

/// An entry that can stand in a line is read back from its line.
pub proof fn lemma_read_written(e: AndroidV2Record)
    requires
        e.well_formed(),
    ensures
        AndroidV2Record::decode(fields(e.encode())) == Ok::<AndroidV2Record, FstabError>(e),
        AndroidV2Record::decode(fields(e.encode().drop_last())) == Ok::<
            AndroidV2Record,
            FstabError,
        >(e),
{
    lemma_fields_of_encoding(e);
    lemma_join_list(e.mount_options, ',');
    lemma_join_list(e.fsmgr_flags, ',');
    assert(e.to_fields().len() == 5);
}

/// The entry of a line can stand in a line, and its fields are those of
/// the line.
pub proof fn lemma_decoded_well_formed(line: Seq<char>)
    requires
        AndroidV2Record::decode(fields(line)) is Ok,
    ensures
        AndroidV2Record::decode(fields(line))->Ok_0.well_formed(),
        AndroidV2Record::decode(fields(line))->Ok_0.to_fields() == fields(line),
{
    let f = fields(line);
    lemma_fields_are_fields(line);
    assert(is_field(f[0]) && is_field(f[1]) && is_field(f[2]) && is_field(f[3]) && is_field(f[4]));
    lemma_split_list(f[3], ',');
    lemma_join_split(f[3], ',');
    lemma_split_list(f[4], ',');
    lemma_join_split(f[4], ',');
}

/// Writing the entry of a line gives a line with the same fields in the
/// same order, and so a line of the same entry.
pub proof fn lemma_write_read(line: Seq<char>)
    requires
        AndroidV2Record::decode(fields(line)) is Ok,
    ensures
        ({
            let e = AndroidV2Record::decode(fields(line))->Ok_0;
            &&& fields(e.encode()) == fields(line)
            &&& AndroidV2Record::decode(fields(e.encode())) == Ok::<AndroidV2Record, FstabError>(
                e,
            )
        }),
{
    let e = AndroidV2Record::decode(fields(line))->Ok_0;
    lemma_decoded_well_formed(line);
    lemma_fields_of_encoding(e);
    lemma_read_written(e);
}

/// Writing the entry of a line gives the very line, if the line is made of
/// its fields, single spaces between them and a line feed.
pub proof fn lemma_write_read_exact(line: Seq<char>)
    requires
        AndroidV2Record::decode(fields(line)) is Ok,
        line == join(fields(line), seq![' ']) + seq!['\n'],
    ensures
        AndroidV2Record::decode(fields(line))->Ok_0.encode() == line,
{
    let e = AndroidV2Record::decode(fields(line))->Ok_0;
    lemma_decoded_well_formed(line);
    lemma_fields_of_encoding(e);
}

/// Every entry read from a text is the entry of one of its lines that is
/// no comment; it can stand in a table, so its device does not begin with
/// `#`.
pub proof fn lemma_entries_read(text: Seq<char>)
    ensures
        forall|i: int|
            0 <= i < AndroidV2Record::decode_text(text).len() ==> {
                let e = #[trigger] AndroidV2Record::decode_text(text)[i];
                &&& found_in(e, split(text, '\n'), AndroidV2Record::reader())
                &&& e.storable()
            },
{
    let lines = split(text, '\n');
    let entries = AndroidV2Record::decode_text(text);
    lemma_collect_sources(lines, AndroidV2Record::reader());
    assert forall|i: int| 0 <= i < entries.len() implies {
        let e = #[trigger] entries[i];
        &&& found_in(e, lines, AndroidV2Record::reader())
        &&& e.storable()
    } by {
        let e = entries[i];
        assert(found_in(e, lines, AndroidV2Record::reader()));
        let k = choose|k: int|
            0 <= k < lines.len() && #[trigger] (AndroidV2Record::reader())(lines[k]) == Some(e);
        assert(AndroidV2Record::decode_line(lines[k]) == Some(e));
        lemma_decoded_well_formed(lines[k]);
    }
}

/// Entries that can stand in a table are read back, in their order, from
/// the text that they are written to, which has one line for each of them
/// and an empty one at its end.
pub proof fn lemma_table_read_written(entries: Seq<AndroidV2Record>)
    requires
        forall|i: int| 0 <= i < entries.len() ==> (#[trigger] entries[i]).storable(),
    ensures
        AndroidV2Record::decode_text(AndroidV2Record::encode_all(entries)) == entries,
        split(AndroidV2Record::encode_all(entries), '\n') == bodies(entries, AndroidV2Record::writer()).push(
            Seq::<char>::empty(),
        ),
{
    assert(fields(Seq::<char>::empty()) == Seq::<Seq<char>>::empty());
    assert forall|i: int| 0 <= i < entries.len() implies reads_back(
        #[trigger] entries[i],
        AndroidV2Record::reader(),
        AndroidV2Record::writer(),
    ) by {
        let e = entries[i];
        assert(e.storable());
        lemma_fields_of_encoding(e);
        lemma_read_written(e);
        let line = e.encode();
        assert forall|j: int| 0 <= j < line.len() - 1 implies line[j] != '\n' by {
            assert(line[j] == line.drop_last()[j]);
            assert((|c: char| c != '\n')(line.drop_last()[j]));
        }
    }
    lemma_collect_written(entries, AndroidV2Record::reader(), AndroidV2Record::writer());
}

} // verus!
