//! The Linux dialect: six fields to a line.

use vstd::prelude::*;
use crate::detect::{fields_are_comment, is_comment};
use crate::error::FstabError;
use crate::lines::{
    bodies, collect, found_in, lemma_collect_sources, lemma_collect_written, reads_back, write_all,
};
use crate::number::{
    decimal, decimal_text, is_digit, lemma_decimal_digits, lemma_parse_decimal, parse_u16,
    parse_u16_text,
};
use crate::table::FstabType;
use crate::text::{
    all_chars, fields, is_char, is_field, is_list, is_whitespace, join, join_text,
    lemma_fields_are_fields, lemma_fields_of_line, lemma_join_all, lemma_join_list,
    lemma_join_push, lemma_join_split, lemma_split_list, split, split_fields, split_text, views,
};

verus! {

/// One entry of a Linux mount table. For what the fields mean consult
/// `man fstab`.
#[derive(Clone, Debug, PartialEq, Eq, Default)]
pub struct LinuxFsEntry {
    /// The device identifier
    pub fs_spec: String,
    /// The mount point
    pub mountpoint: String,
    /// Which filesystem type it is
    pub vfs_type: String,
    /// Mount options to use
    pub mount_options: Vec<String>,
    /// Whether dump(8) is to back the filesystem up
    pub dump: bool,
    /// The place of the filesystem in the order in which fsck(8) checks
    /// filesystems at boot time
    pub fsck_order: u16,
}

/// What a Linux entry holds, as mathematical text.
pub struct LinuxRecord {
    pub fs_spec: Seq<char>,
    pub mountpoint: Seq<char>,
    pub vfs_type: Seq<char>,
    pub mount_options: Seq<Seq<char>>,
    pub dump: bool,
    pub fsck_order: u16,
}

impl View for LinuxFsEntry {
    type V = LinuxRecord;

    open spec fn view(&self) -> LinuxRecord {
        LinuxRecord {
            fs_spec: self.fs_spec@,
            mountpoint: self.mountpoint@,
            vfs_type: self.vfs_type@,
            mount_options: views(self.mount_options@),
            dump: self.dump,
            fsck_order: self.fsck_order,
        }
    }
}

impl LinuxRecord {
    /// The entry that a line with the fields `f` stands for. The line must
    /// have six fields, the last of them an unsigned 16-bit integer. The
    /// options are the pieces of the fourth field between its commas; the
    /// dump flag is set unless the fifth field is `0`.
    pub open spec fn decode(f: Seq<Seq<char>>) -> Result<LinuxRecord, FstabError> {
        if f.len() != 6 {
            Err(FstabError::MalformedEntry)
        } else {
            match parse_u16(f[5]) {
                Err(fault) => Err(FstabError::InvalidInteger(fault)),
                Ok(order) => Ok(
                    LinuxRecord {
                        fs_spec: f[0],
                        mountpoint: f[1],
                        vfs_type: f[2],
                        mount_options: split(f[3], ','),
                        dump: f[4] != seq!['0'],
                        fsck_order: order,
                    },
                ),
            }
        }
    }

    /// The digit that stands for the dump flag.
    pub open spec fn dump_digit(self) -> Seq<char> {
        if self.dump {
            seq!['1']
        } else {
            seq!['0']
        }
    }

    /// The line for this entry: its fields with one space between each two
    /// and a line feed at the end.
    pub open spec fn encode(self) -> Seq<char> {
        self.fs_spec + seq![' '] + self.mountpoint + seq![' '] + self.vfs_type + seq![' '] + join(
            self.mount_options,
            seq![','],
        ) + seq![' '] + self.dump_digit() + seq![' '] + decimal(self.fsck_order as nat)
            + seq!['\n']
    }

    /// The entry of one line of a table, if it has one: a comment has none,
    /// nor has a line that does not stand for an entry.
    pub open spec fn decode_line(line: Seq<char>) -> Option<LinuxRecord> {
        let f = fields(line);
        if is_comment(f) {
            None
        } else {
            match Self::decode(f) {
                Ok(e) => Some(e),
                Err(_) => None,
            }
        }
    }

    /// What reads a line of a table.
    pub open spec fn reader() -> spec_fn(Seq<char>) -> Option<LinuxRecord> {
        |line: Seq<char>| Self::decode_line(line)
    }

    /// What writes the line of an entry.
    pub open spec fn writer() -> spec_fn(LinuxRecord) -> Seq<char> {
        |e: LinuxRecord| e.encode()
    }

    /// The entries of a whole text: of each of its lines, in order, the
    /// entry that the line has, if it has one.
    pub open spec fn decode_text(text: Seq<char>) -> Seq<LinuxRecord> {
        collect(split(text, '\n'), Self::reader())
    }

    /// The lines of the entries, one after the other.
    pub open spec fn encode_all(entries: Seq<LinuxRecord>) -> Seq<char> {
        write_all(entries, Self::writer())
    }

    /// The fields of the line for this entry.
    pub open spec fn to_fields(self) -> Seq<Seq<char>> {
        seq![
            self.fs_spec,
            self.mountpoint,
            self.vfs_type,
            join(self.mount_options, seq![',']),
            self.dump_digit(),
            decimal(self.fsck_order as nat),
        ]
    }

    /// Whether the entry can stand in a line: device, mount point and type
    /// are fields, and the options are a list.
    pub open spec fn well_formed(self) -> bool {
        &&& is_field(self.fs_spec)
        &&& is_field(self.mountpoint)
        &&& is_field(self.vfs_type)
        &&& is_list(self.mount_options, ',')
    }

    /// Whether the entry can stand in a table: it can stand in a line, and
    /// that line is no comment.
    pub open spec fn storable(self) -> bool {
        self.well_formed() && self.fs_spec[0] != '#'
    }
}

/// What a sequence of entries holds.
pub open spec fn linux_records(v: Seq<LinuxFsEntry>) -> Seq<LinuxRecord> {
    Seq::new(v.len(), |i: int| v[i]@)
}

/// What the result of reading a line holds.
pub open spec fn linux_outcome(r: Result<LinuxFsEntry, FstabError>) -> Result<
    LinuxRecord,
    FstabError,
> {
    match r {
        Ok(e) => Ok(e@),
        Err(x) => Err(x),
    }
}

impl LinuxFsEntry {
    /// Reads one line. Fails with `MalformedEntry` unless the line has six
    /// fields, and with `InvalidInteger` if the sixth is no unsigned 16-bit
    /// integer.
    pub fn parse_entry(contents: &str) -> (r: Result<LinuxFsEntry, FstabError>)
        ensures
            linux_outcome(r) == LinuxRecord::decode(fields(contents@)),
    {
        let parts = split_fields(contents);
        Self::from_fields(&parts)
    }

    /// Builds the entry of a line from the line's fields.
    pub fn from_fields(parts: &Vec<String>) -> (r: Result<LinuxFsEntry, FstabError>)
        ensures
            linux_outcome(r) == LinuxRecord::decode(views(parts@)),
    {
        if parts.len() != 6 {
            return Err(FstabError::MalformedEntry);
        }
        match parse_u16_text(parts[5].as_str()) {
            Err(fault) => Err(FstabError::InvalidInteger(fault)),
            Ok(order) => Ok(
                LinuxFsEntry {
                    fs_spec: parts[0].clone(),
                    mountpoint: parts[1].clone(),
                    vfs_type: parts[2].clone(),
                    mount_options: split_text(parts[3].as_str(), ','),
                    dump: !is_char(parts[4].as_str(), '0'),
                    fsck_order: order,
                },
            ),
        }
    }

    /// Wraps entries of this dialect as a table.
    pub fn get_struct(vector: Vec<LinuxFsEntry>) -> (r: FstabType)
        ensures
            r == FstabType::Linux(vector),
    {
        FstabType::Linux(vector)
    }

    /// Reads every line of `contents` that is no comment and stands for an
    /// entry of this dialect, and leaves the other lines out. Never fails.
    pub fn parse_entries(contents: &str) -> (r: Result<FstabType, FstabError>)
        ensures
            r matches Ok(FstabType::Linux(v)) && linux_records(v@) == LinuxRecord::decode_text(
                contents@,
            ),
    {
        let lines = split_text(contents, '\n');
        let mut found: Vec<LinuxFsEntry> = Vec::new();
        let mut i: usize = 0;
        while i < lines.len()
            invariant
                i <= lines.len(),
                linux_records(found@) == collect(
                    views(lines@).take(i as int),
                    LinuxRecord::reader(),
                ),
            decreases lines.len() - i,
        {
            assert(views(lines@).take(i + 1).drop_last() == views(lines@).take(i as int));
            assert(views(lines@).take(i + 1).last() == lines@[i as int]@);
            let parts = split_fields(lines[i].as_str());
            if !fields_are_comment(&parts) {
                match Self::from_fields(&parts) {
                    Ok(entry) => {
                        let ghost before = linux_records(found@);
                        found.push(entry);
                        assert(linux_records(found@) == before.push(entry@));
                    },
                    Err(_) => {},
                }
            }
            i += 1;
        }
        assert(views(lines@).take(lines@.len() as int) == views(lines@));
        Ok(Self::get_struct(found))
    }

    /// Writes this entry as one line.
    pub fn encode(&self) -> (r: String)
        ensures
            r@ == self@.encode(),
    {
        proof {
            reveal_strlit(" ");
            reveal_strlit("0");
            reveal_strlit("1");
            reveal_strlit("\n");
        }
        assert(" "@ == seq![' ']);
        assert("0"@ == seq!['0']);
        assert("1"@ == seq!['1']);
        assert("\n"@ == seq!['\n']);
        let mut out = String::new();
        out.append(self.fs_spec.as_str());
        out.append(" ");
        out.append(self.mountpoint.as_str());
        out.append(" ");
        out.append(self.vfs_type.as_str());
        out.append(" ");
        out.append(join_text(&self.mount_options, ",").as_str());
        out.append(" ");
        out.append(if self.dump { "1" } else { "0" });
        out.append(" ");
        out.append(decimal_text(self.fsck_order).as_str());
        out.append("\n");
        proof {
            reveal_strlit(",");
            assert(","@ == seq![',']);
            assert(out@ == self@.encode());
        }
        out
    }

    /// Writes the entries as the text of a table, one line each.
    pub fn save_fstab(entries: Vec<LinuxFsEntry>) -> (r: String)
        ensures
            r@ == LinuxRecord::encode_all(linux_records(entries@)),
    {
        let mut out = String::new();
        let mut i: usize = 0;
        while i < entries.len()
            invariant
                i <= entries.len(),
                out@ == write_all(linux_records(entries@).take(i as int), LinuxRecord::writer()),
            decreases entries.len() - i,
        {
            assert(linux_records(entries@).take(i + 1).drop_last() == linux_records(
                entries@,
            ).take(i as int));
            out.append(entries[i].encode().as_str());
            i += 1;
        }
        assert(linux_records(entries@).take(entries@.len() as int) == linux_records(entries@));
        out
    }
}

/// A line stands for an entry exactly if it has six fields, the sixth an
/// unsigned 16-bit integer; it is malformed exactly if it has another
/// number of fields.
pub proof fn lemma_decode_outcome(line: Seq<char>)
    ensures
        LinuxRecord::decode(fields(line)) is Ok <==> fields(line).len() == 6 && parse_u16(
            fields(line)[5],
        ) is Ok,
        LinuxRecord::decode(fields(line)) == Err::<LinuxRecord, FstabError>(
            FstabError::MalformedEntry,
        ) <==> fields(line).len() != 6,
{
}

/// The line of an entry that can stand in a line is made of the entry's
/// six fields, single spaces between them and a line feed; read as fields,
/// it gives those six.
pub proof fn lemma_fields_of_encoding(e: LinuxRecord)
    requires
        e.well_formed(),
    ensures
        forall|i: int| 0 <= i < 6 ==> is_field(#[trigger] e.to_fields()[i]),
        e.encode() == join(e.to_fields(), seq![' ']) + seq!['\n'],
        fields(e.encode()) == e.to_fields(),
        fields(e.encode().drop_last()) == e.to_fields(),
        all_chars(e.encode().drop_last(), |c: char| c != '\n'),
{
    let space = seq![' '];
    let f = e.to_fields();
    lemma_join_list(e.mount_options, ',');
    lemma_decimal_digits(e.fsck_order as nat);
    let number = decimal(e.fsck_order as nat);
    assert(is_field(number)) by {
        assert forall|i: int| 0 <= i < number.len() implies !is_whitespace(
            #[trigger] number[i],
        ) by {
            assert(is_digit(number[i]));
        }
    }
    assert(is_field(e.dump_digit()));
    let p1 = seq![f[0]];
    let p2 = p1.push(f[1]);
    let p3 = p2.push(f[2]);
    let p4 = p3.push(f[3]);
    let p5 = p4.push(f[4]);
    let p6 = p5.push(f[5]);
    lemma_join_push(p1, f[1], space);
    lemma_join_push(p2, f[2], space);
    lemma_join_push(p3, f[3], space);
    lemma_join_push(p4, f[4], space);
    lemma_join_push(p5, f[5], space);
    assert(p6 == f);
    assert(join(p1, space) == f[0]);
    lemma_fields_of_line(f);
    let body = join(f, space);
    assert((body + seq!['\n']).drop_last() == body);
    let plain = |c: char| c != '\n';
    assert forall|i: int| 0 <= i < f.len() implies all_chars(#[trigger] f[i], plain) by {
        assert(is_field(f[i]));
        assert forall|j: int| 0 <= j < f[i].len() implies plain(#[trigger] f[i][j]) by {
            assert(!is_whitespace(f[i][j]));
        }
    }
    assert(all_chars(space, plain));
    lemma_join_all(f, space, plain);
}

/// An entry that can stand in a line is read back from its line.
pub proof fn lemma_read_written(e: LinuxRecord)
    requires
        e.well_formed(),
    ensures
        LinuxRecord::decode(fields(e.encode())) == Ok::<LinuxRecord, FstabError>(e),
        LinuxRecord::decode(fields(e.encode().drop_last())) == Ok::<LinuxRecord, FstabError>(e),
{
    lemma_fields_of_encoding(e);
    lemma_join_list(e.mount_options, ',');
    lemma_parse_decimal(e.fsck_order);
    let f = e.to_fields();
    assert(f[4] != seq!['0'] <==> e.dump) by {
        assert(seq!['1'][0] != seq!['0'][0]);
    }
    assert(f.len() == 6);
}

/// The entry of a line can stand in a line, and its fields are those of
/// the line, with the dump flag as `0` or `1` and the check order in plain
/// decimal notation.
pub proof fn lemma_decoded_well_formed(line: Seq<char>)
    requires
        LinuxRecord::decode(fields(line)) is Ok,
    ensures
        ({
            let f = fields(line);
            let e = LinuxRecord::decode(f)->Ok_0;
            &&& e.well_formed()
            &&& e.to_fields() == seq![
                f[0],
                f[1],
                f[2],
                f[3],
                e.dump_digit(),
                decimal(e.fsck_order as nat),
            ]
        }),
{
    let f = fields(line);
    let e = LinuxRecord::decode(f)->Ok_0;
    lemma_fields_are_fields(line);
    assert(is_field(f[0]) && is_field(f[1]) && is_field(f[2]) && is_field(f[3]));
    lemma_split_list(f[3], ',');
    lemma_join_split(f[3], ',');
}

/// Writing the entry of a line gives a line with the same fields in the
/// same order (the dump flag as `0` or `1`, the check order in plain
/// decimal notation), and so a line of the same entry.
pub proof fn lemma_write_read(line: Seq<char>)
    requires
        LinuxRecord::decode(fields(line)) is Ok,
    ensures
        ({
            let f = fields(line);
            let e = LinuxRecord::decode(f)->Ok_0;
            &&& fields(e.encode()) == seq![
                f[0],
                f[1],
                f[2],
                f[3],
                e.dump_digit(),
                decimal(e.fsck_order as nat),
            ]
            &&& LinuxRecord::decode(fields(e.encode())) == Ok::<LinuxRecord, FstabError>(e)
        }),
{
    let e = LinuxRecord::decode(fields(line))->Ok_0;
    lemma_decoded_well_formed(line);
    lemma_fields_of_encoding(e);
    lemma_read_written(e);
}

/// Writing the entry of a line gives the very line, if the line is made of
/// its fields, single spaces between them and a line feed, its dump flag
/// is `0` or `1` and its check order is in plain decimal notation.
pub proof fn lemma_write_read_exact(line: Seq<char>)
    requires
        LinuxRecord::decode(fields(line)) is Ok,
        line == join(fields(line), seq![' ']) + seq!['\n'],
        fields(line)[4] == seq!['0'] || fields(line)[4] == seq!['1'],
        fields(line)[5] == decimal(parse_u16(fields(line)[5])->Ok_0 as nat),
    ensures
        LinuxRecord::decode(fields(line))->Ok_0.encode() == line,
{
    let f = fields(line);
    let e = LinuxRecord::decode(f)->Ok_0;
    lemma_decoded_well_formed(line);
    lemma_fields_of_encoding(e);
    assert(f[4] == e.dump_digit()) by {
        assert(seq!['1'][0] != seq!['0'][0]);
    }
    assert(e.to_fields() == f);
}

/// Every entry read from a text is the entry of one of its lines that is
/// no comment; it can stand in a table, so its device does not begin with
/// `#`.
pub proof fn lemma_entries_read(text: Seq<char>)
    ensures
        forall|i: int|
            0 <= i < LinuxRecord::decode_text(text).len() ==> {
                let e = #[trigger] LinuxRecord::decode_text(text)[i];
                &&& found_in(e, split(text, '\n'), LinuxRecord::reader())
                &&& e.storable()
            },
{
    let lines = split(text, '\n');
    let entries = LinuxRecord::decode_text(text);
    lemma_collect_sources(lines, LinuxRecord::reader());
    assert forall|i: int| 0 <= i < entries.len() implies {
        let e = #[trigger] entries[i];
        &&& found_in(e, lines, LinuxRecord::reader())
        &&& e.storable()
    } by {
        let e = entries[i];
        assert(found_in(e, lines, LinuxRecord::reader()));
        let k = choose|k: int|
            0 <= k < lines.len() && #[trigger] (LinuxRecord::reader())(lines[k]) == Some(e);
        assert(LinuxRecord::decode_line(lines[k]) == Some(e));
        lemma_decoded_well_formed(lines[k]);
    }
}

/// Entries that can stand in a table are read back, in their order, from
/// the text that they are written to, which has one line for each of them
/// and an empty one at its end.
pub proof fn lemma_table_read_written(entries: Seq<LinuxRecord>)
    requires
        forall|i: int| 0 <= i < entries.len() ==> (#[trigger] entries[i]).storable(),
    ensures
        LinuxRecord::decode_text(LinuxRecord::encode_all(entries)) == entries,
        split(LinuxRecord::encode_all(entries), '\n') == bodies(entries, LinuxRecord::writer()).push(
            Seq::<char>::empty(),
        ),
{
    assert(fields(Seq::<char>::empty()) == Seq::<Seq<char>>::empty());
    assert forall|i: int| 0 <= i < entries.len() implies reads_back(
        #[trigger] entries[i],
        LinuxRecord::reader(),
        LinuxRecord::writer(),
    ) by {
        let e = entries[i];
        assert(e.storable());
        lemma_fields_of_encoding(e);
        lemma_read_written(e);
        let line = e.encode();
        assert forall|j: int| 0 <= j < line.len() - 1 implies line[j] != '\n' by {
            assert(line[j] == line.drop_last()[j]);
            assert((|c: char| c != '\n')(line.drop_last()[j]));
        }
    }
    lemma_collect_written(entries, LinuxRecord::reader(), LinuxRecord::writer());
}

} // verus!
