//! The first Android dialect: three to five fields to a line, the mount
//! point first.

use vstd::prelude::*;
use crate::detect::{fields_are_comment, is_comment};
use crate::error::FstabError;
use crate::lines::{
    bodies, collect, found_in, lemma_collect_sources, lemma_collect_written, reads_back, write_all,
};
use crate::table::FstabType;
use crate::text::{
    all_chars, ends_in_field, fields, has_prefix, is_field, is_list, is_whitespace, join,
    join_text, lemma_concat_all, lemma_fields_append, lemma_fields_are_fields,
    lemma_fields_of_line, lemma_fields_push_whitespace, lemma_join_all, lemma_join_list,
    lemma_join_push, lemma_join_split, lemma_split_list, split, split_fields, split_text,
    text_from, views,
};

verus! {

/// One entry of an Android mount table of the first dialect.
#[derive(Clone, Debug, PartialEq, Eq, Default)]
pub struct AndroidV1FsEntry {
    /// The device identifier
    pub fs_spec: String,
    /// The mount point
    pub mountpoint: String,
    /// Which filesystem type it is
    pub vfs_type: String,
    /// A second device identifier
    pub fs_spec2: Option<String>,
    /// The flags by which the Android mount manager goes
    pub fsmgr_flags: Option<Vec<String>>,
}

/// What an entry of the first Android dialect holds, as mathematical text.
pub struct AndroidV1Record {
    pub fs_spec: Seq<char>,
    pub mountpoint: Seq<char>,
    pub vfs_type: Seq<char>,
    pub fs_spec2: Option<Seq<char>>,
    pub fsmgr_flags: Option<Seq<Seq<char>>>,
}

impl View for AndroidV1FsEntry {
    type V = AndroidV1Record;

    open spec fn view(&self) -> AndroidV1Record {
        AndroidV1Record {
            fs_spec: self.fs_spec@,
            mountpoint: self.mountpoint@,
            vfs_type: self.vfs_type@,
            fs_spec2: match self.fs_spec2 {
                Some(s) => Some(s@),
                None => None,
            },
            fsmgr_flags: match self.fsmgr_flags {
                Some(v) => Some(views(v@)),
                None => None,
            },
        }
    }
}

/// The text `flags=`, which opens the field of flags.
pub open spec fn flags_prefix() -> Seq<char> {
    seq!['f', 'l', 'a', 'g', 's', '=']
}

/// Whether a field opens with `flags=`.
pub open spec fn is_flags_field(field: Seq<char>) -> bool {
    flags_prefix().is_prefix_of(field)
}

/// The flags that a field of flags names: the pieces, between semicolons, of
/// what follows `flags=`.
pub open spec fn flags_of(field: Seq<char>) -> Seq<Seq<char>> {
    split(field.skip(6), ';')
}

impl AndroidV1Record {
    /// The entry with the three leading fields of `f` and the given
    /// optional parts.
    pub open spec fn with(
        f: Seq<Seq<char>>,
        fs_spec2: Option<Seq<char>>,
        fsmgr_flags: Option<Seq<Seq<char>>>,
    ) -> AndroidV1Record {
        AndroidV1Record { fs_spec: f[2], mountpoint: f[0], vfs_type: f[1], fs_spec2, fsmgr_flags }
    }

    /// The entry that a line with the fields `f` stands for. The line must
    /// have three to five fields: mount point, type and device, then
    /// optionally a second device and a field of flags. A fourth field is
    /// the field of flags if it opens with `flags=`, else the second device.
    /// A fifth field must be a field of flags. A field of flags must name
    /// something after `flags=`.
    pub open spec fn decode(f: Seq<Seq<char>>) -> Result<AndroidV1Record, FstabError> {
        if f.len() < 3 || f.len() > 5 {
            Err(FstabError::MalformedEntry)
        } else if f.len() == 3 {
            Ok(Self::with(f, None, None))
        } else if f.len() == 4 {
            if !is_flags_field(f[3]) {
                Ok(Self::with(f, Some(f[3]), None))
            } else if f[3].len() == 6 {
                Err(FstabError::FlagsMissing)
            } else {
                Ok(Self::with(f, None, Some(flags_of(f[3]))))
            }
        } else {
            if !is_flags_field(f[4]) || f[4].len() == 6 {
                Err(FstabError::FlagsMissing)
            } else {
                Ok(Self::with(f, Some(f[3]), Some(flags_of(f[4]))))
            }
        }
    }

    /// The text of the second device: empty if there is none.
    pub open spec fn second_device_text(self) -> Seq<char> {
        match self.fs_spec2 {
            Some(s) => s,
            None => Seq::<char>::empty(),
        }
    }

    /// The field of flags: `flags=` and the flags with semicolons between
    /// them, or nothing if the entry has no flags.
    pub open spec fn flags_text(self) -> Seq<char> {
        match self.fsmgr_flags {
            Some(v) => flags_prefix() + join(v, seq![';']),
            None => Seq::<char>::empty(),
        }
    }

    /// The line for this entry: mount point, type, device, second device
    /// and field of flags with one space between each two, and a line feed
    /// at the end. A part that the entry lacks is written as nothing, but
    /// the spaces around it stay.
    pub open spec fn encode(self) -> Seq<char> {
        self.mountpoint + seq![' '] + self.vfs_type + seq![' '] + self.fs_spec + seq![' ']
            + self.second_device_text() + seq![' '] + self.flags_text() + seq!['\n']
    }

    /// The entry of one line of a table, if it has one: a comment has none,
    /// nor has a line that does not stand for an entry.
    pub open spec fn decode_line(line: Seq<char>) -> Option<AndroidV1Record> {
        let f = fields(line);
        if is_comment(f) {
            None
        } else {
            match Self::decode(f) {
                Ok(e) => Some(e),
                Err(_) => None,
            }
        }
    }

    /// What reads a line of a table.
    pub open spec fn reader() -> spec_fn(Seq<char>) -> Option<AndroidV1Record> {
        |line: Seq<char>| Self::decode_line(line)
    }

    /// What writes the line of an entry.
    pub open spec fn writer() -> spec_fn(AndroidV1Record) -> Seq<char> {
        |e: AndroidV1Record| e.encode()
    }

    /// The entries of a whole text: of each of its lines, in order, the
    /// entry that the line has, if it has one.
    pub open spec fn decode_text(text: Seq<char>) -> Seq<AndroidV1Record> {
        collect(split(text, '\n'), Self::reader())
    }

    /// The lines of the entries, one after the other.
    pub open spec fn encode_all(entries: Seq<AndroidV1Record>) -> Seq<char> {
        write_all(entries, Self::writer())
    }

    /// The three fields that every line has: mount point, type and device.
    pub open spec fn leading_fields(self) -> Seq<Seq<char>> {
        seq![self.mountpoint, self.vfs_type, self.fs_spec]
    }

    /// The fields of the line for this entry: the three leading ones, then
    /// the second device and the field of flags as far as the entry has
    /// them.
    pub open spec fn to_fields(self) -> Seq<Seq<char>> {
        let with_second = match self.fs_spec2 {
            Some(s) => self.leading_fields().push(s),
            None => self.leading_fields(),
        };
        match self.fsmgr_flags {
            Some(_) => with_second.push(self.flags_text()),
            None => with_second,
        }
    }

    /// Whether the entry can stand in a line: mount point, type and device
    /// are fields; so is the second device, which, where the entry has no
    /// flags, does not open with `flags=`; and the flags are a list.
    pub open spec fn well_formed(self) -> bool {
        &&& is_field(self.mountpoint)
        &&& is_field(self.vfs_type)
        &&& is_field(self.fs_spec)
        &&& match self.fs_spec2 {
            Some(s) => is_field(s) && (self.fsmgr_flags is None ==> !is_flags_field(s)),
            None => true,
        }
        &&& match self.fsmgr_flags {
            Some(v) => is_list(v, ';'),
            None => true,
        }
    }

    /// Whether the entry can stand in a table: it can stand in a line, and
    /// that line is no comment.
    pub open spec fn storable(self) -> bool {
        self.well_formed() && self.mountpoint[0] != '#'
    }
}

/// What a sequence of entries holds.
pub open spec fn android_v1_records(v: Seq<AndroidV1FsEntry>) -> Seq<AndroidV1Record> {
    Seq::new(v.len(), |i: int| v[i]@)
}

/// What the result of reading a line holds.
pub open spec fn android_v1_outcome(r: Result<AndroidV1FsEntry, FstabError>) -> Result<
    AndroidV1Record,
    FstabError,
> {
    match r {
        Ok(e) => Ok(e@),
        Err(x) => Err(x),
    }
}

/// Tells whether a field opens with `flags=`.
fn opens_with_flags(field: &str) -> (r: bool)
    ensures
        r == is_flags_field(field@),
{
    proof {
        reveal_strlit("flags=");
    }
    assert("flags="@ == flags_prefix());
    has_prefix(field, "flags=")
}

/// Reads the flags that a field of flags names, if it names any.
fn read_flags(field: &str) -> (r: Option<Vec<String>>)
    requires
        is_flags_field(field@),
    ensures
        field@.len() == 6 ==> r is None,
        field@.len() != 6 ==> (r matches Some(v) && views(v@) == flags_of(field@)),
{
    if field.unicode_len() == 6 {
        None
    } else {
        let named = text_from(field, 6);
        Some(split_text(named.as_str(), ';'))
    }
}

impl AndroidV1FsEntry {
    /// Reads one line. Fails with `MalformedEntry` unless the line has
    /// three to five fields, and with `FlagsMissing` if a fourth field is
    /// `flags=` alone or a fifth field is not `flags=` and more.
    pub fn parse_entry(contents: &str) -> (r: Result<AndroidV1FsEntry, FstabError>)
        ensures
            android_v1_outcome(r) == AndroidV1Record::decode(fields(contents@)),
    {
        let parts = split_fields(contents);
        Self::from_fields(&parts)
    }

    /// Builds the entry of a line from the line's fields.
    pub fn from_fields(parts: &Vec<String>) -> (r: Result<AndroidV1FsEntry, FstabError>)
        ensures
            android_v1_outcome(r) == AndroidV1Record::decode(views(parts@)),
    {
        let n = parts.len();
        if n < 3 || n > 5 {
            return Err(FstabError::MalformedEntry);
        }
        let mut fs_spec2: Option<String> = None;
        let mut fsmgr_flags: Option<Vec<String>> = None;
        if n == 4 {
            if opens_with_flags(parts[3].as_str()) {
                fsmgr_flags = read_flags(parts[3].as_str());
                if fsmgr_flags.is_none() {
                    return Err(FstabError::FlagsMissing);
                }
            } else {
                fs_spec2 = Some(parts[3].clone());
            }
        } else if n == 5 {
            if !opens_with_flags(parts[4].as_str()) {
                return Err(FstabError::FlagsMissing);
            }
            fsmgr_flags = read_flags(parts[4].as_str());
            if fsmgr_flags.is_none() {
                return Err(FstabError::FlagsMissing);
            }
            fs_spec2 = Some(parts[3].clone());
        }
        Ok(
            AndroidV1FsEntry {
                fs_spec: parts[2].clone(),
                mountpoint: parts[0].clone(),
                vfs_type: parts[1].clone(),
                fs_spec2,
                fsmgr_flags,
            },
        )
    }

    /// Wraps entries of this dialect as a table.
    pub fn get_struct(vector: Vec<AndroidV1FsEntry>) -> (r: FstabType)
        ensures
            r == FstabType::AndroidV1(vector),
    {
        FstabType::AndroidV1(vector)
    }

    /// Reads every line of `contents` that is no comment and stands for an
    /// entry of this dialect, and leaves the other lines out. Never fails.
    pub fn parse_entries(contents: &str) -> (r: Result<FstabType, FstabError>)
        ensures
            r matches Ok(FstabType::AndroidV1(v)) && android_v1_records(v@)
                == AndroidV1Record::decode_text(contents@),
    {
        let lines = split_text(contents, '\n');
        let mut found: Vec<AndroidV1FsEntry> = Vec::new();
        let mut i: usize = 0;
        while i < lines.len()
            invariant
                i <= lines.len(),
                android_v1_records(found@) == collect(
                    views(lines@).take(i as int),
                    AndroidV1Record::reader(),
                ),
            decreases lines.len() - i,
        {
            assert(views(lines@).take(i + 1).drop_last() == views(lines@).take(i as int));
            assert(views(lines@).take(i + 1).last() == lines@[i as int]@);
            let parts = split_fields(lines[i].as_str());
            if !fields_are_comment(&parts) {
                match Self::from_fields(&parts) {
                    Ok(entry) => {
                        let ghost before = android_v1_records(found@);
                        found.push(entry);
                        assert(android_v1_records(found@) == before.push(entry@));
                    },
                    Err(_) => {},
                }
            }
            i += 1;
        }
        assert(views(lines@).take(lines@.len() as int) == views(lines@));
        Ok(Self::get_struct(found))
    }

    /// Writes this entry as one line.
    pub fn encode(&self) -> (r: String)
        ensures
            r@ == self@.encode(),
    {
        proof {
            reveal_strlit(" ");
            reveal_strlit(";");
            reveal_strlit("\n");
            reveal_strlit("flags=");
        }
        assert(" "@ == seq![' ']);
        assert(";"@ == seq![';']);
        assert("\n"@ == seq!['\n']);
        assert("flags="@ == flags_prefix());
        let mut out = String::new();
        out.append(self.mountpoint.as_str());
        out.append(" ");
        out.append(self.vfs_type.as_str());
        out.append(" ");
        out.append(self.fs_spec.as_str());
        out.append(" ");
        let ghost head = out@;
        match &self.fs_spec2 {
            Some(second) => {
                out.append(second.as_str());
            },
            None => {},
        }
        assert(out@ == head + self@.second_device_text());
        out.append(" ");
        let ghost middle = out@;
        match &self.fsmgr_flags {
            Some(flags) => {
                out.append("flags=");
                out.append(join_text(flags, ";").as_str());
            },
            None => {},
        }
        assert(out@ == middle + self@.flags_text());
        out.append("\n");
        assert(out@ == self@.encode());
        out
    }

    /// Writes the entries as the text of a table, one line each.
    pub fn save_fstab(entries: Vec<AndroidV1FsEntry>) -> (r: String)
        ensures
            r@ == AndroidV1Record::encode_all(android_v1_records(entries@)),
    {
        let mut out = String::new();
        let mut i: usize = 0;
        while i < entries.len()
            invariant
                i <= entries.len(),
                out@ == write_all(
                    android_v1_records(entries@).take(i as int),
                    AndroidV1Record::writer(),
                ),
            decreases entries.len() - i,
        {
            assert(android_v1_records(entries@).take(i + 1).drop_last() == android_v1_records(
                entries@,
            ).take(i as int));
            out.append(entries[i].encode().as_str());
            i += 1;
        }
        assert(android_v1_records(entries@).take(entries@.len() as int) == android_v1_records(
            entries@,
        ));
        out
    }
}

/// A line is malformed exactly if it has fewer than three or more than
/// five fields. It lacks its flags exactly if it has four fields, the
/// fourth being `flags=` alone, or five, the fifth not being `flags=` and
/// more. Every other line stands for an entry.
pub proof fn lemma_decode_outcome(line: Seq<char>)
    ensures
        ({
            let f = fields(line);
            let r = AndroidV1Record::decode(f);
            &&& r == Err::<AndroidV1Record, FstabError>(FstabError::MalformedEntry) <==> f.len()
                < 3 || f.len() > 5
            &&& r == Err::<AndroidV1Record, FstabError>(FstabError::FlagsMissing) <==> (f.len()
                == 4 && f[3] == flags_prefix()) || (f.len() == 5 && (!is_flags_field(f[4]) || f[4]
                == flags_prefix()))
            &&& r is Ok <==> f.len() == 3 || (f.len() == 4 && f[3] != flags_prefix()) || (f.len()
                == 5 && is_flags_field(f[4]) && f[4] != flags_prefix())
        }),
{
    let f = fields(line);
    assert(flags_prefix().len() == 6);
    if f.len() == 4 {
        lemma_bare_flags(f[3]);
    }
    if f.len() == 5 {
        lemma_bare_flags(f[4]);
    }
}

/// A field that opens with `flags=` names nothing exactly if it is
/// `flags=` alone.
pub proof fn lemma_bare_flags(field: Seq<char>)
    ensures
        field == flags_prefix() <==> is_flags_field(field) && field.len() == 6,
        field == flags_prefix() ==> is_flags_field(field),
{
    assert(flags_prefix().len() == 6);
    if is_flags_field(field) && field.len() == 6 {
        assert(field.subrange(0, 6) == field);
    }
    if field == flags_prefix() {
        assert(field.subrange(0, 6) == field);
    }
}

/// The field of flags of an entry with a list of flags is a field that
/// opens with `flags=` and names those flags.
pub proof fn lemma_flags_text(e: AndroidV1Record)
    requires
        e.fsmgr_flags matches Some(v) && is_list(v, ';'),
    ensures
        is_field(e.flags_text()),
        is_flags_field(e.flags_text()),
        e.flags_text().len() > 6,
        flags_of(e.flags_text()) == e.fsmgr_flags->Some_0,
{
    let v = e.fsmgr_flags->Some_0;
    let named = join(v, seq![';']);
    let whole = e.flags_text();
    lemma_join_list(v, ';');
    assert(flags_prefix().len() == 6);
    assert(whole.subrange(0, 6) == flags_prefix());
    assert(whole.skip(6) == named);
    assert forall|i: int| 0 <= i < whole.len() implies !is_whitespace(#[trigger] whole[i]) by {
        if i < 6 {
            assert(whole[i] == flags_prefix()[i]);
        } else {
            assert(whole[i] == named[i - 6]);
        }
    }
}

/// The line of an entry that can stand in a line, read as fields, gives
/// the entry's fields: the parts that the entry lacks leave nothing but
/// spaces in the line.
pub proof fn lemma_fields_of_encoding(e: AndroidV1Record)
    requires
        e.well_formed(),
    ensures
        forall|i: int| 0 <= i < e.to_fields().len() ==> is_field(#[trigger] e.to_fields()[i]),
        fields(e.encode()) == e.to_fields(),
        fields(e.encode().drop_last()) == e.to_fields(),
        all_chars(e.encode().drop_last(), |c: char| c != '\n'),
{
    let space = seq![' '];
    let plain = |c: char| c != '\n';
    let lead = e.leading_fields();
    let p1 = seq![lead[0]];
    let p2 = p1.push(lead[1]);
    lemma_join_push(p1, lead[1], space);
    lemma_join_push(p2, lead[2], space);
    assert(p2.push(lead[2]) == lead);
    assert(join(p1, space) == lead[0]);
    let a0 = join(lead, space);
    assert(a0 == e.mountpoint + space + e.vfs_type + space + e.fs_spec);
    lemma_fields_of_line(lead);
    assert forall|i: int| 0 <= i < lead.len() implies all_chars(#[trigger] lead[i], plain) by {
        assert(is_field(lead[i]));
        assert forall|j: int| 0 <= j < lead[i].len() implies plain(#[trigger] lead[i][j]) by {
            assert(!is_whitespace(lead[i][j]));
        }
    }
    assert(all_chars(space, plain));
    lemma_join_all(lead, space, plain);
    let a1 = a0 + space;
    assert(a1 == a0.push(' '));
    lemma_fields_push_whitespace(a0, ' ');
    lemma_concat_all(a0, space, plain);
    let second = e.second_device_text();
    let a2 = a1 + second;
    match e.fs_spec2 {
        Some(s) => {
            lemma_fields_append(a1, s);
            assert forall|j: int| 0 <= j < s.len() implies plain(#[trigger] s[j]) by {
                assert(!is_whitespace(s[j]));
            }
        },
        None => {
            assert(a2 == a1);
        },
    }
    lemma_concat_all(a1, second, plain);
    let a3 = a2 + space;
    assert(a3 == a2.push(' '));
    lemma_fields_push_whitespace(a2, ' ');
    lemma_concat_all(a2, space, plain);
    let flags = e.flags_text();
    let a4 = a3 + flags;
    match e.fsmgr_flags {
        Some(v) => {
            lemma_flags_text(e);
            lemma_fields_append(a3, flags);
            assert forall|j: int| 0 <= j < flags.len() implies plain(#[trigger] flags[j]) by {
                assert(!is_whitespace(flags[j]));
            }
        },
        None => {
            assert(a4 == a3);
        },
    }
    lemma_concat_all(a3, flags, plain);
    assert(fields(a4) == e.to_fields());
    assert(e.encode() == a4 + seq!['\n']);
    assert(a4 + seq!['\n'] == a4.push('\n'));
    assert(a4.push('\n').drop_last() == a4);
    lemma_fields_push_whitespace(a4, '\n');
}

/// An entry that can stand in a line is read back from its line.
pub proof fn lemma_read_written(e: AndroidV1Record)
    requires
        e.well_formed(),
    ensures
        AndroidV1Record::decode(fields(e.encode())) == Ok::<AndroidV1Record, FstabError>(e),
        AndroidV1Record::decode(fields(e.encode().drop_last())) == Ok::<
            AndroidV1Record,
            FstabError,
        >(e),
{
    lemma_fields_of_encoding(e);
    if e.fsmgr_flags is Some {
        lemma_flags_text(e);
    }
    let f = e.to_fields();
    assert(AndroidV1Record::decode(f) == Ok::<AndroidV1Record, FstabError>(e));
}

/// The entry of a line can stand in a line, and its fields are those of
/// the line.
pub proof fn lemma_decoded_well_formed(line: Seq<char>)
    requires
        AndroidV1Record::decode(fields(line)) is Ok,
    ensures
        AndroidV1Record::decode(fields(line))->Ok_0.well_formed(),
        AndroidV1Record::decode(fields(line))->Ok_0.to_fields() == fields(line),
{
    let f = fields(line);
    let e = AndroidV1Record::decode(f)->Ok_0;
    lemma_fields_are_fields(line);
    assert(is_field(f[0]) && is_field(f[1]) && is_field(f[2]));
    assert(flags_prefix().len() == 6);
    if f.len() >= 4 {
        assert(is_field(f[3]));
    }
    if e.fsmgr_flags is Some {
        let field = f[f.len() - 1];
        assert(is_field(field));
        assert(is_flags_field(field) && field.len() > 6);
        let named = field.skip(6);
        assert forall|i: int| 0 <= i < named.len() implies !is_whitespace(#[trigger] named[i]) by {
            assert(named[i] == field[i + 6]);
        }
        lemma_split_list(named, ';');
        lemma_join_split(named, ';');
        assert(field.subrange(0, 6) == flags_prefix());
        assert(flags_prefix() + named == field);
        assert(e.flags_text() == field);
    }
    assert(e.to_fields() == f);
}

/// Writing the entry of a line gives a line with the same fields in the
/// same order, and so a line of the same entry.
pub proof fn lemma_write_read(line: Seq<char>)
    requires
        AndroidV1Record::decode(fields(line)) is Ok,
    ensures
        ({
            let e = AndroidV1Record::decode(fields(line))->Ok_0;
            &&& fields(e.encode()) == fields(line)
            &&& AndroidV1Record::decode(fields(e.encode())) == Ok::<AndroidV1Record, FstabError>(
                e,
            )
        }),
{
    let e = AndroidV1Record::decode(fields(line))->Ok_0;
    lemma_decoded_well_formed(line);
    lemma_fields_of_encoding(e);
    lemma_read_written(e);
}

/// What writing the entry of a line gives, by the fields of the line. With
/// five fields it is the fields with single spaces between them and a line
/// feed. With fewer, a part that is lacking is written as nothing between
/// its spaces: two spaces before the flags where the second device is
/// lacking, a space before the line feed where the flags are, and both
/// where there are three fields only.
pub proof fn lemma_written_layout(line: Seq<char>)
    requires
        AndroidV1Record::decode(fields(line)) is Ok,
    ensures
        ({
            let f = fields(line);
            let e = AndroidV1Record::decode(f)->Ok_0;
            let lead = join(seq![f[0], f[1], f[2]], seq![' ']);
            &&& f.len() == 5 ==> e.encode() == join(f, seq![' ']) + seq!['\n']
            &&& f.len() == 4 && e.fsmgr_flags is None ==> e.encode() == join(f, seq![' '])
                + seq![' ', '\n']
            &&& f.len() == 4 && e.fsmgr_flags is Some ==> e.encode() == lead + seq![' ', ' ']
                + f[3] + seq!['\n']
            &&& f.len() == 3 ==> e.encode() == join(f, seq![' ']) + seq![' ', ' ', '\n']
        }),
{
    let space = seq![' '];
    let f = fields(line);
    let e = AndroidV1Record::decode(f)->Ok_0;
    lemma_decoded_well_formed(line);
    let p1 = seq![f[0]];
    let p2 = p1.push(f[1]);
    let p3 = p2.push(f[2]);
    lemma_join_push(p1, f[1], space);
    lemma_join_push(p2, f[2], space);
    assert(join(p1, space) == f[0]);
    assert(p3 == seq![f[0], f[1], f[2]]);
    let lead = join(p3, space);
    let nothing = Seq::<char>::empty();
    if f.len() == 3 {
        assert(p3 == f);
        assert(e.encode() == lead + space + nothing + space + nothing + seq!['\n']);
        assert(lead + space + nothing + space + nothing + seq!['\n'] == lead + seq![
            ' ',
            ' ',
            '\n',
        ]);
    } else if f.len() == 4 {
        let p4 = p3.push(f[3]);
        lemma_join_push(p3, f[3], space);
        assert(p4 == f);
        if e.fsmgr_flags is None {
            assert(e.encode() == lead + space + f[3] + space + nothing + seq!['\n']);
            assert(lead + space + f[3] + space + nothing + seq!['\n'] == lead + space + f[3]
                + seq![' ', '\n']);
        } else {
            assert(e.flags_text() == f[3]);
            assert(e.encode() == lead + space + nothing + space + f[3] + seq!['\n']);
            assert(lead + space + nothing + space + f[3] + seq!['\n'] == lead + seq![' ', ' ']
                + f[3] + seq!['\n']);
        }
    } else {
        let p4 = p3.push(f[3]);
        let p5 = p4.push(f[4]);
        lemma_join_push(p3, f[3], space);
        lemma_join_push(p4, f[4], space);
        assert(p5 == f);
        assert(e.flags_text() == f[4]);
    }
}

/// Every entry read from a text is the entry of one of its lines that is
/// no comment; it can stand in a table, so its mount point does not begin
/// with `#`.
pub proof fn lemma_entries_read(text: Seq<char>)
    ensures
        forall|i: int|
            0 <= i < AndroidV1Record::decode_text(text).len() ==> {
                let e = #[trigger] AndroidV1Record::decode_text(text)[i];
                &&& found_in(e, split(text, '\n'), AndroidV1Record::reader())
                &&& e.storable()
            },
{
    let lines = split(text, '\n');
    let entries = AndroidV1Record::decode_text(text);
    lemma_collect_sources(lines, AndroidV1Record::reader());
    assert forall|i: int| 0 <= i < entries.len() implies {
        let e = #[trigger] entries[i];
        &&& found_in(e, lines, AndroidV1Record::reader())
        &&& e.storable()
    } by {
        let e = entries[i];
        assert(found_in(e, lines, AndroidV1Record::reader()));
        let k = choose|k: int|
            0 <= k < lines.len() && #[trigger] (AndroidV1Record::reader())(lines[k]) == Some(e);
        assert(AndroidV1Record::decode_line(lines[k]) == Some(e));
        lemma_decoded_well_formed(lines[k]);
    }
}

/// Entries that can stand in a table are read back, in their order, from
/// the text that they are written to, which has one line for each of them
/// and an empty one at its end.
pub proof fn lemma_table_read_written(entries: Seq<AndroidV1Record>)
    requires
        forall|i: int| 0 <= i < entries.len() ==> (#[trigger] entries[i]).storable(),
    ensures
        AndroidV1Record::decode_text(AndroidV1Record::encode_all(entries)) == entries,
        split(AndroidV1Record::encode_all(entries), '\n') == bodies(entries, AndroidV1Record::writer()).push(
            Seq::<char>::empty(),
        ),
{
    assert(fields(Seq::<char>::empty()) == Seq::<Seq<char>>::empty());
    assert forall|i: int| 0 <= i < entries.len() implies reads_back(
        #[trigger] entries[i],
        AndroidV1Record::reader(),
        AndroidV1Record::writer(),
    ) by {
        let e = entries[i];
        assert(e.storable());
        lemma_fields_of_encoding(e);
        lemma_read_written(e);
        let line = e.encode();
        assert forall|j: int| 0 <= j < line.len() - 1 implies line[j] != '\n' by {
            assert(line[j] == line.drop_last()[j]);
            assert((|c: char| c != '\n')(line.drop_last()[j]));
        }
    }
    lemma_collect_written(entries, AndroidV1Record::reader(), AndroidV1Record::writer());
}

} // verus!
