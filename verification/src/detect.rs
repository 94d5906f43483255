//! Telling the dialect of a mount table from its first telling line.

use vstd::prelude::*;
use crate::text::{fields, has_prefix, split, split_fields, split_text, views};

verus! {

/// The three dialects of mount table.
#[derive(Clone, Copy, Debug, PartialEq, Eq, Structural)]
pub enum Dialect {
    /// Six fields: device, mount point, type, options, dump, check order.
    Linux,
    /// Three to five fields: mount point, type, device, then optionally a
    /// second device and flags.
    AndroidV1,
    /// Five fields: device, mount point, type, options, flags.
    AndroidV2,
}

/// The text `/dev/`.
pub open spec fn device_prefix() -> Seq<char> {
    seq!['/', 'd', 'e', 'v', '/']
}

/// Whether a line with these fields is a comment: its first character that
/// is no whitespace is `#`.
pub open spec fn is_comment(f: Seq<Seq<char>>) -> bool {
    f.len() > 0 && f[0].len() > 0 && f[0][0] == '#'
}

/// The dialect that a line with these fields speaks for, if any. A comment
/// speaks for none. Six fields speak for Linux; three to five, the first of
/// which does not begin with `/dev/`, for the first Android dialect; five
/// others for the second.
pub open spec fn classify(f: Seq<Seq<char>>) -> Option<Dialect> {
    if is_comment(f) {
        None
    } else if f.len() == 6 {
        Some(Dialect::Linux)
    } else if 3 <= f.len() <= 5 && !device_prefix().is_prefix_of(f[0]) {
        Some(Dialect::AndroidV1)
    } else if f.len() == 5 {
        Some(Dialect::AndroidV2)
    } else {
        None
    }
}

/// The dialect of the first of the lines that speaks for one.
pub open spec fn detect_lines(lines: Seq<Seq<char>>) -> Option<Dialect>
    decreases lines.len(),
{
    if lines.len() == 0 {
        None
    } else {
        match classify(fields(lines[0])) {
            Some(d) => Some(d),
            None => detect_lines(lines.drop_first()),
        }
    }
}

/// The dialect of a whole text.
pub open spec fn dialect_of(text: Seq<char>) -> Option<Dialect> {
    detect_lines(split(text, '\n'))
}

/// Tells whether a line with these fields is a comment.
pub fn fields_are_comment(f: &Vec<String>) -> (r: bool)
    ensures
        r == is_comment(views(f@)),
{
    f.len() > 0 && f[0].as_str().unicode_len() > 0 && f[0].as_str().get_char(0) == '#'
}

/// Tells the dialect that a line with these fields speaks for.
pub fn classify_fields(f: &Vec<String>) -> (r: Option<Dialect>)
    ensures
        r == classify(views(f@)),
{
    let n = f.len();
    if fields_are_comment(f) {
        None
    } else if n == 6 {
        Some(Dialect::Linux)
    } else if 3 <= n && n <= 5 && !device_at_start(f[0].as_str()) {
        Some(Dialect::AndroidV1)
    } else if n == 5 {
        Some(Dialect::AndroidV2)
    } else {
        None
    }
}

/// Tells whether `s` begins with `/dev/`.
fn device_at_start(s: &str) -> (r: bool)
    ensures
        r == device_prefix().is_prefix_of(s@),
{
    proof {
        reveal_strlit("/dev/");
    }
    assert("/dev/"@ == device_prefix());
    has_prefix(s, "/dev/")
}

/// Finds the dialect of `contents`: that of its first line, comments
/// aside, that has the shape of an entry.
pub fn detect(contents: &str) -> (r: Option<Dialect>)
    ensures
        r == dialect_of(contents@),
{
    let lines = split_text(contents, '\n');
    let mut i: usize = 0;
    assert(views(lines@).skip(0) == views(lines@));
    while i < lines.len()
        invariant
            i <= lines.len(),
            dialect_of(contents@) == detect_lines(views(lines@).skip(i as int)),
        decreases lines.len() - i,
    {
        let parts = split_fields(lines[i].as_str());
        let found = classify_fields(&parts);
        assert(views(lines@).skip(i as int)[0] == lines@[i as int]@);
        if found.is_some() {
            return found;
        }
        assert(views(lines@).skip(i as int).drop_first() == views(lines@).skip(i + 1));
        i += 1;
    }
    None
}

/// The dialect of a text is that of its first line that speaks for one,
/// whatever follows that line; and there is none exactly if no line speaks
/// for one.
pub proof fn lemma_detect_first(lines: Seq<Seq<char>>)
    ensures
        match detect_lines(lines) {
            Some(d) => exists|k: int|
                0 <= k < lines.len() && classify(fields(lines[k])) == Some(d) && forall|j: int|
                    0 <= j < k ==> classify(fields(#[trigger] lines[j])) is None,
            None => forall|j: int|
                0 <= j < lines.len() ==> classify(fields(#[trigger] lines[j])) is None,
        },
    decreases lines.len(),
{
    if lines.len() > 0 {
        let rest = lines.drop_first();
        match classify(fields(lines[0])) {
            Some(d) => {
                assert(classify(fields(lines[0])) == Some(d));
            },
            None => {
                lemma_detect_first(rest);
                match detect_lines(rest) {
                    Some(d) => {
                        let k = choose|k: int|
                            0 <= k < rest.len() && classify(fields(rest[k])) == Some(d)
                                && forall|j: int|
                                0 <= j < k ==> classify(fields(#[trigger] rest[j])) is None;
                        assert(rest[k] == lines[k + 1]);
                        assert forall|j: int| 0 <= j < k + 1 implies classify(
                            fields(#[trigger] lines[j]),
                        ) is None by {
                            if j > 0 {
                                assert(lines[j] == rest[j - 1]);
                            }
                        }
                        assert(classify(fields(lines[k + 1])) == Some(d));
                    },
                    None => {
                        assert forall|j: int| 0 <= j < lines.len() implies classify(
                            fields(#[trigger] lines[j]),
                        ) is None by {
                            if j > 0 {
                                assert(lines[j] == rest[j - 1]);
                            }
                        }
                    },
                }
            },
        }
    }
}

/// Two texts that hold the same characters have the same dialect.
pub proof fn lemma_detect_same_text(a: Seq<char>, b: Seq<char>)
    requires
        a =~= b,
    ensures
        dialect_of(a) == dialect_of(b),
{
}

} // verus!
