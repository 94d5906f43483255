//! The lines of a table: reading an entry from each, writing one for each.

use vstd::prelude::*;
use crate::text::{lemma_split_append, lemma_split_len, split};

verus! {

/// Of each line, in order, what `read` finds in it, if it finds anything.
pub open spec fn collect<T>(lines: Seq<Seq<char>>, read: spec_fn(Seq<char>) -> Option<T>) -> Seq<T>
    decreases lines.len(),
{
    if lines.len() == 0 {
        Seq::<T>::empty()
    } else {
        let before = collect(lines.drop_last(), read);
        match read(lines.last()) {
            Some(e) => before.push(e),
            None => before,
        }
    }
}

/// The texts that `write` gives for the entries, one after the other.
pub open spec fn write_all<T>(entries: Seq<T>, write: spec_fn(T) -> Seq<char>) -> Seq<char>
    decreases entries.len(),
{
    if entries.len() == 0 {
        Seq::<char>::empty()
    } else {
        write_all(entries.drop_last(), write) + write(entries.last())
    }
}

/// Whether `write` gives for `e` one line, closed by a line feed, in which
/// `read` finds `e` again.
pub open spec fn reads_back<T>(
    e: T,
    read: spec_fn(Seq<char>) -> Option<T>,
    write: spec_fn(T) -> Seq<char>,
) -> bool {
    let line = write(e);
    &&& line.len() > 0
    &&& line.last() == '\n'
    &&& forall|j: int| 0 <= j < line.len() - 1 ==> line[j] != '\n'
    &&& read(line.drop_last()) == Some(e)
}

/// The lines that `write` gives for the entries, each without the line
/// feed that closes it.
pub open spec fn bodies<T>(entries: Seq<T>, write: spec_fn(T) -> Seq<char>) -> Seq<Seq<char>> {
    Seq::new(entries.len(), |i: int| write(entries[i]).drop_last())
}

/// Whether `read` finds `e` in one of the lines.
pub open spec fn found_in<T>(
    e: T,
    lines: Seq<Seq<char>>,
    read: spec_fn(Seq<char>) -> Option<T>,
) -> bool {
    exists|k: int| 0 <= k < lines.len() && #[trigger] read(lines[k]) == Some(e)
}

/// Everything that was collected was found in one of the lines.
pub proof fn lemma_collect_sources<T>(lines: Seq<Seq<char>>, read: spec_fn(Seq<char>) -> Option<T>)
    ensures
        forall|i: int|
            0 <= i < collect(lines, read).len() ==> found_in(
                #[trigger] collect(lines, read)[i],
                lines,
                read,
            ),
    decreases lines.len(),
{
    if lines.len() > 0 {
        let init = lines.drop_last();
        lemma_collect_sources(init, read);
        let before = collect(init, read);
        let after = collect(lines, read);
        assert forall|i: int| 0 <= i < after.len() implies found_in(
            #[trigger] after[i],
            lines,
            read,
        ) by {
            if i < before.len() {
                assert(after[i] == before[i]);
                assert(found_in(before[i], init, read));
                let k = choose|k: int|
                    0 <= k < init.len() && #[trigger] read(init[k]) == Some(before[i]);
                assert(init[k] == lines[k]);
                assert(read(lines[k]) == Some(after[i]));
            } else {
                assert(read(lines[lines.len() - 1]) == Some(after[i]));
            }
        }
    }
}

/// Entries that are written one line each, and read from the lines of that
/// text, come back as they were, if each of them reads back from its own
/// line and nothing is read from an empty line.
pub proof fn lemma_collect_written<T>(
    entries: Seq<T>,
    read: spec_fn(Seq<char>) -> Option<T>,
    write: spec_fn(T) -> Seq<char>,
)
    requires
        read(Seq::<char>::empty()) is None,
        forall|i: int| 0 <= i < entries.len() ==> reads_back(#[trigger] entries[i], read, write),
    ensures
        split(write_all(entries, write), '\n') == bodies(entries, write).push(
            Seq::<char>::empty(),
        ),
        collect(split(write_all(entries, write), '\n'), read) == entries,
        collect(split(write_all(entries, write), '\n').drop_last(), read) == entries,
    decreases entries.len(),
{
    if entries.len() == 0 {
        let lines = split(write_all(entries, write), '\n');
        assert(lines.drop_last() == Seq::<Seq<char>>::empty());
        assert(collect(lines.drop_last(), read) == entries);
    } else {
        let init = entries.drop_last();
        let e = entries.last();
        assert forall|i: int| 0 <= i < init.len() implies reads_back(
            #[trigger] init[i],
            read,
            write,
        ) by {
            assert(init[i] == entries[i]);
        }
        lemma_collect_written(init, read, write);
        assert(reads_back(entries[entries.len() - 1], read, write));
        let head = write_all(init, write);
        let line = write(e);
        let body = line.drop_last();
        assert(line == body.push('\n'));
        assert(head + line == (head + body).push('\n'));
        assert forall|j: int| 0 <= j < body.len() implies body[j] != '\n' by {
            assert(body[j] == line[j]);
        }
        lemma_split_append(head, body, '\n');
        let old_lines = split(head, '\n');
        let mid_lines = split(head + body, '\n');
        assert(old_lines.last() + body == body);
        assert(mid_lines == old_lines.drop_last().push(body));
        assert((head + body).push('\n').drop_last() == head + body);
        let new_lines = split(head + line, '\n');
        assert(new_lines == mid_lines.push(Seq::<char>::empty()));
        assert(new_lines.drop_last() == mid_lines);
        assert(old_lines.drop_last() == bodies(init, write));
        assert(bodies(init, write).push(body) == bodies(entries, write));
        assert(mid_lines.drop_last() == old_lines.drop_last());
        assert(collect(mid_lines, read) == init.push(e));
        assert(init.push(e) == entries);
    }
}

} // verus!
