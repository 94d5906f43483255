//! Text primitives: whitespace, splitting into fields and pieces, joining.

use vstd::prelude::*;

verus! {

/// Appends one character to `s`.
///
/// Calls `String::push`; the contract states that the text grows by exactly
/// that character at its end, which is not proved here.
#[verifier::external_body]
pub(crate) fn push_char(s: &mut String, c: char)
    ensures
        final(s)@ == old(s)@.push(c),
{
    s.push(c);
}

/// The characters that Unicode counts as white space (`White_Space`).
pub open spec fn is_whitespace(c: char) -> bool {
    let n = c as u32;
    ||| 0x09 <= n <= 0x0D
    ||| n == 0x20
    ||| n == 0x85
    ||| n == 0xA0
    ||| n == 0x1680
    ||| 0x2000 <= n <= 0x200A
    ||| n == 0x2028
    ||| n == 0x2029
    ||| n == 0x202F
    ||| n == 0x205F
    ||| n == 0x3000
}

/// Tells whether `c` separates fields.
#[verifier::when_used_as_spec(is_whitespace)]
pub fn char_is_whitespace(c: char) -> (r: bool)
    ensures
        r == is_whitespace(c),
{
    let n: u32 = c as u32;
    (0x09 <= n && n <= 0x0D) || n == 0x20 || n == 0x85 || n == 0xA0 || n == 0x1680 || (0x2000 <= n
        && n <= 0x200A) || n == 0x2028 || n == 0x2029 || n == 0x202F || n == 0x205F || n == 0x3000
}

/// The pieces of `s` between the occurrences of `sep`: one more piece than
/// there are occurrences, empty pieces included.
pub open spec fn split(s: Seq<char>, sep: char) -> Seq<Seq<char>>
    decreases s.len(),
{
    if s.len() == 0 {
        seq![Seq::<char>::empty()]
    } else {
        let before = split(s.drop_last(), sep);
        if s.last() == sep {
            before.push(Seq::<char>::empty())
        } else {
            before.drop_last().push(before.last().push(s.last()))
        }
    }
}

/// The parts in order, with `sep` between each two neighbours.
pub open spec fn join(parts: Seq<Seq<char>>, sep: Seq<char>) -> Seq<char>
    decreases parts.len(),
{
    if parts.len() == 0 {
        Seq::<char>::empty()
    } else if parts.len() == 1 {
        parts[0]
    } else {
        join(parts.drop_last(), sep) + sep + parts.last()
    }
}

/// Whether `s` ends inside a field, that is, with a character that is no
/// whitespace.
pub open spec fn ends_in_field(s: Seq<char>) -> bool {
    s.len() > 0 && !is_whitespace(s.last())
}

/// The fields of `s`: its maximal runs of characters that are not
/// whitespace, in order.
pub open spec fn fields(s: Seq<char>) -> Seq<Seq<char>>
    decreases s.len(),
{
    if s.len() == 0 {
        Seq::<Seq<char>>::empty()
    } else {
        let before = fields(s.drop_last());
        if is_whitespace(s.last()) {
            before
        } else if ends_in_field(s.drop_last()) {
            before.drop_last().push(before.last().push(s.last()))
        } else {
            before.push(seq![s.last()])
        }
    }
}

/// Whether `s` is a possible field: not empty and free of whitespace.
pub open spec fn is_field(s: Seq<char>) -> bool {
    s.len() > 0 && forall|i: int| 0 <= i < s.len() ==> !is_whitespace(#[trigger] s[i])
}

/// Whether every character of `s` meets `p`.
pub open spec fn all_chars(s: Seq<char>, p: spec_fn(char) -> bool) -> bool {
    forall|i: int| 0 <= i < s.len() ==> p(#[trigger] s[i])
}

/// Whether `parts` can stand in one field with `sep` between them and be
/// told apart again: there is a part, the parts hold neither `sep` nor
/// whitespace, and a single part is not empty.
pub open spec fn is_list(parts: Seq<Seq<char>>, sep: char) -> bool {
    &&& parts.len() >= 1
    &&& parts.len() > 1 || parts[0].len() > 0
    &&& forall|i: int|
        0 <= i < parts.len() ==> all_chars(
            #[trigger] parts[i],
            |c: char| c != sep && !is_whitespace(c),
        )
}

/// The texts of a sequence of strings.
pub open spec fn views(v: Seq<String>) -> Seq<Seq<char>> {
    Seq::new(v.len(), |i: int| v[i]@)
}

/// Splits `s` at each `sep`.
pub fn split_text(s: &str, sep: char) -> (r: Vec<String>)
    ensures
        views(r@) == split(s@, sep),
{
    let mut done: Vec<String> = Vec::new();
    let mut piece = String::new();
    for c in it: s.chars()
        invariant
            it.seq() == s@,
            views(done@).push(piece@) == split(s@.take(it.index() as int), sep),
    {
        assert(s@.take(it.index() + 1).drop_last() == s@.take(it.index() as int));
        if c == sep {
            done.push(piece);
            piece = String::new();
        } else {
            push_char(&mut piece, c);
        }
        assert(views(done@).push(piece@) == split(s@.take(it.index() + 1), sep));
    }
    done.push(piece);
    assert(s@.take(s@.len() as int) == s@);
    done
}

/// Splits `s` into its fields.
pub fn split_fields(s: &str) -> (r: Vec<String>)
    ensures
        views(r@) == fields(s@),
{
    let mut done: Vec<String> = Vec::new();
    let mut piece = String::new();
    let mut inside = false;
    for c in it: s.chars()
        invariant
            it.seq() == s@,
            inside == ends_in_field(s@.take(it.index() as int)),
            !inside ==> piece@.len() == 0,
            fields(s@.take(it.index() as int)) == if inside {
                views(done@).push(piece@)
            } else {
                views(done@)
            },
    {
        let ghost before = fields(s@.take(it.index() as int));
        assert(s@.take(it.index() + 1).drop_last() == s@.take(it.index() as int));
        if char_is_whitespace(c) {
            if inside {
                done.push(piece);
                piece = String::new();
                inside = false;
            }
            assert(views(done@) == before);
        } else {
            push_char(&mut piece, c);
            if inside {
                assert(before.drop_last() == views(done@));
            } else {
                assert(piece@ == seq![c]);
            }
            inside = true;
            assert(views(done@).push(piece@) == fields(s@.take(it.index() + 1)));
        }
    }
    assert(s@.take(s@.len() as int) == s@);
    if inside {
        done.push(piece);
    }
    done
}

/// Joins the parts with `sep` between them.
pub fn join_text(parts: &Vec<String>, sep: &str) -> (r: String)
    ensures
        r@ == join(views(parts@), sep@),
{
    let mut out = String::new();
    let mut i: usize = 0;
    while i < parts.len()
        invariant
            i <= parts.len(),
            out@ == join(views(parts@).take(i as int), sep@),
        decreases parts.len() - i,
    {
        assert(views(parts@).take(i + 1).drop_last() == views(parts@).take(i as int));
        if i > 0 {
            out.append(sep);
        }
        out.append(parts[i].as_str());
        i += 1;
    }
    assert(views(parts@).take(parts@.len() as int) == views(parts@));
    out
}

/// Tells whether `s` begins with `prefix`.
pub fn has_prefix(s: &str, prefix: &str) -> (r: bool)
    ensures
        r == prefix@.is_prefix_of(s@),
{
    let n = prefix.unicode_len();
    if s.unicode_len() < n {
        return false;
    }
    let mut i: usize = 0;
    while i < n
        invariant
            i <= n,
            n == prefix@.len(),
            n <= s@.len(),
            forall|j: int| 0 <= j < i ==> s@[j] == prefix@[j],
        decreases n - i,
    {
        if s.get_char(i) != prefix.get_char(i) {
            assert(s@.subrange(0, n as int)[i as int] != prefix@[i as int]);
            return false;
        }
        i += 1;
    }
    assert(s@.subrange(0, n as int) == prefix@);
    true
}

/// Tells whether `s` is the one character `c`.
pub fn is_char(s: &str, c: char) -> (r: bool)
    ensures
        r == (s@ == seq![c]),
{
    if s.unicode_len() == 1 {
        let same = s.get_char(0) == c;
        assert(same ==> s@ == seq![c]);
        assert(!same ==> s@[0] != seq![c][0]);
        same
    } else {
        assert(seq![c].len() == 1);
        false
    }
}

/// The text of `s` from its character `from` on.
pub(crate) fn text_from(s: &str, from: usize) -> (r: String)
    requires
        from <= s@.len(),
    ensures
        r@ == s@.skip(from as int),
{
    let n = s.unicode_len();
    s.substring_char(from, n).to_owned()
}

/// Splitting yields at least one piece.
pub proof fn lemma_split_len(s: Seq<char>, sep: char)
    ensures
        split(s, sep).len() >= 1,
    decreases s.len(),
{
    if s.len() > 0 {
        lemma_split_len(s.drop_last(), sep);
    }
}

/// No piece of a split holds the separator.
pub proof fn lemma_split_pieces(s: Seq<char>, sep: char)
    ensures
        forall|i: int, j: int|
            0 <= i < split(s, sep).len() && 0 <= j < split(s, sep)[i].len() ==> split(
                s,
                sep,
            )[i][j] != sep,
    decreases s.len(),
{
    if s.len() > 0 {
        lemma_split_len(s.drop_last(), sep);
        lemma_split_pieces(s.drop_last(), sep);
    }
}

/// Joining the pieces of a split with the separator gives the text back.
pub proof fn lemma_join_split(s: Seq<char>, sep: char)
    ensures
        join(split(s, sep), seq![sep]) == s,
    decreases s.len(),
{
    if s.len() > 0 {
        let init = s.drop_last();
        let before = split(init, sep);
        lemma_split_len(init, sep);
        lemma_join_split(init, sep);
        assert(init.push(s.last()) == s);
        if s.last() == sep {
            assert(before.push(Seq::<char>::empty()).drop_last() == before);
            assert(join(before, seq![sep]) + seq![sep] + Seq::<char>::empty() == s);
        } else {
            let after = before.drop_last().push(before.last().push(s.last()));
            assert(after.drop_last() == before.drop_last());
            if before.len() == 1 {
                assert(after[0] == s);
            } else {
                assert(join(before, seq![sep]) == join(before.drop_last(), seq![sep]) + seq![sep]
                    + before.last());
                assert(join(before.drop_last(), seq![sep]) + seq![sep] + before.last().push(
                    s.last(),
                ) == s);
            }
        }
    }
}

/// Appending text that is free of the separator lengthens the last piece.
pub proof fn lemma_split_append(s: Seq<char>, t: Seq<char>, sep: char)
    requires
        forall|i: int| 0 <= i < t.len() ==> t[i] != sep,
    ensures
        split(s, sep).len() >= 1,
        split(s + t, sep) == split(s, sep).drop_last().push(split(s, sep).last() + t),
    decreases t.len(),
{
    lemma_split_len(s, sep);
    let before = split(s, sep);
    if t.len() == 0 {
        assert(s + t == s);
        assert(before.last() + t == before.last());
        assert(before.drop_last().push(before.last()) == before);
    } else {
        let init = t.drop_last();
        lemma_split_append(s, init, sep);
        assert((s + t).drop_last() == s + init);
        let mid = split(s + init, sep);
        assert(mid.last() == before.last() + init);
        assert(mid.drop_last() == before.drop_last());
        assert((before.last() + init).push(t.last()) == before.last() + t);
    }
}

/// Splitting a joined sequence of parts, none of which holds the separator,
/// gives the parts back.
pub proof fn lemma_split_join(parts: Seq<Seq<char>>, sep: char)
    requires
        parts.len() >= 1,
        forall|i: int, j: int| 0 <= i < parts.len() && 0 <= j < parts[i].len() ==> parts[i][j] != sep,
    ensures
        split(join(parts, seq![sep]), sep) == parts,
    decreases parts.len(),
{
    let last = parts.last();
    assert(forall|j: int| 0 <= j < last.len() ==> last[j] != sep);
    if parts.len() == 1 {
        lemma_split_append(Seq::<char>::empty(), last, sep);
        assert(Seq::<char>::empty() + last == last);
        assert(split(Seq::<char>::empty(), sep).drop_last().push(Seq::<char>::empty() + last)
            == parts);
    } else {
        let init = parts.drop_last();
        lemma_split_join(init, sep);
        let head = join(init, seq![sep]);
        assert((head + seq![sep]).drop_last() == head);
        assert(split(head + seq![sep], sep) == init.push(Seq::<char>::empty()));
        lemma_split_append(head + seq![sep], last, sep);
        assert(init.push(Seq::<char>::empty()).drop_last() == init);
        assert(Seq::<char>::empty() + last == last);
        assert(init.push(last) == parts);
    }
}

/// Every field is a run of one or more characters that are no whitespace,
/// and a text that ends inside a field has at least one.
pub proof fn lemma_fields_are_fields(s: Seq<char>)
    ensures
        forall|i: int| 0 <= i < fields(s).len() ==> is_field(#[trigger] fields(s)[i]),
        ends_in_field(s) ==> fields(s).len() > 0,
    decreases s.len(),
{
    if s.len() > 0 {
        lemma_fields_are_fields(s.drop_last());
        let before = fields(s.drop_last());
        let after = fields(s);
        let c = s.last();
        if !is_whitespace(c) {
            assert forall|i: int| 0 <= i < after.len() implies is_field(#[trigger] after[i]) by {
                if i < after.len() - 1 {
                    assert(after[i] == before[i]);
                } else if ends_in_field(s.drop_last()) {
                    let grown = before.last().push(c);
                    assert(is_field(before[before.len() - 1]));
                    assert forall|j: int| 0 <= j < grown.len() implies !is_whitespace(
                        #[trigger] grown[j],
                    ) by {
                        if j < grown.len() - 1 {
                            assert(grown[j] == before.last()[j]);
                        }
                    }
                } else {
                    assert(after[i] == seq![c]);
                }
            }
        }
    }
}

/// Whitespace at the end adds no field.
pub proof fn lemma_fields_push_whitespace(s: Seq<char>, c: char)
    requires
        is_whitespace(c),
    ensures
        fields(s.push(c)) == fields(s),
        !ends_in_field(s.push(c)),
{
    assert(s.push(c).drop_last() == s);
}

/// A field appended after whitespace, or to the empty text, is one more
/// field.
pub proof fn lemma_fields_append(s: Seq<char>, t: Seq<char>)
    requires
        !ends_in_field(s),
        is_field(t),
    ensures
        fields(s + t) == fields(s).push(t),
        ends_in_field(s + t),
    decreases t.len(),
{
    let init = t.drop_last();
    assert((s + t).drop_last() == s + init);
    assert(!is_whitespace(t[t.len() - 1]));
    if init.len() == 0 {
        assert(s + init == s);
        assert(seq![t.last()] == t);
    } else {
        assert forall|i: int| 0 <= i < init.len() implies !is_whitespace(#[trigger] init[i]) by {
            assert(init[i] == t[i]);
        }
        lemma_fields_append(s, init);
        assert(fields(s).push(init).drop_last() == fields(s));
        assert(init.push(t.last()) == t);
    }
}

/// The fields of a line made of fields, single spaces between them and a
/// line feed at the end are those fields.
pub proof fn lemma_fields_of_line(parts: Seq<Seq<char>>)
    requires
        forall|i: int| 0 <= i < parts.len() ==> is_field(#[trigger] parts[i]),
    ensures
        fields(join(parts, seq![' '])) == parts,
        fields(join(parts, seq![' ']) + seq!['\n']) == parts,
        ends_in_field(join(parts, seq![' '])) == (parts.len() > 0),
    decreases parts.len(),
{
    let space = seq![' '];
    if parts.len() == 0 {
    } else if parts.len() == 1 {
        lemma_fields_append(Seq::<char>::empty(), parts[0]);
        assert(Seq::<char>::empty() + parts[0] == parts[0]);
        assert(Seq::<Seq<char>>::empty().push(parts[0]) == parts);
    } else {
        let init = parts.drop_last();
        lemma_fields_of_line(init);
        let head = join(init, space);
        assert(head + space == head.push(' '));
        lemma_fields_push_whitespace(head, ' ');
        lemma_fields_append(head + space, parts.last());
        assert(init.push(parts.last()) == parts);
    }
    let whole = join(parts, space);
    assert(whole + seq!['\n'] == whole.push('\n'));
    lemma_fields_push_whitespace(whole, '\n');
}

/// Joining one more part adds the separator and the part.
pub proof fn lemma_join_push(parts: Seq<Seq<char>>, last: Seq<char>, sep: Seq<char>)
    requires
        parts.len() >= 1,
    ensures
        join(parts.push(last), sep) == join(parts, sep) + sep + last,
{
    assert(parts.push(last).drop_last() == parts);
}

/// What holds of every character of the parts and of the separator holds
/// of every character of the joined text, which is as long as the parts
/// and the separators between them.
pub proof fn lemma_join_all(parts: Seq<Seq<char>>, sep: Seq<char>, p: spec_fn(char) -> bool)
    requires
        forall|i: int| 0 <= i < parts.len() ==> all_chars(#[trigger] parts[i], p),
        all_chars(sep, p),
    ensures
        all_chars(join(parts, sep), p),
        parts.len() >= 1 ==> join(parts, sep).len() >= parts[0].len() + (parts.len() - 1)
            * sep.len(),
    decreases parts.len(),
{
    if parts.len() >= 2 {
        let init = parts.drop_last();
        assert forall|i: int| 0 <= i < init.len() implies all_chars(#[trigger] init[i], p) by {
            assert(init[i] == parts[i]);
        }
        lemma_join_all(init, sep, p);
        let head = join(init, sep);
        let whole = join(parts, sep);
        assert(all_chars(parts[parts.len() - 1], p));
        assert forall|k: int| 0 <= k < whole.len() implies p(#[trigger] whole[k]) by {
            if k < head.len() {
                assert(whole[k] == head[k]);
            } else if k < head.len() + sep.len() {
                assert(whole[k] == sep[k - head.len()]);
            } else {
                assert(whole[k] == parts.last()[k - head.len() - sep.len()]);
            }
        }
        assert(init[0] == parts[0]);
        assert((parts.len() - 1) * sep.len() == (init.len() - 1) * sep.len() + sep.len())
            by (nonlinear_arith)
            requires
                init.len() == parts.len() - 1,
        ;
    } else if parts.len() == 1 {
        assert(all_chars(parts[0], p));
    }
}

/// What holds of every character of two texts holds of every character of
/// the one after the other.
pub proof fn lemma_concat_all(a: Seq<char>, b: Seq<char>, p: spec_fn(char) -> bool)
    requires
        all_chars(a, p),
        all_chars(b, p),
    ensures
        all_chars(a + b, p),
{
    assert forall|k: int| 0 <= k < (a + b).len() implies p(#[trigger] (a + b)[k]) by {
        if k < a.len() {
            assert((a + b)[k] == a[k]);
        } else {
            assert((a + b)[k] == b[k - a.len()]);
        }
    }
}

/// What holds of every character of a text holds of every character of
/// its pieces.
pub proof fn lemma_split_all(s: Seq<char>, sep: char, p: spec_fn(char) -> bool)
    requires
        all_chars(s, p),
    ensures
        forall|i: int| 0 <= i < split(s, sep).len() ==> all_chars(#[trigger] split(s, sep)[i], p),
    decreases s.len(),
{
    if s.len() > 0 {
        let init = s.drop_last();
        assert forall|k: int| 0 <= k < init.len() implies p(#[trigger] init[k]) by {
            assert(init[k] == s[k]);
        }
        lemma_split_all(init, sep, p);
        lemma_split_len(init, sep);
        let before = split(init, sep);
        let after = split(s, sep);
        assert(p(s[s.len() - 1]));
        assert forall|i: int| 0 <= i < after.len() implies all_chars(#[trigger] after[i], p) by {
            if i < before.len() - 1 {
                assert(after[i] == before[i]);
                assert(all_chars(before[i], p));
            } else if s.last() == sep {
                if i < before.len() {
                    assert(after[i] == before[i]);
                    assert(all_chars(before[i], p));
                }
            } else {
                assert(all_chars(before[before.len() - 1], p));
                let grown = before.last().push(s.last());
                assert(after[i] == grown);
                assert forall|j: int| 0 <= j < grown.len() implies p(#[trigger] grown[j]) by {
                    if j < grown.len() - 1 {
                        assert(grown[j] == before.last()[j]);
                    }
                }
            }
        }
    }
}

/// A list joined by a separator that is no whitespace is a field, and
/// splits into the list again.
pub proof fn lemma_join_list(parts: Seq<Seq<char>>, sep: char)
    requires
        is_list(parts, sep),
        !is_whitespace(sep),
    ensures
        is_field(join(parts, seq![sep])),
        split(join(parts, seq![sep]), sep) == parts,
{
    let clean = |c: char| !is_whitespace(c);
    assert forall|i: int| 0 <= i < parts.len() implies all_chars(#[trigger] parts[i], clean) by {
        assert(all_chars(parts[i], |c: char| c != sep && !is_whitespace(c)));
        assert forall|j: int| 0 <= j < parts[i].len() implies clean(#[trigger] parts[i][j]) by {
            assert((|c: char| c != sep && !is_whitespace(c))(parts[i][j]));
        }
    }
    assert(all_chars(seq![sep], clean));
    lemma_join_all(parts, seq![sep], clean);
    let whole = join(parts, seq![sep]);
    assert forall|k: int| 0 <= k < whole.len() implies !is_whitespace(#[trigger] whole[k]) by {
        assert(clean(whole[k]));
    }
    assert(whole.len() > 0) by {
        if parts.len() > 1 {
            assert((parts.len() - 1) * 1 >= 1);
        }
    }
    assert forall|i: int, j: int|
        0 <= i < parts.len() && 0 <= j < parts[i].len() implies parts[i][j] != sep by {
        assert(all_chars(parts[i], |c: char| c != sep && !is_whitespace(c)));
        assert((|c: char| c != sep && !is_whitespace(c))(parts[i][j]));
    }
    lemma_split_join(parts, sep);
}

/// The pieces of a field are a list.
pub proof fn lemma_split_list(s: Seq<char>, sep: char)
    requires
        is_field(s),
    ensures
        is_list(split(s, sep), sep),
{
    let clean = |c: char| !is_whitespace(c);
    let parts = split(s, sep);
    assert(all_chars(s, clean));
    lemma_split_all(s, sep, clean);
    lemma_split_pieces(s, sep);
    lemma_split_len(s, sep);
    lemma_join_split(s, sep);
    assert forall|i: int| 0 <= i < parts.len() implies all_chars(
        #[trigger] parts[i],
        |c: char| c != sep && !is_whitespace(c),
    ) by {
        assert(all_chars(parts[i], clean));
        assert forall|j: int| 0 <= j < parts[i].len() implies (|c: char|
            c != sep && !is_whitespace(c))(#[trigger] parts[i][j]) by {
            assert(clean(parts[i][j]));
        }
    }
}

} // verus!
