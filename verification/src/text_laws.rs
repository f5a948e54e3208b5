//! What holds of text operations: how their results follow from one character to
//! the next.
use vstd::prelude::*;

use crate::session_laws::{split_both_sides, split_of_one_piece};
use crate::text::{ascii_lower, ascii_lowered, ascii_upper, ascii_uppered, joined, lines, occurs};
use crate::text::{occurs_at, split_at_each, split_is_not_empty, strip_all, trim_front};
use crate::text::{trimmed, views, white_space, without_cr};

verus! {

/// The white space characters by their code points.
pub proof fn white_space_by_code(c: char)
    ensures
        white_space(c) <==> {
            let n = c as int;
            ||| 9 <= n <= 13
            ||| n == 32
            ||| n == 133
            ||| n == 160
            ||| n == 5760
            ||| 8192 <= n <= 8202
            ||| n == 8232
            ||| n == 8233
            ||| n == 8239
            ||| n == 8287
            ||| n == 12288
        },
{
}

/// White space at the end of a text goes when the front is trimmed first.
proof fn trim_front_of_longer(s: Seq<char>, c: char)
    ensures
        trim_front(s).len() > 0 ==> trim_front(s.push(c)) == trim_front(s).push(c),
        trim_front(s).len() == 0 ==> trim_front(s.push(c)) == trim_front(seq![c]),
    decreases s.len(),
{
    if s.len() == 0 {
        assert(s.push(c) =~= seq![c]);
    } else if white_space(s[0]) {
        assert(s.push(c)[0] == s[0]);
        assert(s.push(c).skip(1) =~= s.skip(1).push(c));
        trim_front_of_longer(s.skip(1), c);
    } else {
        assert(s.push(c)[0] == s[0]);
    }
}

/// A white space character before or after a text is trimmed away, and a text
/// that neither starts nor ends with one stays as it is.
pub proof fn trimming_by_character(s: Seq<char>, c: char)
    ensures
        white_space(c) ==> trimmed(seq![c] + s) == trimmed(s),
        white_space(c) ==> trimmed(s.push(c)) == trimmed(s),
        s.len() == 0 || (!white_space(s[0]) && !white_space(s[s.len() - 1])) ==> trimmed(s) == s,
{
    if white_space(c) {
        assert((seq![c] + s).skip(1) =~= s);
        trim_front_of_longer(s, c);
        if trim_front(s).len() > 0 {
            assert(trim_front(s).push(c).drop_last() =~= trim_front(s));
        } else {
            assert(seq![c].skip(1) =~= Seq::<char>::empty());
            reveal_with_fuel(trim_front, 2);
            assert(trim_front(seq![c]) =~= Seq::<char>::empty());
            assert(trim_front(s) =~= Seq::<char>::empty());
        }
    }
}

/// A pattern occurs in a text if and only if the text starts with it after some
/// of its characters are skipped.
pub proof fn occurring_is_starting_somewhere(s: Seq<char>, pattern: Seq<char>)
    ensures
        occurs(s, pattern) <==> exists|i: int|
            0 <= i <= s.len() && pattern.is_prefix_of(#[trigger] s.skip(i)),
{
    let n = pattern.len() as int;
    if occurs(s, pattern) {
        let i = choose|i: int| #[trigger] occurs_at(s, pattern, i);
        assert(s.skip(i).subrange(0, n) =~= s.subrange(i, i + n));
        assert(pattern.is_prefix_of(s.skip(i)));
    }
    if exists|i: int| 0 <= i <= s.len() && pattern.is_prefix_of(#[trigger] s.skip(i)) {
        let i = choose|i: int| 0 <= i <= s.len() && pattern.is_prefix_of(#[trigger] s.skip(i));
        assert(s.skip(i).subrange(0, n) =~= s.subrange(i, i + n));
        assert(occurs_at(s, pattern, i));
    }
}

/// One more prefix before a text is stripped away, and a text without the prefix
/// stays as it is.
pub proof fn stripping_by_prefix(s: Seq<char>, prefix: Seq<char>)
    requires
        prefix.len() > 0,
    ensures
        strip_all(prefix + s, prefix) == strip_all(s, prefix),
        !prefix.is_prefix_of(s) ==> strip_all(s, prefix) == s,
{
    let n = prefix.len() as int;
    assert((prefix + s).subrange(0, n) =~= prefix);
    assert((prefix + s).skip(n) =~= s);
}

/// ASCII letters change case by 32 code points, and nothing else changes.
pub proof fn letters_change_by_code(c: char)
    ensures
        ascii_lower(c) as int == (if 65 <= c as int <= 90 {
            c as int + 32
        } else {
            c as int
        }),
        ascii_upper(c) as int == (if 97 <= c as int <= 122 {
            c as int - 32
        } else {
            c as int
        }),
{
}

/// A change of case keeps every character in its place.
pub proof fn case_keeps_places(s: Seq<char>, i: int)
    requires
        0 <= i < s.len(),
    ensures
        ascii_lowered(s).len() == s.len(),
        ascii_lowered(s)[i] == ascii_lower(s[i]),
        ascii_uppered(s).len() == s.len(),
        ascii_uppered(s)[i] == ascii_upper(s[i]),
{
}

/// A list of strings is seen string by string.
pub proof fn strings_are_seen_in_order(texts: Seq<String>)
    ensures
        views(texts).len() == texts.len(),
        forall|i: int| 0 <= i < texts.len() ==> #[trigger] views(texts)[i] == texts[i]@,
{
}

/// Nothing joins to nothing, one part joins to itself, and one more part comes
/// behind one more separator.
pub proof fn joining_by_part(parts: Seq<Seq<char>>, sep: Seq<char>, part: Seq<char>)
    ensures
        joined(Seq::empty(), sep) == Seq::<char>::empty(),
        joined(seq![part], sep) == part,
        parts.len() > 0 ==> joined(parts.push(part), sep) == joined(parts, sep) + sep + part,
{
    assert(parts.push(part).drop_last() =~= parts);
}

/// Of a line only one carriage return at its very end is taken away.
pub proof fn one_carriage_return_goes(line: Seq<char>)
    ensures
        without_cr(line.push('\r')) == line,
        line.len() == 0 || line[line.len() - 1] != '\r' ==> without_cr(line) == line,
{
    assert(line.push('\r').drop_last() =~= line);
}

/// The lines of a text: none of an empty text, one of a text without newline, and
/// of any other the part before the first newline, without a carriage return at
/// its end, and then the lines of what follows the newline.
pub proof fn lines_by_newline(first: Seq<char>, rest: Seq<char>)
    requires
        !first.contains('\n'),
    ensures
        lines(Seq::empty()) == Seq::<Seq<char>>::empty(),
        first.len() > 0 ==> lines(first) == seq![first],
        lines(first.push('\n') + rest) == seq![without_cr(first)] + lines(rest),
{
    split_of_one_piece(first, '\n');
    split_of_one_piece(Seq::empty(), '\n');
    split_both_sides(first, rest, '\n');
    split_is_not_empty(rest, '\n');
    assert(lines(Seq::empty()) =~= Seq::<Seq<char>>::empty());
    if first.len() > 0 {
        assert(lines(first) =~= seq![first]);
    }
    let pieces = split_at_each(rest, '\n');
    let all = seq![first] + pieces;
    assert(split_at_each(first.push('\n') + rest, '\n') == all);
    assert(all.drop_last() =~= seq![first] + pieces.drop_last());
    assert(all.last() == pieces.last());
    assert(lines(first.push('\n') + rest) =~= seq![without_cr(first)] + lines(rest));
}

/// A text without the separator is one piece, and of any other the part before
/// the first separator is the first piece, and what follows gives the others.
pub proof fn splitting_by_separator(first: Seq<char>, rest: Seq<char>, sep: char)
    requires
        !first.contains(sep),
    ensures
        split_at_each(first, sep) == seq![first],
        split_at_each(first.push(sep) + rest, sep) == seq![first] + split_at_each(rest, sep),
{
    split_of_one_piece(first, sep);
    split_both_sides(first, rest, sep);
}

} // verus!
