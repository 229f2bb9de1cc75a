//! What the operations on texts and paths give, told by how a text is put together.
use vstd::prelude::*;

use crate::path;
use crate::text;

verus! {

/// A text that holds `c` has a first and a last `c`.
proof fn lemma_ends_exist(s: Seq<char>, c: char)
    requires
        s.contains(c),
    ensures
        exists|i: int| text::first_at(s, c, i),
        exists|i: int| text::last_at(s, c, i),
    decreases s.len(),
{
    let k = choose|k: int| 0 <= k < s.len() && s[k] == c;
    if exists|j: int| 0 <= j < k && s[j] == c {
        let before = s.subrange(0, k);
        let j = choose|j: int| 0 <= j < k && s[j] == c;
        assert(before[j] == c);
        lemma_ends_exist(before, c);
        let i = choose|i: int| text::first_at(before, c, i);
        assert(text::first_at(s, c, i)) by {
            assert(forall|m: int| 0 <= m < k ==> before[m] == s[m]);
        }
    } else {
        assert(text::first_at(s, c, k));
    }
    if exists|j: int| k < j < s.len() && s[j] == c {
        let after = s.subrange(k + 1, s.len() as int);
        let j = choose|j: int| k < j < s.len() && s[j] == c;
        assert(after[j - k - 1] == c);
        lemma_ends_exist(after, c);
        let i = choose|i: int| text::last_at(after, c, i);
        assert(text::last_at(s, c, i + k + 1)) by {
            assert forall|m: int| i + k + 1 < m < s.len() implies s[m] != c by {
                assert(after[m - k - 1] == s[m]);
            }
        }
    } else {
        assert(text::last_at(s, c, k));
    }
}

/// A text is split at its first `c`: the parts make up the text, and the part before holds
/// no `c`. A text that is not split holds no `c`.
pub proof fn split_takes_a_text_apart(s: Seq<char>, c: char)
    ensures
        match text::split(s, c) {
            Some((before, after)) => s == before + seq![c] + after && !before.contains(c),
            None => !s.contains(c),
        },
{
    if s.contains(c) {
        lemma_ends_exist(s, c);
        let i = choose|i: int| text::first_at(s, c, i);
        text::lemma_split_at(s, c, i);
        assert(s =~= s.subrange(0, i) + seq![c] + s.subrange(i + 1, s.len() as int));
    } else {
        assert forall|i: int| !text::first_at(s, c, i) by {
            if text::first_at(s, c, i) {
                assert(s[i] == c);
            }
        }
    }
}

/// A text is split from the right at its last `c`: the parts make up the text, and the part
/// after holds no `c`. A text that is not split holds no `c`.
pub proof fn rsplit_takes_a_text_apart(s: Seq<char>, c: char)
    ensures
        match text::rsplit(s, c) {
            Some((before, after)) => s == before + seq![c] + after && !after.contains(c),
            None => !s.contains(c),
        },
{
    if s.contains(c) {
        lemma_ends_exist(s, c);
        let i = choose|i: int| text::last_at(s, c, i);
        text::lemma_rsplit_at(s, c, i);
        assert(s =~= s.subrange(0, i) + seq![c] + s.subrange(i + 1, s.len() as int));
        let after = s.subrange(i + 1, s.len() as int);
        assert(!after.contains(c)) by {
            if after.contains(c) {
                let j = choose|j: int| 0 <= j < after.len() && after[j] == c;
                assert(s[j + i + 1] == c);
            }
        }
    } else {
        assert forall|i: int| !text::last_at(s, c, i) by {
            if text::last_at(s, c, i) {
                assert(s[i] == c);
            }
        }
    }
}

/// A text occurs in another wherever the other is made of it and what stands around it.
pub proof fn parts_occur(before: Seq<char>, needle: Seq<char>, after: Seq<char>)
    ensures
        text::occurs(before + needle + after, needle),
{
    let s = before + needle + after;
    let i = before.len() as int;
    assert(s.subrange(i, i + needle.len()) =~= needle);
    assert(text::occurs_at(s, needle, i));
}

/// What occurs in a text is a part of it.
pub proof fn what_occurs_is_a_part(s: Seq<char>, needle: Seq<char>) -> (around: (
    Seq<char>,
    Seq<char>,
))
    requires
        text::occurs(s, needle),
    ensures
        s == around.0 + needle + around.1,
{
    let i = choose|i: int| text::occurs_at(s, needle, i);
    let before = s.subrange(0, i);
    let after = s.subrange(i + needle.len(), s.len() as int);
    assert(s =~= before + s.subrange(i, i + needle.len()) + after);
    (before, after)
}

/// The lines of a text that starts with a line are that line and the lines of the rest,
/// whether the line ends with a line feed or with a carriage return and a line feed.
pub proof fn lines_are_taken_off_the_front(line: Seq<char>, rest: Seq<char>)
    requires
        !line.contains('\n'),
        line.len() == 0 || line.last() != '\r',
    ensures
        text::lines_of(line + seq!['\n'] + rest) == seq![line] + text::lines_of(rest),
        text::lines_of(line + seq!['\r', '\n'] + rest) == seq![line] + text::lines_of(rest),
{
    text::split_undoes_join(line, '\n', rest);
    let with = line + seq!['\r'];
    assert(!with.contains('\n')) by {
        if with.contains('\n') {
            let i = choose|i: int| 0 <= i < with.len() && with[i] == '\n';
            if i < line.len() {
                assert(line[i] == '\n');
            }
        }
    }
    text::split_undoes_join(with, '\n', rest);
    assert(line + seq!['\r', '\n'] + rest =~= with + seq!['\n'] + rest);
    assert(with.drop_last() =~= line);
}

/// A text without a line feed is a line by itself, unless it is empty.
pub proof fn rest_is_a_line(rest: Seq<char>)
    requires
        !rest.contains('\n'),
    ensures
        rest.len() == 0 ==> text::lines_of(rest).len() == 0,
        rest.len() > 0 ==> text::lines_of(rest) == seq![rest],
{
    split_takes_a_text_apart(rest, '\n');
    if text::split(rest, '\n') is Some {
        let (before, after) = text::split(rest, '\n')->0;
        assert(rest[before.len() as int] == '\n');
    }
}

/// Replacing a character changes the positions that hold it, and no others.
pub proof fn replacing_changes_one_character(s: Seq<char>, from: char, to: char)
    ensures
        text::replaced(s, from, to).len() == s.len(),
        forall|i: int|
            0 <= i < s.len() ==> #[trigger] text::replaced(s, from, to)[i] == if s[i] == from {
                to
            } else {
                s[i]
            },
{
}

/// A list of strings stands for the texts in it, in order.
pub proof fn lists_stand_for_their_texts(list: Seq<&str>, i: int)
    requires
        0 <= i < list.len(),
    ensures
        text::texts(list).len() == list.len(),
        text::texts(list)[i] == list[i]@,
{
}

/// A path is absolute if it is made of a `/` and a rest.
pub proof fn absolute_paths_start_at_the_root(s: Seq<char>)
    ensures
        forall|rest: Seq<char>| s == #[trigger] (seq!['/'] + rest) ==> path::absolute(s),
        path::absolute(s) ==> s == seq!['/'] + s.subrange(1, s.len() as int),
{
    if path::absolute(s) {
        assert(s =~= seq!['/'] + s.subrange(1, s.len() as int));
    }
}

/// A piece without `/` is a name, unless it is empty or a single dot.
pub proof fn a_piece_is_a_name(piece: Seq<char>)
    requires
        !piece.contains('/'),
    ensures
        piece.len() == 0 || piece == seq!['.'] ==> path::names_of(piece).len() == 0,
        piece.len() > 0 && piece != seq!['.'] ==> path::names_of(piece) == seq![piece],
{
    split_takes_a_text_apart(piece, '/');
    if text::split(piece, '/') is Some {
        let (before, after) = text::split(piece, '/')->0;
        assert(piece[before.len() as int] == '/');
    }
}

/// Another piece at the end of a path adds a name to it, unless it is empty or a single
/// dot, which add none.
pub proof fn names_are_added_at_the_end(dir: Seq<char>, piece: Seq<char>)
    requires
        !piece.contains('/'),
    ensures
        path::names_of(dir + seq!['/'] + piece) == if piece.len() == 0 || piece == seq!['.'] {
            path::names_of(dir)
        } else {
            path::names_of(dir).push(piece)
        },
    decreases dir.len(),
{
    let whole = dir + seq!['/'] + piece;
    a_piece_is_a_name(piece);
    split_takes_a_text_apart(dir, '/');
    match text::split(dir, '/') {
        Some((first, rest)) => {
            assert(whole =~= first + seq!['/'] + (rest + seq!['/'] + piece));
            text::split_undoes_join(first, '/', rest + seq!['/'] + piece);
            names_are_added_at_the_end(rest, piece);
            assert(dir.len() == first.len() + 1 + rest.len());
            assert(path::names_of(whole) =~= path::names_in(first) + path::names_of(
                rest + seq!['/'] + piece,
            ));
            assert(path::names_of(whole) =~= if piece.len() == 0 || piece == seq!['.'] {
                path::names_of(dir)
            } else {
                path::names_of(dir).push(piece)
            });
        },
        None => {
            text::split_undoes_join(dir, '/', piece);
            a_piece_is_a_name(dir);
            assert(path::names_of(whole) =~= path::names_in(dir) + path::names_of(piece));
            assert(path::names_of(whole) =~= if piece.len() == 0 || piece == seq!['.'] {
                path::names_of(dir)
            } else {
                path::names_of(dir).push(piece)
            });
        },
    }
}

/// The file name of a path is its last name, and there is none without a name or where the
/// last name is `..`.
pub proof fn file_name_is_the_last_name(s: Seq<char>, names: Seq<Seq<char>>)
    ensures
        names.len() == 0 || names.last() == seq!['.', '.'] ==> path::last_name(names) is None,
        names.len() > 0 && names.last() != seq!['.', '.'] ==> path::last_name(names) == Some(
            names.last(),
        ),
        path::names_of(s).len() == 0 ==> path::file_name_of(s) is None,
        path::names_of(s).len() > 0 && path::names_of(s).last() == seq!['.', '.']
            ==> path::file_name_of(s) is None,
        path::names_of(s).len() > 0 && path::names_of(s).last() != seq!['.', '.']
            ==> path::file_name_of(s) == Some(path::names_of(s).last()),
{
}

/// A relative path is put below a directory, with one `/` between them, and an absolute one
/// stays as it is.
pub proof fn joining_puts_a_path_below(base: Seq<char>, rest: Seq<char>)
    requires
        base.len() > 0,
        base.last() != '/',
    ensures
        rest.len() == 0 || rest[0] != '/' ==> {
            &&& path::joined(base, rest) == base + seq!['/'] + rest
            &&& path::joined(base + seq!['/'], rest) == base + seq!['/'] + rest
            &&& path::joined(Seq::empty(), rest) == rest
        },
        rest.len() > 0 && rest[0] == '/' ==> path::joined(base, rest) == rest,
{
    assert((base + seq!['/']).last() == '/');
    assert(Seq::<char>::empty() + rest =~= rest);
}

} // verus!
