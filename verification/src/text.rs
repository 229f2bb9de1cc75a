//! Text operations, stated over the sequence of characters of a string.
use vstd::prelude::*;

verus! {

/// `i` is the position of the first `c` in `s`.
pub open spec fn first_at(s: Seq<char>, c: char, i: int) -> bool {
    &&& 0 <= i < s.len()
    &&& s[i] == c
    &&& forall|j: int| 0 <= j < i ==> s[j] != c
}

/// `i` is the position of the last `c` in `s`.
pub open spec fn last_at(s: Seq<char>, c: char, i: int) -> bool {
    &&& 0 <= i < s.len()
    &&& s[i] == c
    &&& forall|j: int| i < j < s.len() ==> s[j] != c
}

/// The text before and after the first `c`, if there is one.
pub open spec fn split(s: Seq<char>, c: char) -> Option<(Seq<char>, Seq<char>)> {
    if exists|i: int| first_at(s, c, i) {
        let i = choose|i: int| first_at(s, c, i);
        Some((s.subrange(0, i), s.subrange(i + 1, s.len() as int)))
    } else {
        None
    }
}

/// The text before and after the last `c`, if there is one.
pub open spec fn rsplit(s: Seq<char>, c: char) -> Option<(Seq<char>, Seq<char>)> {
    if exists|i: int| last_at(s, c, i) {
        let i = choose|i: int| last_at(s, c, i);
        Some((s.subrange(0, i), s.subrange(i + 1, s.len() as int)))
    } else {
        None
    }
}

/// `needle` stands in `s` at position `i`.
pub open spec fn occurs_at(s: Seq<char>, needle: Seq<char>, i: int) -> bool {
    &&& 0 <= i
    &&& i + needle.len() <= s.len()
    &&& s.subrange(i, i + needle.len()) == needle
}

/// `needle` stands somewhere in `s`.
pub open spec fn occurs(s: Seq<char>, needle: Seq<char>) -> bool {
    exists|i: int| occurs_at(s, needle, i)
}

/// `s` without a carriage return at its end.
pub open spec fn without_cr(s: Seq<char>) -> Seq<char> {
    if s.len() > 0 && s.last() == '\r' {
        s.drop_last()
    } else {
        s
    }
}

/// The lines of `s`: each ends at a line feed, or at the end of the text. A line
/// feed, and a carriage return right before it, belong to no line. What follows the
/// last line feed is a line only if it is not empty.
pub open spec fn lines_of(s: Seq<char>) -> Seq<Seq<char>>
    decreases s.len(),
{
    if s.len() == 0 {
        Seq::empty()
    } else {
        match split(s, '\n') {
            Some((line, rest)) => {
                proof {
                    lemma_split_shorter(s, '\n');
                }
                seq![without_cr(line)] + lines_of(rest)
            },
            None => seq![s],
        }
    }
}

/// `s` with every `from` replaced by `to`.
pub open spec fn replaced(s: Seq<char>, from: char, to: char) -> Seq<char> {
    s.map_values(|c: char| if c == from { to } else { c })
}

/// The texts of a list of strings.
pub open spec fn texts(list: Seq<&str>) -> Seq<Seq<char>> {
    list.map_values(|s: &str| s@)
}

/// What follows a split is shorter than the whole.
pub proof fn lemma_split_shorter(s: Seq<char>, c: char)
    ensures
        split(s, c) matches Some((_, rest)) ==> rest.len() < s.len(),
{
}

/// A position that is the first `c` decides the split.
pub proof fn lemma_split_at(s: Seq<char>, c: char, i: int)
    requires
        first_at(s, c, i),
    ensures
        split(s, c) == Some((s.subrange(0, i), s.subrange(i + 1, s.len() as int))),
{
    let k = choose|k: int| first_at(s, c, k);
    assert(k == i);
}

/// A position that is the last `c` decides the split from the right.
pub proof fn lemma_rsplit_at(s: Seq<char>, c: char, i: int)
    requires
        last_at(s, c, i),
    ensures
        rsplit(s, c) == Some((s.subrange(0, i), s.subrange(i + 1, s.len() as int))),
{
    let k = choose|k: int| last_at(s, c, k);
    assert(k == i);
}

/// Splitting at the first `c` undoes joining with a `c`, where the part before it
/// holds none.
pub proof fn split_undoes_join(before: Seq<char>, c: char, after: Seq<char>)
    requires
        !before.contains(c),
    ensures
        split(before + seq![c] + after, c) == Some((before, after)),
{
    let s = before + seq![c] + after;
    let i = before.len() as int;
    assert forall|j: int| 0 <= j < i implies s[j] != c by {
        assert(s[j] == before[j]);
    }
    lemma_split_at(s, c, i);
    assert(s.subrange(0, i) =~= before);
    assert(s.subrange(i + 1, s.len() as int) =~= after);
}

/// Splitting at the last `c` undoes joining with a `c`, where the part after it holds
/// none.
pub proof fn rsplit_undoes_join(before: Seq<char>, c: char, after: Seq<char>)
    requires
        !after.contains(c),
    ensures
        rsplit(before + seq![c] + after, c) == Some((before, after)),
{
    let s = before + seq![c] + after;
    let i = before.len() as int;
    assert forall|j: int| i < j < s.len() implies s[j] != c by {
        assert(s[j] == after[j - i - 1]);
    }
    lemma_rsplit_at(s, c, i);
    assert(s.subrange(0, i) =~= before);
    assert(s.subrange(i + 1, s.len() as int) =~= after);
}

/// Whether the two strings hold the same text.
pub fn same(a: &str, b: &str) -> (result: bool)
    ensures
        result == (a@ == b@),
{
    a.to_owned() == b.to_owned()
}

/// Splits `s` at the first `c`.
pub fn split_once<'a>(s: &'a str, c: char) -> (result: Option<(&'a str, &'a str)>)
    ensures
        match result {
            Some((before, after)) => split(s@, c) == Some((before@, after@)),
            None => split(s@, c) is None,
        },
{
    let n: usize = s.unicode_len();
    let mut i: usize = 0;
    for ch in it: s.chars()
        invariant
            i == it.index(),
            it.seq() == s@,
            n == s@.len(),
            forall|j: int| 0 <= j < i ==> s@[j] != c,
    {
        if ch == c {
            proof {
                lemma_split_at(s@, c, i as int);
            }
            return Some((s.substring_char(0, i), s.substring_char(i + 1, n)));
        }
        i = i + 1;
    }
    None
}

/// Splits `s` at the last `c`.
pub fn rsplit_once<'a>(s: &'a str, c: char) -> (result: Option<(&'a str, &'a str)>)
    ensures
        match result {
            Some((before, after)) => rsplit(s@, c) == Some((before@, after@)),
            None => rsplit(s@, c) is None,
        },
{
    let n: usize = s.unicode_len();
    let mut i: usize = 0;
    let mut last: Option<usize> = None;
    for ch in it: s.chars()
        invariant
            i == it.index(),
            it.seq() == s@,
            n == s@.len(),
            match last {
                Some(k) => last_at(s@.subrange(0, i as int), c, k as int),
                None => forall|j: int| 0 <= j < i ==> s@[j] != c,
            },
    {
        if ch == c {
            last = Some(i);
        }
        i = i + 1;
    }
    assert(s@.subrange(0, n as int) =~= s@);
    match last {
        Some(k) => {
            proof {
                lemma_rsplit_at(s@, c, k as int);
            }
            Some((s.substring_char(0, k), s.substring_char(k + 1, n)))
        },
        None => None,
    }
}

/// What follows `prefix` in `s`, if `s` starts with it.
pub fn strip_prefix<'a>(s: &'a str, prefix: &str) -> (result: Option<&'a str>)
    ensures
        match result {
            Some(rest) => s@ == prefix@ + rest@,
            None => !prefix@.is_prefix_of(s@),
        },
{
    let n: usize = s.unicode_len();
    let k: usize = prefix.unicode_len();
    if k <= n && same(s.substring_char(0, k), prefix) {
        let rest = s.substring_char(k, n);
        assert(s@ =~= prefix@ + rest@);
        Some(rest)
    } else {
        None
    }
}

/// Whether `s` starts with `prefix`.
pub fn starts_with(s: &str, prefix: &str) -> (result: bool)
    ensures
        result == prefix@.is_prefix_of(s@),
{
    let n: usize = s.unicode_len();
    let k: usize = prefix.unicode_len();
    k <= n && same(s.substring_char(0, k), prefix)
}

/// Whether `s` ends with `suffix`.
pub fn ends_with(s: &str, suffix: &str) -> (result: bool)
    ensures
        result == suffix@.is_suffix_of(s@),
{
    let n: usize = s.unicode_len();
    let k: usize = suffix.unicode_len();
    k <= n && same(s.substring_char(n - k, n), suffix)
}

/// The characters of `s`.
fn characters(s: &str) -> (result: Vec<char>)
    ensures
        result@ == s@,
{
    let mut result: Vec<char> = Vec::new();
    for ch in it: s.chars()
        invariant
            it.seq() == s@,
            result@ == s@.subrange(0, it.index() as int),
    {
        result.push(ch);
        assert(result@ =~= s@.subrange(0, it.index() + 1));
    }
    assert(s@.subrange(0, s@.len() as int) =~= s@);
    result
}

/// Whether `needle` stands in `s` at position `i`.
fn stands_at(s: &Vec<char>, needle: &Vec<char>, i: usize) -> (result: bool)
    requires
        i + needle@.len() <= s@.len(),
    ensures
        result == occurs_at(s@, needle@, i as int),
{
    let n: usize = s.len();
    let mut j: usize = 0;
    while j < needle.len()
        invariant
            n == s@.len(),
            i + needle@.len() <= n,
            j <= needle@.len(),
            forall|k: int| 0 <= k < j ==> s@[i + k] == needle@[k],
        decreases needle@.len() - j,
    {
        if s[i + j] != needle[j] {
            assert(s@.subrange(i as int, i + needle@.len())[j as int] != needle@[j as int]);
            return false;
        }
        j = j + 1;
    }
    assert(s@.subrange(i as int, i + needle@.len()) =~= needle@);
    true
}

/// Whether `needle` stands somewhere in `s`.
pub fn contains(s: &str, needle: &str) -> (result: bool)
    ensures
        result == occurs(s@, needle@),
{
    let text = characters(s);
    let part = characters(needle);
    if part.len() > text.len() {
        return false;
    }
    let last: usize = text.len() - part.len();
    let mut i: usize = 0;
    loop
        invariant
            text@ == s@,
            part@ == needle@,
            last + part@.len() == text@.len(),
            i <= last,
            forall|j: int| 0 <= j < i ==> !occurs_at(s@, needle@, j),
        decreases last - i,
    {
        if stands_at(&text, &part, i) {
            return true;
        }
        if i == last {
            return false;
        }
        i = i + 1;
    }
}

/// The lines of `s`.
pub fn lines<'a>(s: &'a str) -> (result: Vec<&'a str>)
    ensures
        texts(result@) == lines_of(s@),
{
    let mut result: Vec<&'a str> = Vec::new();
    let mut rest: &'a str = s;
    assert(texts(result@) + lines_of(rest@) =~= lines_of(s@));
    while !rest.is_empty()
        invariant
            texts(result@) + lines_of(rest@) == lines_of(s@),
        decreases rest@.len(),
    {
        let ghost before = texts(result@);
        let ghost left = rest@;
        match split_once(rest, '\n') {
            Some((line, after)) => {
                let n: usize = line.unicode_len();
                let line = if n > 0 && line.get_char(n - 1) == '\r' {
                    line.substring_char(0, n - 1)
                } else {
                    line
                };
                result.push(line);
                proof {
                    lemma_split_shorter(left, '\n');
                    assert(texts(result@) =~= before.push(line@));
                    assert(texts(result@) + lines_of(after@) =~= before + (seq![line@] + lines_of(
                        after@,
                    )));
                }
                rest = after;
            },
            None => {
                result.push(rest);
                assert(texts(result@) =~= before + lines_of(left));
                return result;
            },
        }
    }
    assert(texts(result@) + lines_of(rest@) =~= texts(result@));
    result
}

/// `s` with every `-` replaced by `_`.
pub fn dashes_to_underscores(s: &str) -> (result: String)
    ensures
        result@ == replaced(s@, '-', '_'),
{
    let n: usize = s.unicode_len();
    let mut result = String::new();
    let mut i: usize = 0;
    proof {
        reveal_strlit("_");
    }
    for ch in it: s.chars()
        invariant
            i == it.index(),
            it.seq() == s@,
            n == s@.len(),
            "_"@ =~= seq!['_'],
            result@ == replaced(s@.subrange(0, i as int), '-', '_'),
    {
        if ch == '-' {
            result.append("_");
        } else {
            result.append(s.substring_char(i, i + 1));
        }
        i = i + 1;
        assert(result@ =~= replaced(s@.subrange(0, i as int), '-', '_'));
    }
    assert(s@.subrange(0, n as int) =~= s@);
    result
}

/// The same texts again.
pub fn duplicate_list(list: &Vec<String>) -> (result: Vec<String>)
    ensures
        result.deep_view() == list.deep_view(),
{
    let mut result: Vec<String> = Vec::new();
    let mut i: usize = 0;
    while i < list.len()
        invariant
            i <= list@.len(),
            result@ == list@.subrange(0, i as int),
        decreases list@.len() - i,
    {
        result.push(list[i].clone());
        i = i + 1;
        assert(result@ =~= list@.subrange(0, i as int));
    }
    assert(result.deep_view() =~= list.deep_view());
    result
}

} // verus!
