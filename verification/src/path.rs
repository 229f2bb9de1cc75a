//! Absolute paths in the form of Unix: a leading `/`, then names separated by `/`.
use vstd::prelude::*;

use crate::text;

verus! {

/// A path is absolute if it starts at the root.
pub open spec fn absolute(path: Seq<char>) -> bool {
    path.len() > 0 && path[0] == '/'
}

/// What one piece between two separators adds to the names of a path: nothing where
/// it is empty or a single dot, itself otherwise.
pub open spec fn names_in(piece: Seq<char>) -> Seq<Seq<char>> {
    if piece.len() == 0 || piece == seq!['.'] {
        Seq::empty()
    } else {
        seq![piece]
    }
}

/// The names below the root of an absolute path.
pub open spec fn names_of(path: Seq<char>) -> Seq<Seq<char>>
    decreases path.len(),
{
    match text::split(path, '/') {
        Some((piece, rest)) => {
            proof {
                text::lemma_split_shorter(path, '/');
            }
            names_in(piece) + names_of(rest)
        },
        None => names_in(path),
    }
}

/// The last of `names`, unless it goes back up.
pub open spec fn last_name(names: Seq<Seq<char>>) -> Option<Seq<char>> {
    if names.len() == 0 || names.last() == seq!['.', '.'] {
        None
    } else {
        Some(names.last())
    }
}

/// The file name of an absolute path.
pub open spec fn file_name_of(path: Seq<char>) -> Option<Seq<char>> {
    last_name(names_of(path))
}

/// `path` appended to the directory `base`; an absolute `path` replaces it.
pub open spec fn joined(base: Seq<char>, path: Seq<char>) -> Seq<char> {
    if absolute(path) {
        path
    } else if base.len() == 0 || base.last() == '/' {
        base + path
    } else {
        base + seq!['/'] + path
    }
}

/// The name at the end of a path `dir/name`.
pub proof fn file_name_of_entry(dir: Seq<char>, name: Seq<char>)
    requires
        name.len() > 0,
        !name.contains('/'),
        name != seq!['.'],
        name != seq!['.', '.'],
    ensures
        names_of(dir + seq!['/'] + name) == names_of(dir).push(name),
        file_name_of(dir + seq!['/'] + name) == Some(name),
    decreases dir.len(),
{
    let path = dir + seq!['/'] + name;
    assert(names_of(name) =~= seq![name]) by {
        assert(text::split(name, '/') is None);
    }
    match text::split(dir, '/') {
        Some((piece, rest)) => {
            let i = choose|i: int| text::first_at(dir, '/', i);
            assert(text::first_at(path, '/', i)) by {
                assert(forall|j: int| 0 <= j <= i ==> path[j] == dir[j]);
            }
            text::lemma_split_at(path, '/', i);
            text::lemma_split_shorter(dir, '/');
            assert(path.subrange(0, i) =~= piece);
            assert(path.subrange(i + 1, path.len() as int) =~= rest + seq!['/'] + name);
            file_name_of_entry(rest, name);
            assert(names_of(path) =~= names_of(dir).push(name));
        },
        None => {
            assert(!dir.contains('/')) by {
                if dir.contains('/') {
                    lemma_first_exists(dir, '/');
                }
            }
            text::split_undoes_join(dir, '/', name);
            assert(names_of(path) =~= names_of(dir).push(name));
        },
    }
}

/// A text that holds `c` has a first `c`.
proof fn lemma_first_exists(s: Seq<char>, c: char)
    requires
        s.contains(c),
    ensures
        exists|i: int| text::first_at(s, c, i),
    decreases s.len(),
{
    let k = choose|k: int| 0 <= k < s.len() && s[k] == c;
    if !text::first_at(s, c, k) {
        let before = s.subrange(0, k);
        let j = choose|j: int| 0 <= j < k && s[j] == c;
        assert(before[j] == c);
        lemma_first_exists(before, c);
        let i = choose|i: int| text::first_at(before, c, i);
        assert(text::first_at(s, c, i)) by {
            assert(forall|m: int| 0 <= m < k ==> before[m] == s[m]);
        }
    }
}

/// Whether `path` is absolute.
pub fn is_absolute(path: &str) -> (result: bool)
    ensures
        result == absolute(path@),
{
    !path.is_empty() && path.get_char(0) == '/'
}

/// Adds to `names` what `piece` names.
fn push_name<'a>(names: &mut Vec<&'a str>, piece: &'a str)
    ensures
        text::texts(final(names)@) == text::texts(old(names)@) + names_in(piece@),
{
    proof {
        reveal_strlit(".");
        assert("."@ =~= seq!['.']);
    }
    if piece.is_empty() || text::same(piece, ".") {
        assert(text::texts(names@) =~= text::texts(old(names)@) + names_in(piece@));
    } else {
        names.push(piece);
        assert(text::texts(names@) =~= text::texts(old(names)@) + names_in(piece@));
    }
}

/// The names below the root of an absolute path.
pub fn names<'a>(path: &'a str) -> (result: Vec<&'a str>)
    ensures
        text::texts(result@) == names_of(path@),
{
    let mut result: Vec<&'a str> = Vec::new();
    let mut rest: &'a str = path;
    assert(text::texts(result@) + names_of(rest@) =~= names_of(path@));
    loop
        invariant
            text::texts(result@) + names_of(rest@) == names_of(path@),
        decreases rest@.len(),
    {
        let ghost before = text::texts(result@);
        match text::split_once(rest, '/') {
            Some((piece, after)) => {
                proof {
                    text::lemma_split_shorter(rest@, '/');
                }
                push_name(&mut result, piece);
                assert(text::texts(result@) + names_of(after@) =~= before + names_of(rest@));
                rest = after;
            },
            None => {
                push_name(&mut result, rest);
                return result;
            },
        }
    }
}

/// The last of the names, unless it goes back up. The first `count` names are looked
/// at.
pub fn last_of<'a>(names: &Vec<&'a str>, count: usize) -> (result: Option<&'a str>)
    requires
        count <= names@.len(),
    ensures
        match result {
            Some(name) => last_name(text::texts(names@).subrange(0, count as int)) == Some(name@),
            None => last_name(text::texts(names@).subrange(0, count as int)) is None,
        },
{
    proof {
        reveal_strlit("..");
        assert(".."@ =~= seq!['.', '.']);
    }
    if count == 0 || text::same(names[count - 1], "..") {
        None
    } else {
        Some(names[count - 1])
    }
}

/// The file name of an absolute path.
pub fn file_name<'a>(path: &'a str) -> (result: Option<&'a str>)
    ensures
        match result {
            Some(name) => file_name_of(path@) == Some(name@),
            None => file_name_of(path@) is None,
        },
{
    let all = names(path);
    assert(text::texts(all@).subrange(0, all@.len() as int) =~= text::texts(all@));
    last_of(&all, all.len())
}

/// `path` appended to the directory `base`; an absolute `path` replaces it.
pub fn join(base: &str, path: &str) -> (result: String)
    ensures
        result@ == joined(base@, path@),
{
    if is_absolute(path) {
        path.to_owned()
    } else {
        let mut result = base.to_owned();
        proof {
            reveal_strlit("/");
            assert("/"@ =~= seq!['/']);
        }
        let length: usize = base.unicode_len();
        if length > 0 && base.get_char(length - 1) != '/' {
            result.append("/");
        }
        result.append(path);
        result
    }
}

/// The path of a file, absolute.
#[derive(Debug)]
pub struct AbsFilePath {
    text: String,
}

impl View for AbsFilePath {
    type V = Seq<char>;

    closed spec fn view(&self) -> Seq<char> {
        self.text@
    }
}

impl AbsFilePath {
    #[verifier::type_invariant]
    spec fn is_absolute(self) -> bool {
        absolute(self.text@)
    }

    /// The path written as `text`, if that is absolute.
    pub fn try_from_str(text: &str) -> (result: Option<Self>)
        ensures
            match result {
                Some(path) => absolute(text@) && path@ == text@,
                None => !absolute(text@),
            },
    {
        if is_absolute(text) {
            Some(AbsFilePath { text: text.to_owned() })
        } else {
            None
        }
    }

    /// The path as text.
    pub fn as_str(&self) -> (result: &str)
        ensures
            result@ == self@,
            absolute(result@),
    {
        proof {
            use_type_invariant(self);
        }
        self.text.as_str()
    }
}

} // verus!
