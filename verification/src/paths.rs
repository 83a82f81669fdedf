//! A plain-string model of filesystem paths.
//!
//! A path is a sequence of characters; `/` separates components. The
//! operations mirror the usual path vocabulary: parent directory, file
//! name, extension (the part of the file name after its last dot, absent
//! for dotless or dot-leading names), joining, prefix stripping and
//! extension replacement.

use vstd::prelude::*;

verus! {

/// Index of the last occurrence of `c` in `s`, or `-1` if absent.
pub open spec fn last_index_of(s: Seq<char>, c: char) -> int
    decreases s.len(),
{
    if s.len() == 0 {
        -1
    } else if s[s.len() - 1] == c {
        s.len() - 1
    } else {
        last_index_of(s.drop_last(), c)
    }
}

/// `last_index_of` is the largest index holding `c`, or `-1` when `c` is absent.
pub proof fn lemma_last_index_of(s: Seq<char>, c: char)
    ensures
        -1 <= last_index_of(s, c) < s.len(),
        last_index_of(s, c) >= 0 ==> s[last_index_of(s, c)] == c,
        forall|j: int| last_index_of(s, c) < j < s.len() ==> s[j] != c,
    decreases s.len(),
{
    if s.len() == 0 {
    } else if s[s.len() - 1] == c {
    } else {
        lemma_last_index_of(s.drop_last(), c);
        assert(forall|j: int| 0 <= j < s.len() - 1 ==> s[j] == s.drop_last()[j]);
    }
}

/// If `i` holds `c` and nothing after it does, then `i` is the last index.
pub proof fn lemma_last_index_of_unique(s: Seq<char>, c: char, i: int)
    requires
        0 <= i < s.len(),
        s[i] == c,
        forall|j: int| i < j < s.len() ==> s[j] != c,
    ensures
        last_index_of(s, c) == i,
{
    lemma_last_index_of(s, c);
}

/// The file name: everything after the last separator (the whole path when
/// it has no separator). May be empty, e.g. for a path ending in `/`.
pub open spec fn file_name_spec(p: Seq<char>) -> Seq<char> {
    p.subrange(last_index_of(p, '/') + 1, p.len() as int)
}

/// The parent directory: everything before the last separator, or `None`
/// when the path has no separator.
pub open spec fn parent_spec(p: Seq<char>) -> Option<Seq<char>> {
    if last_index_of(p, '/') >= 0 {
        Some(p.subrange(0, last_index_of(p, '/')))
    } else {
        None
    }
}

/// The extension: the part of the file name after its last dot. A name
/// without a dot, or whose only dot leads it, has none.
pub open spec fn extension_spec(p: Seq<char>) -> Option<Seq<char>> {
    let name = file_name_spec(p);
    let d = last_index_of(name, '.');
    if d <= 0 {
        None
    } else {
        Some(name.subrange(d + 1, name.len() as int))
    }
}

/// ASCII lowercasing of one character.
pub open spec fn lower_char(c: char) -> char {
    match c {
        'A' => 'a',
        'B' => 'b',
        'C' => 'c',
        'D' => 'd',
        'E' => 'e',
        'F' => 'f',
        'G' => 'g',
        'H' => 'h',
        'I' => 'i',
        'J' => 'j',
        'K' => 'k',
        'L' => 'l',
        'M' => 'm',
        'N' => 'n',
        'O' => 'o',
        'P' => 'p',
        'Q' => 'q',
        'R' => 'r',
        'S' => 's',
        'T' => 't',
        'U' => 'u',
        'V' => 'v',
        'W' => 'w',
        'X' => 'x',
        'Y' => 'y',
        'Z' => 'z',
        _ => c,
    }
}

/// ASCII lowercasing of a character sequence.
pub open spec fn lower_seq(s: Seq<char>) -> Seq<char> {
    s.map_values(|c: char| lower_char(c))
}

/// The extension, ASCII-lowercased.
pub open spec fn extension_lower_spec(p: Seq<char>) -> Option<Seq<char>> {
    match extension_spec(p) {
        Some(e) => Some(lower_seq(e)),
        None => None,
    }
}

/// The lossless extension.
pub open spec fn flac_ext() -> Seq<char> {
    seq!['f', 'l', 'a', 'c']
}

/// The lossy extension.
pub open spec fn mp3_ext() -> Seq<char> {
    seq!['m', 'p', '3']
}

/// A file with the lossless extension, case-insensitively.
pub open spec fn is_lossless(p: Seq<char>) -> bool {
    extension_lower_spec(p) == Some(flac_ext())
}

/// A file with the lossy extension, case-insensitively.
pub open spec fn is_lossy(p: Seq<char>) -> bool {
    extension_lower_spec(p) == Some(mp3_ext())
}

/// Joining a directory and a relative part; joining the empty sequence is
/// the identity, so a root joined with an empty relative path stays itself.
pub open spec fn join_spec(dir: Seq<char>, name: Seq<char>) -> Seq<char> {
    if name.len() == 0 {
        dir
    } else {
        dir + seq!['/'] + name
    }
}

/// The path relative to `root`: empty when `p == root`, the part after
/// `root/` when `p` lies under it, absent otherwise.
pub open spec fn strip_prefix_spec(p: Seq<char>, root: Seq<char>) -> Option<Seq<char>> {
    if p == root {
        Some(Seq::<char>::empty())
    } else if p.len() > root.len() && p.subrange(0, root.len() as int) == root && p[root.len() as int]
        == '/' {
        Some(p.subrange(root.len() as int + 1, p.len() as int))
    } else {
        None
    }
}

/// `name` with its extension replaced by `e`; a name without an extension
/// gets `.e` appended.
pub open spec fn with_ext_spec(name: Seq<char>, e: Seq<char>) -> Seq<char> {
    let d = last_index_of(name, '.');
    let stem = if d <= 0 {
        name
    } else {
        name.subrange(0, d)
    };
    stem + seq!['.'] + e
}

/// Index of the last occurrence of `c` in `s`, if any.
fn rfind_char(s: &str, c: char) -> (r: Option<usize>)
    ensures
        match r {
            Some(i) => i as int == last_index_of(s@, c),
            None => last_index_of(s@, c) == -1,
        },
{
    let n = s.unicode_len();
    let mut i = n;
    while i > 0
        invariant
            i <= n,
            n == s@.len(),
            forall|j: int| i <= j < s@.len() ==> s@[j] != c,
        decreases i,
    {
        i = i - 1;
        if s.get_char(i) == c {
            proof {
                lemma_last_index_of_unique(s@, c, i as int);
            }
            return Some(i);
        }
    }
    proof {
        lemma_last_index_of(s@, c);
    }
    None
}

/// The file name of `p`, or `None` when it is empty.
pub fn file_name_of(p: &str) -> (r: Option<String>)
    ensures
        match r {
            Some(n) => n@ == file_name_spec(p@) && file_name_spec(p@).len() > 0,
            None => file_name_spec(p@).len() == 0,
        },
{
    let n = p.unicode_len();
    proof {
        lemma_last_index_of(p@, '/');
        assert(p@.subrange(0, n as int) =~= p@);
    }
    let start = match rfind_char(p, '/') {
        Some(i) => i + 1,
        None => 0,
    };
    if start == n {
        None
    } else {
        let sub = p.substring_char(start, n);
        Some(sub.to_owned())
    }
}

/// The parent directory of `p`, or `None` when `p` has no separator.
pub fn parent_of(p: &str) -> (r: Option<String>)
    ensures
        match r {
            Some(d) => parent_spec(p@) == Some(d@),
            None => parent_spec(p@) is None,
        },
{
    proof {
        lemma_last_index_of(p@, '/');
    }
    match rfind_char(p, '/') {
        Some(i) => {
            let sub = p.substring_char(0, i);
            Some(sub.to_owned())
        },
        None => None,
    }
}

/// ASCII lowercasing of one character.
fn lower_char_exec(c: char) -> (r: char)
    ensures
        r == lower_char(c),
{
    match c {
        'A' => 'a',
        'B' => 'b',
        'C' => 'c',
        'D' => 'd',
        'E' => 'e',
        'F' => 'f',
        'G' => 'g',
        'H' => 'h',
        'I' => 'i',
        'J' => 'j',
        'K' => 'k',
        'L' => 'l',
        'M' => 'm',
        'N' => 'n',
        'O' => 'o',
        'P' => 'p',
        'Q' => 'q',
        'R' => 'r',
        'S' => 's',
        'T' => 't',
        'U' => 'u',
        'V' => 'v',
        'W' => 'w',
        'X' => 'x',
        'Y' => 'y',
        'Z' => 'z',
        _ => c,
    }
}

/// Case-insensitive (ASCII) equality of two strings.
fn eq_ignore_case(a: &str, b: &str) -> (r: bool)
    ensures
        r == (lower_seq(a@) == lower_seq(b@)),
{
    let na = a.unicode_len();
    let nb = b.unicode_len();
    if na != nb {
        proof {
            assert(lower_seq(a@).len() != lower_seq(b@).len());
        }
        return false;
    }
    let mut i: usize = 0;
    while i < na
        invariant
            i <= na,
            na == a@.len(),
            na == b@.len(),
            forall|j: int| 0 <= j < i ==> lower_char(a@[j]) == lower_char(b@[j]),
        decreases na - i,
    {
        let ca = lower_char_exec(a.get_char(i));
        let cb = lower_char_exec(b.get_char(i));
        if ca != cb {
            proof {
                assert(lower_seq(a@)[i as int] != lower_seq(b@)[i as int]);
            }
            return false;
        }
        i = i + 1;
    }
    proof {
        assert(lower_seq(a@) =~= lower_seq(b@));
    }
    true
}

/// Whether the extension of `p`, lowercased, equals the (already lowercase)
/// `target`.
fn ext_matches(p: &str, target: &str) -> (r: bool)
    ensures
        r == (extension_lower_spec(p@) == Some(lower_seq(target@))),
{
    let n = p.unicode_len();
    proof {
        lemma_last_index_of(p@, '/');
    }
    let start = match rfind_char(p, '/') {
        Some(i) => i + 1,
        None => 0,
    };
    let name = p.substring_char(start, n);
    proof {
        assert(name@ =~= file_name_spec(p@));
    }
    let m = name.unicode_len();
    proof {
        lemma_last_index_of(name@, '.');
    }
    match rfind_char(name, '.') {
        None => false,
        Some(0) => false,
        Some(d) => {
            let ext = name.substring_char(d + 1, m);
            proof {
                assert(ext@ =~= extension_spec(p@).unwrap());
            }
            eq_ignore_case(ext, target)
        },
    }
}

/// Whether `p` names a lossless audio file.
pub fn is_lossless_file(p: &str) -> (r: bool)
    ensures
        r == is_lossless(p@),
{
    let r = ext_matches(p, "flac");
    proof {
        reveal_strlit("flac");
        assert(lower_seq("flac"@) =~= flac_ext());
    }
    r
}

/// Whether `p` names a lossy audio file.
pub fn is_lossy_file(p: &str) -> (r: bool)
    ensures
        r == is_lossy(p@),
{
    let r = ext_matches(p, "mp3");
    proof {
        reveal_strlit("mp3");
        assert(lower_seq("mp3"@) =~= mp3_ext());
    }
    r
}

/// Exact equality of two strings.
fn str_eq(a: &str, b: &str) -> (r: bool)
    ensures
        r == (a@ == b@),
{
    let na = a.unicode_len();
    let nb = b.unicode_len();
    if na != nb {
        return false;
    }
    let mut i: usize = 0;
    while i < na
        invariant
            i <= na,
            na == a@.len(),
            na == b@.len(),
            forall|j: int| 0 <= j < i ==> a@[j] == b@[j],
        decreases na - i,
    {
        if a.get_char(i) != b.get_char(i) {
            return false;
        }
        i = i + 1;
    }
    proof {
        assert(a@ =~= b@);
    }
    true
}

/// `dir` joined with `name`.
pub fn join_path(dir: &str, name: &str) -> (r: String)
    ensures
        r@ == join_spec(dir@, name@),
{
    if name.unicode_len() == 0 {
        proof {
            assert(name@ =~= Seq::<char>::empty());
        }
        dir.to_owned()
    } else {
        let mut s = dir.to_owned();
        s.append("/");
        s.append(name);
        proof {
            reveal_strlit("/");
            assert("/"@ =~= seq!['/']);
        }
        s
    }
}

/// `p` relative to `root`, or `None` when `p` is not rooted under it.
pub fn strip_prefix_of(p: &str, root: &str) -> (r: Option<String>)
    ensures
        match r {
            Some(s) => strip_prefix_spec(p@, root@) == Some(s@),
            None => strip_prefix_spec(p@, root@) is None,
        },
{
    let np = p.unicode_len();
    let nr = root.unicode_len();
    if np == nr {
        if str_eq(p, root) {
            Some(String::new())
        } else {
            None
        }
    } else if np > nr {
        let head = p.substring_char(0, nr);
        if str_eq(head, root) && p.get_char(nr) == '/' {
            let tail = p.substring_char(nr + 1, np);
            proof {
                assert(p@ != root@);
            }
            Some(tail.to_owned())
        } else {
            None
        }
    } else {
        proof {
            assert(p@ != root@);
        }
        None
    }
}

/// `name` with its extension replaced by `e`.
pub fn with_extension_str(name: &str, e: &str) -> (r: String)
    ensures
        r@ == with_ext_spec(name@, e@),
{
    let m = name.unicode_len();
    proof {
        lemma_last_index_of(name@, '.');
    }
    let stem = match rfind_char(name, '.') {
        None => name,
        Some(0) => name,
        Some(d) => name.substring_char(0, d),
    };
    let mut s = stem.to_owned();
    s.append(".");
    s.append(e);
    proof {
        reveal_strlit(".");
        assert("."@ =~= seq!['.']);
        assert(name@.subrange(0, m as int) =~= name@);
    }
    s
}

} // verus!
