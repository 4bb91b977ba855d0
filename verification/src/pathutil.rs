//! Character-level path reasoning: extensions, file stems, and the naming of
//! temporary output files.
//!
//! Paths are handled as UTF-8 strings ('/'-separated); inputs that are not
//! valid UTF-8 are rejected before they reach this module.

use vstd::prelude::*;
use vstd::string::*;

verus! {

/// Index of the last occurrence of `c` in `s`, if any.
pub open spec fn spec_rfind(s: Seq<char>, c: char) -> Option<int>
    decreases s.len(),
{
    if s.len() == 0 {
        None
    } else if s.last() == c {
        Some(s.len() - 1)
    } else {
        spec_rfind(s.drop_last(), c)
    }
}

/// What [`spec_rfind`] finds is the last occurrence.
pub proof fn lemma_rfind_props(s: Seq<char>, c: char)
    ensures
        (match spec_rfind(s, c) {
            Some(k) => 0 <= k < s.len() && s[k] == c && (forall|j: int|
                k < j < s.len() ==> s[j] != c),
            None => forall|j: int| 0 <= j < s.len() ==> s[j] != c,
        }),
    decreases s.len(),
{
    if s.len() > 0 && s.last() != c {
        lemma_rfind_props(s.drop_last(), c);
        assert(forall|j: int| 0 <= j < s.len() - 1 ==> #[trigger] s[j] == s.drop_last()[j]);
    }
}

/// Index where the file name (the part after the last '/') begins.
pub open spec fn spec_name_start(s: Seq<char>) -> int {
    match spec_rfind(s, '/') {
        Some(k) => k + 1,
        None => 0,
    }
}

/// Index of the dot introducing the path's extension, if it has one: the last
/// dot of the file name, provided it is not the name's first character.
pub open spec fn spec_ext_dot(s: Seq<char>) -> Option<int> {
    match spec_rfind(s, '.') {
        Some(k) => if k > spec_name_start(s) {
            Some(k)
        } else {
            None
        },
        None => None,
    }
}

/// Whether the path carries a filename extension.
pub open spec fn spec_has_extension(s: Seq<char>) -> bool {
    spec_ext_dot(s) is Some
}

/// The path's extension (without its dot), if it has one.
pub open spec fn spec_extension(s: Seq<char>) -> Option<Seq<char>> {
    match spec_ext_dot(s) {
        Some(k) => Some(s.subrange(k + 1, s.len() as int)),
        None => None,
    }
}

/// Finds the last occurrence of `c` in `s`.
pub fn rfind_char(s: &str, c: char) -> (r: Option<usize>)
    ensures
        r matches Some(k) ==> spec_rfind(s@, c) == Some(k as int),
        r is None ==> spec_rfind(s@, c) is None,
{
    let n = s.unicode_len();
    proof {
        assert(s@.subrange(0, n as int) =~= s@);
    }
    let mut i = n;
    while i > 0
        invariant
            i <= n,
            n == s@.len(),
            spec_rfind(s@, c) == spec_rfind(s@.subrange(0, i as int), c),
        decreases i,
    {
        i = i - 1;
        let ch = s.get_char(i);
        proof {
            assert(s@.subrange(0, i + 1).last() == s@[i as int]);
            assert(s@.subrange(0, i + 1).drop_last() =~= s@.subrange(0, i as int));
        }
        if ch == c {
            return Some(i);
        }
    }
    None
}

/// The path's extension (without its dot), if it has one; the portion of the
/// file name after its last dot, the dot not being the name's first
/// character.
pub fn extension_of<'a>(s: &'a str) -> (r: Option<&'a str>)
    ensures
        r matches Some(e) ==> spec_extension(s@) == Some(e@),
        r is None ==> !spec_has_extension(s@),
{
    let n = s.unicode_len();
    match rfind_char(s, '.') {
        None => None,
        Some(k) => {
            let start: usize = match rfind_char(s, '/') {
                Some(j) => {
                    proof {
                        lemma_rfind_props(s@, '/');
                    }
                    j + 1
                },
                None => 0,
            };
            proof {
                lemma_rfind_props(s@, '.');
            }
            if k > start {
                Some(s.substring_char(k + 1, n))
            } else {
                None
            }
        },
    }
}

/// Character-for-character string equality.
pub fn str_eq(a: &str, b: &str) -> (r: bool)
    ensures
        r == (a@ == b@),
{
    let n = a.unicode_len();
    if n != b.unicode_len() {
        return false;
    }
    let mut i: usize = 0;
    while i < n
        invariant
            i <= n,
            n == a@.len(),
            n == b@.len(),
            forall|j: int| 0 <= j < i ==> a@[j] == b@[j],
        decreases n - i,
    {
        if a.get_char(i) != b.get_char(i) {
            return false;
        }
        i = i + 1;
    }
    proof {
        assert(a@ =~= b@);
    }
    true
}

/// Whether `s` begins with `prefix`, character for character.
pub fn str_starts_with(s: &str, prefix: &str) -> (r: bool)
    ensures
        r == (s@.len() >= prefix@.len() && s@.subrange(0, prefix@.len() as int) == prefix@),
{
    let n = s.unicode_len();
    let p = prefix.unicode_len();
    if n < p {
        return false;
    }
    let mut i: usize = 0;
    while i < p
        invariant
            i <= p,
            p <= n,
            n == s@.len(),
            p == prefix@.len(),
            forall|j: int| 0 <= j < i ==> s@[j] == prefix@[j],
        decreases p - i,
    {
        if s.get_char(i) != prefix.get_char(i) {
            proof {
                assert(s@.subrange(0, p as int)[i as int] == s@[i as int]);
            }
            return false;
        }
        i = i + 1;
    }
    proof {
        assert(s@.subrange(0, p as int) =~= prefix@);
    }
    true
}

/// The remainder of `path` after its root directory `root`, if `path` lies
/// under `root`: the characters past the prefix, less one separating '/'.
/// The prefix must end at a component boundary, so `inx/a` does not lie
/// under `in`.
pub open spec fn spec_strip_root(root: Seq<char>, path: Seq<char>) -> Option<Seq<char>> {
    if path.len() >= root.len() && path.subrange(0, root.len() as int) == root && (root.len() == 0
        || root.last() == '/' || path.len() == root.len() || path[root.len() as int] == '/') {
        let rest = path.subrange(root.len() as int, path.len() as int);
        if rest.len() > 0 && rest[0] == '/' {
            Some(rest.subrange(1, rest.len() as int))
        } else {
            Some(rest)
        }
    } else {
        None
    }
}

/// The directory part of `path` relative to the tree root `root`: the
/// root-relative path with the file name removed, or "." for a file sitting
/// in the root itself.  `None` when `path` does not lie under `root`.
pub open spec fn spec_rel_dir(root: Seq<char>, path: Seq<char>) -> Option<Seq<char>> {
    match spec_strip_root(root, path) {
        Some(rest) => Some(
            match spec_rfind(rest, '/') {
                Some(k) => if k == 0 {
                    seq!['.']
                } else {
                    rest.subrange(0, k)
                },
                None => seq!['.'],
            },
        ),
        None => None,
    }
}

/// Computes the relative directory of `path` under `root`; see
/// [`spec_rel_dir`].
pub fn rel_dir_of(root: &str, path: &str) -> (r: Option<String>)
    ensures
        r matches Some(s) ==> spec_rel_dir(root@, path@) == Some(s@),
        r is None ==> spec_rel_dir(root@, path@) is None,
{
    if !str_starts_with(path, root) {
        return None;
    }
    let n = path.unicode_len();
    let rl = root.unicode_len();
    let boundary = rl == 0 || path.get_char(rl - 1) == '/' || rl == n || path.get_char(rl) == '/';
    if !boundary {
        return None;
    }
    let start: usize = if rl < n && path.get_char(rl) == '/' {
        rl + 1
    } else {
        rl
    };
    let rest = path.substring_char(start, n);
    proof {
        reveal_strlit(".");
        assert(spec_strip_root(root@, path@) == Some(rest@));
    }
    match rfind_char(rest, '/') {
        None => Some(String::from_str(".")),
        Some(k) => {
            proof {
                lemma_rfind_props(rest@, '/');
            }
            if k == 0 {
                Some(String::from_str("."))
            } else {
                Some(String::from_str(rest.substring_char(0, k)))
            }
        },
    }
}

/// The file stem of `path`: its file name without the extension, the whole
/// name when there is no extension or when the name starts with its only
/// dot, and `None` for an empty file name.
pub open spec fn spec_file_stem(path: Seq<char>) -> Option<Seq<char>> {
    let name = path.subrange(spec_name_start(path), path.len() as int);
    if name.len() == 0 {
        None
    } else {
        match spec_rfind(name, '.') {
            Some(k) => if k == 0 {
                Some(name)
            } else {
                Some(name.subrange(0, k))
            },
            None => Some(name),
        }
    }
}

/// Computes the file stem of `path`; see [`spec_file_stem`].
pub fn file_stem_of(path: &str) -> (r: Option<String>)
    ensures
        r matches Some(s) ==> spec_file_stem(path@) == Some(s@),
        r is None ==> spec_file_stem(path@) is None,
{
    let n = path.unicode_len();
    let start: usize = match rfind_char(path, '/') {
        Some(j) => {
            proof {
                lemma_rfind_props(path@, '/');
            }
            j + 1
        },
        None => 0,
    };
    let name = path.substring_char(start, n);
    proof {
        assert(name@ == path@.subrange(spec_name_start(path@), path@.len() as int));
    }
    if name.unicode_len() == 0 {
        return None;
    }
    match rfind_char(name, '.') {
        Some(k) => {
            proof {
                lemma_rfind_props(name@, '.');
            }
            if k == 0 {
                Some(String::from_str(name))
            } else {
                Some(String::from_str(name.substring_char(0, k)))
            }
        },
        None => Some(String::from_str(name)),
    }
}

/// The hexadecimal digit for `n`, upper case.
pub open spec fn spec_hex_digit(n: int) -> char {
    if n == 0 {
        '0'
    } else if n == 1 {
        '1'
    } else if n == 2 {
        '2'
    } else if n == 3 {
        '3'
    } else if n == 4 {
        '4'
    } else if n == 5 {
        '5'
    } else if n == 6 {
        '6'
    } else if n == 7 {
        '7'
    } else if n == 8 {
        '8'
    } else if n == 9 {
        '9'
    } else if n == 10 {
        'A'
    } else if n == 11 {
        'B'
    } else if n == 12 {
        'C'
    } else if n == 13 {
        'D'
    } else if n == 14 {
        'E'
    } else {
        'F'
    }
}

/// The hexadecimal digit for `n`, as a one-character string.
fn hex_digit_str(n: u16) -> (r: &'static str)
    requires
        n < 16,
    ensures
        r@.len() == 1,
        r@[0] == spec_hex_digit(n as int),
{
    match n {
        0 => {
            proof {
                reveal_strlit("0");
            }
            "0"
        },
        1 => {
            proof {
                reveal_strlit("1");
            }
            "1"
        },
        2 => {
            proof {
                reveal_strlit("2");
            }
            "2"
        },
        3 => {
            proof {
                reveal_strlit("3");
            }
            "3"
        },
        4 => {
            proof {
                reveal_strlit("4");
            }
            "4"
        },
        5 => {
            proof {
                reveal_strlit("5");
            }
            "5"
        },
        6 => {
            proof {
                reveal_strlit("6");
            }
            "6"
        },
        7 => {
            proof {
                reveal_strlit("7");
            }
            "7"
        },
        8 => {
            proof {
                reveal_strlit("8");
            }
            "8"
        },
        9 => {
            proof {
                reveal_strlit("9");
            }
            "9"
        },
        10 => {
            proof {
                reveal_strlit("A");
            }
            "A"
        },
        11 => {
            proof {
                reveal_strlit("B");
            }
            "B"
        },
        12 => {
            proof {
                reveal_strlit("C");
            }
            "C"
        },
        13 => {
            proof {
                reveal_strlit("D");
            }
            "D"
        },
        14 => {
            proof {
                reveal_strlit("E");
            }
            "E"
        },
        _ => {
            proof {
                reveal_strlit("F");
            }
            "F"
        },
    }
}

/// The four upper-case hexadecimal digits of a 16-bit value.
pub open spec fn spec_hex4(x: int) -> Seq<char> {
    seq![
        spec_hex_digit(x / 4096 % 16),
        spec_hex_digit(x / 256 % 16),
        spec_hex_digit(x / 16 % 16),
        spec_hex_digit(x % 16),
    ]
}

/// Formats a 16-bit value as four upper-case hexadecimal digits.
pub fn hex4(x: u16) -> (r: String)
    ensures
        r@ == spec_hex4(x as int),
{
    let mut r = String::new();
    r.append(hex_digit_str(x / 4096 % 16));
    r.append(hex_digit_str(x / 256 % 16));
    r.append(hex_digit_str(x / 16 % 16));
    r.append(hex_digit_str(x % 16));
    proof {
        assert(r@ =~= spec_hex4(x as int));
    }
    r
}

/// The name of the temporary file a writer writes to before the final path
/// is renamed into place: the final path itself, plus a random hexadecimal
/// suffix, plus a `.tmp` extension, so the two stay in one directory.
pub open spec fn spec_tmp_name(path: Seq<char>, x: int) -> Seq<char> {
    path + seq!['.'] + spec_hex4(x) + seq!['.', 't', 'm', 'p']
}

/// Builds the temporary path beside `path` for the random `suffix`.  Only
/// paths that carry an extension get temporary files, as the suffix stands in
/// for part of one.
pub fn tmp_name_for(path: &str, suffix: u16) -> (r: String)
    requires
        spec_has_extension(path@),
    ensures
        r@ == spec_tmp_name(path@, suffix as int),
{
    let mut r = String::from_str(path);
    proof {
        reveal_strlit(".");
        reveal_strlit(".tmp");
    }
    r.append(".");
    let h = hex4(suffix);
    r.append(h.as_str());
    r.append(".tmp");
    proof {
        assert(r@ =~= spec_tmp_name(path@, suffix as int));
    }
    r
}

} // verus!
