//! Small string helpers shared by the other modules.

use vstd::prelude::*;
use vstd::string::StringExecFns;

verus! {

/// Appends one character to a `String` (std's `String::push`).
#[verifier::external_body]
pub(crate) fn push_char(s: &mut String, c: char)
    ensures
        final(s)@ == old(s)@.push(c),
{
    s.push(c);
}

/// The characters of `s`, in order.
pub fn chars_of(s: &str) -> (v: Vec<char>)
    ensures
        v@ == s@,
{
    let mut v: Vec<char> = Vec::new();
    for c in it: s.chars()
        invariant
            v@ == it.seq().take(it.index() as int),
    {
        v.push(c);
    }
    v
}

/// An owned copy of `s`.
pub fn string_of_str(s: &str) -> (r: String)
    ensures
        r@ == s@,
{
    s.to_owned()
}

/// Whether two character vectors hold the same characters.
pub fn chars_eq(a: &Vec<char>, b: &Vec<char>) -> (r: bool)
    ensures
        r == (a@ == b@),
{
    if a.len() != b.len() {
        return false;
    }
    let mut i: usize = 0;
    while i < a.len()
        invariant
            i <= a.len(),
            a.len() == b.len(),
            forall|k: int| 0 <= k < i ==> a@[k] == b@[k],
        decreases a.len() - i,
    {
        if a[i] != b[i] {
            return false;
        }
        i += 1;
    }
    proof {
        assert(a@ =~= b@);
    }
    true
}

/// Appends `t` to `s`.
pub(crate) fn push_str(s: &mut String, t: &str)
    ensures
        final(s)@ == old(s)@ + t@,
{
    s.append(t);
}

/// The decimal digit character for `d < 10`.
pub open spec fn digit_char(d: nat) -> char {
    if d == 0 {
        '0'
    } else if d == 1 {
        '1'
    } else if d == 2 {
        '2'
    } else if d == 3 {
        '3'
    } else if d == 4 {
        '4'
    } else if d == 5 {
        '5'
    } else if d == 6 {
        '6'
    } else if d == 7 {
        '7'
    } else if d == 8 {
        '8'
    } else {
        '9'
    }
}

/// Decimal digits of `n`, most significant first, without leading zeros.
pub open spec fn digits(n: nat) -> Seq<char>
    decreases n,
{
    if n < 10 {
        seq![digit_char(n)]
    } else {
        digits(n / 10).push(digit_char(n % 10))
    }
}

/// The decimal text of `v`, with a leading `-` when negative.
pub open spec fn decimal(v: int) -> Seq<char> {
    if v < 0 {
        seq!['-'] + digits((-v) as nat)
    } else {
        digits(v as nat)
    }
}

fn digit(d: u64) -> (c: char)
    requires
        d < 10,
    ensures
        c == digit_char(d as nat),
{
    if d == 0 {
        '0'
    } else if d == 1 {
        '1'
    } else if d == 2 {
        '2'
    } else if d == 3 {
        '3'
    } else if d == 4 {
        '4'
    } else if d == 5 {
        '5'
    } else if d == 6 {
        '6'
    } else if d == 7 {
        '7'
    } else if d == 8 {
        '8'
    } else {
        '9'
    }
}

fn push_digits(s: &mut String, n: u64)
    ensures
        final(s)@ == old(s)@ + digits(n as nat),
    decreases n,
{
    if n >= 10 {
        push_digits(s, n / 10);
    }
    push_char(s, digit(n % 10));
    proof {
        assert(s@ =~= old(s)@ + digits(n as nat));
    }
}

/// Appends the decimal text of `n` to `s`.
pub fn push_unsigned(s: &mut String, n: u64)
    ensures
        final(s)@ == old(s)@ + digits(n as nat),
{
    push_digits(s, n);
}

/// Appends the decimal text of `v` to `s`.
pub fn push_decimal(s: &mut String, v: i64)
    ensures
        final(s)@ == old(s)@ + decimal(v as int),
{
    if v < 0 {
        push_char(s, '-');
        let mag: u64 = if v == i64::MIN {
            0x8000_0000_0000_0000u64
        } else {
            (-v) as u64
        };
        push_digits(s, mag);
        proof {
            assert(s@ =~= old(s)@ + decimal(v as int));
        }
    } else {
        push_digits(s, v as u64);
    }
}

/// Index of the last `c` among the first `n` characters of `p`, or -1.
pub open spec fn last_index_of(p: Seq<char>, c: char, n: int) -> int
    decreases n,
{
    if n <= 0 {
        -1
    } else if p[n - 1] == c {
        n - 1
    } else {
        last_index_of(p, c, n - 1)
    }
}

/// A path whose syntax reads the same on every platform: `'/'` is its only
/// separator, it has no `'\\'` or `':'` (so no drive or other prefix), and it
/// does not start with `//` (a network share on some platforms).
pub open spec fn portable_path(p: Seq<char>) -> bool {
    &&& forall|i: int| 0 <= i < p.len() ==> p[i] != '\\' && p[i] != ':'
    &&& !(p.len() >= 2 && p[0] == '/' && p[1] == '/')
}

/// The file name of a portable path: what follows its last `'/'`.
pub open spec fn portable_file_name(p: Seq<char>) -> Seq<char> {
    p.subrange(last_index_of(p, '/', p.len() as int) + 1, p.len() as int)
}

/// The file name of a path when every platform agrees on it: a portable
/// path whose part after the last `'/'` is a normal name (not empty, `.` or
/// `..`).
pub open spec fn plain_file_name(p: Seq<char>) -> Option<Seq<char>> {
    let name = portable_file_name(p);
    if portable_path(p) && name.len() > 0 && name != seq!['.'] && name != seq!['.', '.'] {
        Some(name)
    } else {
        None
    }
}

/// Calls `std::path::Path::file_name` and converts the name to a `String`
/// (lossily, which for a path given as `&str` changes nothing). The final
/// component follows the platform's path syntax; stated is what holds on
/// every platform: a file name is a piece of the path, an empty path has
/// none, and a path with a plain file name has exactly that one.
#[verifier::external_body]
fn file_name(p: &str) -> (r: Option<String>)
    ensures
        r matches Some(n) ==> exists|head: Seq<char>, tail: Seq<char>| p@ == head + n@ + tail,
        p@.len() == 0 ==> r is None,
        plain_file_name(p@) is Some ==> r is Some && r.unwrap()@ == plain_file_name(p@).unwrap(),
{
    match std::path::Path::new(p).file_name() {
        Some(n) => Some(n.to_string_lossy().into_owned()),
        None => None,
    }
}

/// `name` is what `basename` gives for `path`: its plain file name when it
/// has one; in any case the path itself or a piece of it.
pub open spec fn shown_name(path: Seq<char>, name: Seq<char>) -> bool {
    &&& plain_file_name(path) is Some ==> name == plain_file_name(path).unwrap()
    &&& path.len() == 0 ==> name.len() == 0
    &&& (name == path || exists|head: Seq<char>, tail: Seq<char>| path == head + name + tail)
}

/// The name of the file a path points to, or the whole path when it has no
/// file name (such as an empty path or one ending in `..`).
pub fn basename(p: &str) -> (s: String)
    ensures
        shown_name(p@, s@),
{
    match file_name(p) {
        Some(n) => n,
        None => string_of_str(p),
    }
}

} // verus!
