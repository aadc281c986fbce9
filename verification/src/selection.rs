//! Text selection and word picking in the two panes of a 2-way diff view,
//! plus the per-hunk helpers the view uses.

use vstd::prelude::*;
use vstd::string::StringSliceAdditionalSpecFns;

use crate::char_diff::{segments_view, Segment};
use crate::commands::{DiffSession, SessionId, SessionMode};
use crate::diff::{join_lines, op_is_equal, strings_view, DiffOp, Hunk};
use crate::text::{chars_of, push_char, string_of_str};
use crate::utf8_offsets::{byte_offset, char_len_utf8, char_starts, lemma_offset_step};

verus! {

/// One of the two panes of a 2-way view.
#[derive(Clone, Copy, PartialEq, Eq, Structural, Debug)]
pub enum Side {
    Left,
    Right,
}

/// The pane that holds keyboard focus.
#[derive(Clone, Copy, PartialEq, Eq, Structural, Debug)]
pub enum FocusedPane {
    TwoWayA,
    TwoWayB,
    ThreeWayBase,
    ThreeWayLocal,
    ThreeWayRemote,
    Result,
}

impl Side {
    pub fn as_focused_pane(self) -> (p: FocusedPane)
        ensures
            p == match self {
                Side::Left => FocusedPane::TwoWayA,
                Side::Right => FocusedPane::TwoWayB,
            },
    {
        match self {
            Side::Left => FocusedPane::TwoWayA,
            Side::Right => FocusedPane::TwoWayB,
        }
    }
}

/// One end of a selection: a 1-based source line and a char column.
#[derive(Clone, Copy, PartialEq, Eq, Structural, Debug)]
pub struct SelPoint {
    pub line_no: u32,
    pub col: usize,
}

/// A selection confined to one pane.
#[derive(Clone, Copy, Debug)]
pub struct Selection {
    pub side: Side,
    pub anchor: SelPoint,
    pub caret: SelPoint,
}

/// Document order on selection points.
pub open spec fn point_le(p: SelPoint, q: SelPoint) -> bool {
    p.line_no < q.line_no || (p.line_no == q.line_no && p.col <= q.col)
}

pub open spec fn ordered_spec(sel: Selection) -> (SelPoint, SelPoint) {
    if point_le(sel.anchor, sel.caret) {
        (sel.anchor, sel.caret)
    } else {
        (sel.caret, sel.anchor)
    }
}

/// The selection's endpoints in document order: top-most first, ties on one
/// line broken by column.
pub fn ordered_endpoints(sel: &Selection) -> (r: (SelPoint, SelPoint))
    ensures
        r == ordered_spec(*sel),
        point_le(r.0, r.1),
{
    let (a, b) = (sel.anchor, sel.caret);
    if a.line_no < b.line_no || (a.line_no == b.line_no && a.col <= b.col) {
        (a, b)
    } else {
        (b, a)
    }
}

// ---------------------------------------------------------------------------
// Double-click word picking
// ---------------------------------------------------------------------------

/// Class of a character for double-click word selection: word characters
/// cluster, whitespace clusters, and each punctuation character stands alone.
#[derive(Clone, Copy, PartialEq, Eq, Structural, Debug)]
pub enum CharClass {
    Word,
    Whitespace,
    Punct,
}

/// `char::is_alphanumeric` of `std` (Unicode alphabetic or numeric).
pub uninterp spec fn unicode_alphanumeric(c: char) -> bool;

/// Whether `c` has the Unicode `White_Space` property: tab through
/// carriage return, space, next line, no-break space, ogham space mark, the
/// spaces from en quad to hair space, line and paragraph separators, narrow
/// no-break space, medium mathematical space and ideographic space.
pub open spec fn unicode_whitespace(c: char) -> bool {
    let v = c as u32;
    (0x09 <= v && v <= 0x0d) || v == 0x20 || v == 0x85 || v == 0xa0 || v == 0x1680 || (0x2000
        <= v && v <= 0x200a) || v == 0x2028 || v == 0x2029 || v == 0x202f || v == 0x205f || v
        == 0x3000
}

/// Whether `c` is alphanumeric in the sense of `char::is_alphanumeric`: among
/// ASCII characters exactly the letters and digits; beyond ASCII, as the
/// Unicode tables say.
pub open spec fn alphanumeric(c: char) -> bool {
    if (c as u32) < 0x80 {
        'a' <= c <= 'z' || 'A' <= c <= 'Z' || '0' <= c <= '9'
    } else {
        unicode_alphanumeric(c)
    }
}

/// Calls `char::is_alphanumeric`; the result is named `unicode_alphanumeric(c)`.
/// Among ASCII characters, exactly the letters and digits are alphanumeric.
#[verifier::external_body]
fn char_is_alphanumeric(c: char) -> (r: bool)
    ensures
        r == unicode_alphanumeric(c),
        r == alphanumeric(c),
{
    c.is_alphanumeric()
}

/// Whether `c` is whitespace in the sense of `char::is_whitespace`: it has
/// the Unicode `White_Space` property.
fn char_is_whitespace(c: char) -> (r: bool)
    ensures
        r == unicode_whitespace(c),
{
    let v = c as u32;
    (0x09 <= v && v <= 0x0d) || v == 0x20 || v == 0x85 || v == 0xa0 || v == 0x1680 || (0x2000
        <= v && v <= 0x200a) || v == 0x2028 || v == 0x2029 || v == 0x202f || v == 0x205f || v
        == 0x3000
}

pub open spec fn class_of(c: char) -> CharClass {
    if alphanumeric(c) || c == '_' {
        CharClass::Word
    } else if unicode_whitespace(c) {
        CharClass::Whitespace
    } else {
        CharClass::Punct
    }
}

pub fn char_class(c: char) -> (r: CharClass)
    ensures
        r == class_of(c),
{
    if char_is_alphanumeric(c) || c == '_' {
        CharClass::Word
    } else if char_is_whitespace(c) {
        CharClass::Whitespace
    } else {
        CharClass::Punct
    }
}

/// Index of the last character among `cs[0..=k]` that starts at or before byte `b`
/// (the first character when none does).
pub open spec fn char_at_byte(cs: Seq<char>, b: int, k: int) -> int
    decreases k,
{
    if k <= 0 {
        0
    } else if byte_offset(cs, k) <= b {
        k
    } else {
        char_at_byte(cs, b, k - 1)
    }
}

/// Start of the run of class `cls` that ends just before index `k`.
pub open spec fn run_start(cs: Seq<char>, k: int, cls: CharClass) -> int
    decreases k,
{
    if k <= 0 || class_of(cs[k - 1]) != cls {
        k
    } else {
        run_start(cs, k - 1, cls)
    }
}

/// End (exclusive) of the run of class `cls` that starts at index `k`.
pub open spec fn run_end(cs: Seq<char>, k: int, cls: CharClass) -> int
    decreases cs.len() - k,
{
    if k >= cs.len() || class_of(cs[k]) != cls {
        k
    } else {
        run_end(cs, k + 1, cls)
    }
}

/// Byte range of the "word" around byte `b` of the text whose characters are `cs`.
pub open spec fn word_bounds(cs: Seq<char>, b: int) -> (int, int) {
    if cs.len() == 0 {
        (0, 0)
    } else {
        let t = char_at_byte(cs, b, cs.len() - 1);
        let cls = class_of(cs[t]);
        if cls == CharClass::Punct {
            (byte_offset(cs, t), byte_offset(cs, t + 1))
        } else {
            (byte_offset(cs, run_start(cs, t, cls)), byte_offset(cs, run_end(cs, t + 1, cls)))
        }
    }
}

proof fn lemma_char_at_byte_range(cs: Seq<char>, b: int, k: int)
    ensures
        k >= 0 ==> 0 <= char_at_byte(cs, b, k) <= k,
    decreases k,
{
    if k > 0 {
        lemma_char_at_byte_range(cs, b, k - 1);
    }
}

proof fn lemma_run_start_range(cs: Seq<char>, k: int, cls: CharClass)
    ensures
        k >= 0 ==> 0 <= run_start(cs, k, cls) <= k,
    decreases k,
{
    if k > 0 {
        lemma_run_start_range(cs, k - 1, cls);
    }
}

proof fn lemma_run_end_range(cs: Seq<char>, k: int, cls: CharClass)
    ensures
        k <= cs.len() ==> k <= run_end(cs, k, cls) <= cs.len(),
    decreases cs.len() - k,
{
    if k < cs.len() {
        lemma_run_end_range(cs, k + 1, cls);
    }
}

proof fn lemma_char_at_byte_props(cs: Seq<char>, b: int, k: int)
    requires
        0 <= k < cs.len(),
    ensures
        0 <= char_at_byte(cs, b, k) <= k,
        char_at_byte(cs, b, k) == 0 || byte_offset(cs, char_at_byte(cs, b, k)) <= b,
        forall|m: int| char_at_byte(cs, b, k) < m <= k ==> byte_offset(cs, m) > b,
    decreases k,
{
    if k > 0 && byte_offset(cs, k) > b {
        lemma_char_at_byte_props(cs, b, k - 1);
    }
}

proof fn lemma_run_start_props(cs: Seq<char>, k: int, cls: CharClass)
    requires
        0 <= k <= cs.len(),
    ensures
        0 <= run_start(cs, k, cls) <= k,
        forall|m: int| run_start(cs, k, cls) <= m < k ==> class_of(#[trigger] cs[m]) == cls,
        run_start(cs, k, cls) == 0 || class_of(cs[run_start(cs, k, cls) - 1]) != cls,
    decreases k,
{
    if k > 0 && class_of(cs[k - 1]) == cls {
        lemma_run_start_props(cs, k - 1, cls);
    }
}

proof fn lemma_run_end_props(cs: Seq<char>, k: int, cls: CharClass)
    requires
        0 <= k <= cs.len(),
    ensures
        k <= run_end(cs, k, cls) <= cs.len(),
        forall|m: int| k <= m < run_end(cs, k, cls) ==> class_of(#[trigger] cs[m]) == cls,
        run_end(cs, k, cls) == cs.len() || class_of(cs[run_end(cs, k, cls)]) != cls,
    decreases cs.len() - k,
{
    if k < cs.len() && class_of(cs[k]) == cls {
        lemma_run_end_props(cs, k + 1, cls);
    }
}

/// What a double click selects, for a non-empty text: the character `t`
/// under the clicked byte (the last one starting at or before it) and the
/// characters `lo..hi` around it, given as byte offsets. A punctuation
/// character is selected alone; otherwise the selection is the whole run of
/// characters of `t`'s class (word characters or whitespace) around `t`,
/// reaching neither into a character of another class nor past one.
pub proof fn lemma_double_click_selects_run(cs: Seq<char>, b: int) -> (r: (int, int, int))
    requires
        cs.len() > 0,
    ensures
        ({
            let (t, lo, hi) = r;
            &&& 0 <= lo <= t < hi <= cs.len()
            &&& t == 0 || byte_offset(cs, t) <= b
            &&& t + 1 == cs.len() || byte_offset(cs, t + 1) > b
            &&& word_bounds(cs, b) == (byte_offset(cs, lo), byte_offset(cs, hi))
            &&& class_of(cs[t]) == CharClass::Punct ==> lo == t && hi == t + 1
            &&& class_of(cs[t]) != CharClass::Punct ==> {
                &&& forall|m: int| lo <= m < hi ==> class_of(#[trigger] cs[m]) == class_of(cs[t])
                &&& lo == 0 || class_of(cs[lo - 1]) != class_of(cs[t])
                &&& hi == cs.len() || class_of(cs[hi]) != class_of(cs[t])
            }
        }),
{
    let n = cs.len() as int;
    lemma_char_at_byte_props(cs, b, n - 1);
    let t = char_at_byte(cs, b, n - 1);
    let cls = class_of(cs[t]);
    if cls == CharClass::Punct {
        (t, t, t + 1)
    } else {
        lemma_run_start_props(cs, t, cls);
        lemma_run_end_props(cs, t + 1, cls);
        let lo = run_start(cs, t, cls);
        let hi = run_end(cs, t + 1, cls);
        assert forall|m: int| lo <= m < hi implies class_of(#[trigger] cs[m]) == cls by {
            if m < t {
            } else if m == t {
            } else {
            }
        }
        (t, lo, hi)
    }
}

/// The byte range of the "word" containing byte `byte_idx` of `s`: a run of
/// word characters, a run of whitespace, or a single punctuation character.
/// `(0, 0)` for an empty string; a `byte_idx` past the end picks the last
/// character.
pub fn double_click_word_bounds(s: &str, byte_idx: usize) -> (r: (usize, usize))
    requires
        s.spec_bytes().len() <= usize::MAX,
    ensures
        r.0 as int == word_bounds(s@, byte_idx as int).0,
        r.1 as int == word_bounds(s@, byte_idx as int).1,
{
    let cs = chars_of(s);
    if cs.len() == 0 {
        return (0, 0);
    }
    let starts = char_starts(s);
    let n = cs.len();
    let mut t: usize = n - 1;
    while t > 0 && starts[t] > byte_idx
        invariant
            t < n,
            n == cs.len(),
            cs@ == s@,
            starts.len() == n + 1,
            forall|k: int| 0 <= k <= n ==> #[trigger] starts[k] == byte_offset(s@, k),
            char_at_byte(s@, byte_idx as int, n - 1) == char_at_byte(s@, byte_idx as int, t as int),
        decreases t,
    {
        t = t - 1;
    }
    let c = cs[t];
    let class = char_class(c);
    if class == CharClass::Punct {
        proof {
            lemma_offset_step(s@, t as int);
            assert(starts[t + 1] == starts[t as int] + crate::utf8_offsets::utf8_width(c));
        }
        return (starts[t], starts[t] + char_len_utf8(c));
    }
    let mut lo = t;
    while lo > 0 && char_class(cs[lo - 1]) == class
        invariant
            lo <= t,
            t < n,
            n == cs.len(),
            cs@ == s@,
            run_start(s@, lo as int, class) == run_start(s@, t as int, class),
        decreases lo,
    {
        lo -= 1;
    }
    let mut hi = t + 1;
    while hi < n && char_class(cs[hi]) == class
        invariant
            t < hi <= n,
            n == cs.len(),
            cs@ == s@,
            run_end(s@, hi as int, class) == run_end(s@, t + 1, class),
        decreases n - hi,
    {
        hi += 1;
    }
    (starts[lo], starts[hi])
}

// ---------------------------------------------------------------------------
// Selection text and splicing
// ---------------------------------------------------------------------------

pub open spec fn min_int(x: int, y: int) -> int {
    if x <= y {
        x
    } else {
        y
    }
}

/// Index of the (1-based) line `line_no` in a list of `n` lines, clamped into range.
pub open spec fn clamp_line(line_no: u32, n: int) -> int {
    min_int(if line_no >= 1 {
        line_no - 1
    } else {
        0
    }, n - 1)
}

/// The lines of the pane `side` owns.
pub open spec fn side_lines(a_lines: Seq<String>, b_lines: Seq<String>, side: Side) -> Seq<String> {
    match side {
        Side::Left => a_lines,
        Side::Right => b_lines,
    }
}

/// The character range `[l, h)` taken from line `i` of a selection spanning
/// clamped lines `s..=e`.
pub open spec fn piece_bounds(lines: Seq<Seq<char>>, s: int, e: int, lo: SelPoint, hi: SelPoint, i: int) -> (
    int,
    int,
) {
    let len = lines[i].len() as int;
    (
        min_int(if i == s {
            lo.col as int
        } else {
            0
        }, len),
        min_int(if i == e {
            hi.col as int
        } else {
            len
        }, len),
    )
}

/// The selected part of each line the selection spans, top to bottom.
pub open spec fn selection_pieces(lines: Seq<Seq<char>>, lo: SelPoint, hi: SelPoint) -> Seq<
    Seq<char>,
> {
    let s = clamp_line(lo.line_no, lines.len() as int);
    let e = clamp_line(hi.line_no, lines.len() as int);
    Seq::new(
        (e - s + 1) as nat,
        |k: int|
            lines[s + k].subrange(
                piece_bounds(lines, s, e, lo, hi, s + k).0,
                piece_bounds(lines, s, e, lo, hi, s + k).1,
            ),
    )
}

/// The text covered by `sel` in its pane: the selected pieces joined by newlines.
pub open spec fn selection_text(a_lines: Seq<String>, b_lines: Seq<String>, sel: Selection) -> Seq<
    char,
> {
    let lines = strings_view(side_lines(a_lines, b_lines, sel.side));
    if lines.len() == 0 {
        Seq::empty()
    } else {
        join_lines(selection_pieces(lines, ordered_spec(sel).0, ordered_spec(sel).1))
    }
}

/// The selection can be read without a reversed range on a single clamped line.
pub open spec fn selection_readable(a_lines: Seq<String>, b_lines: Seq<String>, sel: Selection) -> bool {
    let lines = strings_view(side_lines(a_lines, b_lines, sel.side));
    let lo = ordered_spec(sel).0;
    let hi = ordered_spec(sel).1;
    let s = clamp_line(lo.line_no, lines.len() as int);
    let e = clamp_line(hi.line_no, lines.len() as int);
    lines.len() > 0 && s == e ==> piece_bounds(lines, s, e, lo, hi, s).0 <= piece_bounds(
        lines,
        s,
        e,
        lo,
        hi,
        s,
    ).1
}

/// Appends `cs[from..to]` to `out`.
fn push_range(out: &mut String, cs: &Vec<char>, from: usize, to: usize)
    requires
        from <= to <= cs.len(),
    ensures
        final(out)@ == old(out)@ + cs@.subrange(from as int, to as int),
{
    let mut k = from;
    while k < to
        invariant
            from <= k <= to,
            to <= cs.len(),
            out@ == old(out)@ + cs@.subrange(from as int, k as int),
        decreases to - k,
    {
        push_char(out, cs[k]);
        k += 1;
        proof {
            assert(out@ =~= old(out)@ + cs@.subrange(from as int, k as int));
        }
    }
}

fn pick_side<'a>(a_lines: &'a [String], b_lines: &'a [String], side: Side) -> (r: &'a [String])
    ensures
        r@ == side_lines(a_lines@, b_lines@, side),
{
    match side {
        Side::Left => a_lines,
        Side::Right => b_lines,
    }
}

/// The text of the selected range of `sel`'s pane, lines joined by `'\n'`.
/// Line numbers are clamped to the pane's lines; an empty pane gives "".
pub fn extract_lines_text(a_lines: &[String], b_lines: &[String], sel: &Selection) -> (out:
    String)
    requires
        selection_readable(a_lines@, b_lines@, *sel),
    ensures
        out@ == selection_text(a_lines@, b_lines@, *sel),
{
    let source = pick_side(a_lines, b_lines, sel.side);
    let ghost lines = strings_view(source@);
    if source.len() == 0 {
        return String::new();
    }
    let (lo, hi) = ordered_endpoints(sel);
    let last = source.len() - 1;
    let s_line = if lo.line_no >= 1 {
        (lo.line_no - 1) as usize
    } else {
        0
    };
    let e_line = if hi.line_no >= 1 {
        (hi.line_no - 1) as usize
    } else {
        0
    };
    let s_idx = if s_line <= last {
        s_line
    } else {
        last
    };
    let e_idx = if e_line <= last {
        e_line
    } else {
        last
    };
    let ghost pieces = selection_pieces(lines, lo, hi);
    proof {
        assert(s_idx == clamp_line(lo.line_no, lines.len() as int));
        assert(e_idx == clamp_line(hi.line_no, lines.len() as int));
        assert(s_idx <= e_idx);
    }
    let mut out = String::new();
    let mut i = s_idx;
    while i <= e_idx
        invariant
            s_idx <= i <= e_idx + 1,
            e_idx < source.len(),
            lines == strings_view(source@),
            s_idx == clamp_line(lo.line_no, lines.len() as int),
            e_idx == clamp_line(hi.line_no, lines.len() as int),
            pieces == selection_pieces(lines, lo, hi),
            s_idx == e_idx ==> piece_bounds(lines, s_idx as int, e_idx as int, lo, hi, s_idx as int).0
                <= piece_bounds(lines, s_idx as int, e_idx as int, lo, hi, s_idx as int).1,
            i == s_idx ==> out@ == Seq::<char>::empty(),
            s_idx < i <= e_idx ==> out@ == join_lines(pieces.take(i - s_idx)) + seq!['\n'],
            i == e_idx + 1 ==> out@ == join_lines(pieces),
        decreases e_idx + 1 - i,
    {
        let chars = chars_of(source[i].as_str());
        let n = chars.len();
        let l0 = if i == s_idx {
            lo.col
        } else {
            0
        };
        let h0 = if i == e_idx {
            hi.col
        } else {
            n
        };
        let l = if l0 <= n {
            l0
        } else {
            n
        };
        let h = if h0 <= n {
            h0
        } else {
            n
        };
        proof {
            assert(chars@ == lines[i as int]);
            assert((l as int, h as int) == piece_bounds(
                lines,
                s_idx as int,
                e_idx as int,
                lo,
                hi,
                i as int,
            ));
            assert(pieces[i - s_idx] == chars@.subrange(l as int, h as int));
            assert(l <= h);
        }
        let ghost before = out@;
        push_range(&mut out, &chars, l, h);
        proof {
            let k = i - s_idx;
            assert(pieces.take(k + 1) =~= pieces.take(k).push(pieces[k]));
            if i == s_idx {
                assert(pieces.take(1) =~= seq![pieces[0]]);
                assert(out@ =~= join_lines(pieces.take(1)));
            } else {
                assert(pieces.take(k + 1).drop_last() =~= pieces.take(k));
                assert(out@ =~= join_lines(pieces.take(k + 1)));
            }
            if i == e_idx {
                assert(pieces.take(k + 1) =~= pieces);
            }
        }
        if i < e_idx {
            push_char(&mut out, '\n');
        }
        i += 1;
    }
    out
}

/// Select all of `side`: from the first character to the end of the last line.
pub fn select_all_lines(a_lines: &[String], b_lines: &[String], side: Side) -> (r: Option<Selection>)
    requires
        side_lines(a_lines@, b_lines@, side).len() <= u32::MAX,
    ensures
        side_lines(a_lines@, b_lines@, side).len() == 0 ==> r is None,
        side_lines(a_lines@, b_lines@, side).len() > 0 ==> r == Some(
            Selection {
                side,
                anchor: SelPoint { line_no: 1, col: 0 },
                caret: SelPoint {
                    line_no: side_lines(a_lines@, b_lines@, side).len() as u32,
                    col: side_lines(a_lines@, b_lines@, side).last()@.len() as usize,
                },
            },
        ),
{
    let source = pick_side(a_lines, b_lines, side);
    if source.len() == 0 {
        return None;
    }
    let last_idx = source.len() - 1;
    let last_chars = chars_of(source[last_idx].as_str()).len();
    Some(
        Selection {
            side,
            anchor: SelPoint { line_no: 1, col: 0 },
            caret: SelPoint { line_no: (last_idx as u32) + 1, col: last_chars },
        },
    )
}

/// Replacement of lines `start..end` of one pane's lines by `replacement`,
/// in session `session_id`.
pub struct LineSplice {
    pub session_id: SessionId,
    pub side: Side,
    pub start: usize,
    pub end: usize,
    pub replacement: Vec<String>,
}

/// The single line left after deleting the selection: the kept head of its
/// first line followed by the kept tail of its last line.
pub open spec fn merged_line(lines: Seq<Seq<char>>, lo: SelPoint, hi: SelPoint) -> Seq<char> {
    let first = lines[lo.line_no - 1];
    let last = lines[hi.line_no - 1];
    first.take(min_int(lo.col as int, first.len() as int)) + last.skip(
        min_int(hi.col as int, last.len() as int),
    )
}

/// Deleting the selection changes something: its lines exist and it is not
/// an empty range on one line.
pub open spec fn splice_applies(lines: Seq<Seq<char>>, lo: SelPoint, hi: SelPoint) -> bool {
    &&& lo.line_no >= 1
    &&& hi.line_no >= 1
    &&& lo.line_no - 1 < lines.len()
    &&& hi.line_no - 1 < lines.len()
    &&& !(lo.line_no == hi.line_no && min_int(lo.col as int, lines[lo.line_no - 1].len() as int)
        == min_int(hi.col as int, lines[hi.line_no - 1].len() as int))
}

/// The splice that deletes the text covered by `sel`: the lines it spans are
/// replaced by one line, the kept head of the first joined to the kept tail of
/// the last, as a text editor does. `None` for an empty selection or one that
/// refers to lines that do not exist.
pub fn splice_lines(a_lines: &[String], b_lines: &[String], sel: &Selection, session_id: SessionId) -> (r: Option<
    LineSplice,
>)
    ensures
        ({
            let lines = strings_view(side_lines(a_lines@, b_lines@, sel.side));
            let lo = ordered_spec(*sel).0;
            let hi = ordered_spec(*sel).1;
            &&& r is Some <==> splice_applies(lines, lo, hi)
            &&& r matches Some(sp) ==> {
                &&& sp.session_id == session_id
                &&& sp.side == sel.side
                &&& sp.start == lo.line_no - 1
                &&& sp.end == hi.line_no
                &&& strings_view(sp.replacement@) == seq![merged_line(lines, lo, hi)]
            }
        }),
{
    let source = pick_side(a_lines, b_lines, sel.side);
    let ghost lines = strings_view(source@);
    let (lo, hi) = ordered_endpoints(sel);
    if lo.line_no == 0 || hi.line_no == 0 {
        return None;
    }
    let s_idx = (lo.line_no - 1) as usize;
    let e_idx = (hi.line_no - 1) as usize;
    if s_idx >= source.len() || e_idx >= source.len() {
        return None;
    }
    let first_chars = chars_of(source[s_idx].as_str());
    let last_chars = chars_of(source[e_idx].as_str());
    let s_col = if lo.col <= first_chars.len() {
        lo.col
    } else {
        first_chars.len()
    };
    let e_col = if hi.col <= last_chars.len() {
        hi.col
    } else {
        last_chars.len()
    };
    proof {
        assert(first_chars@ == lines[s_idx as int]);
        assert(last_chars@ == lines[e_idx as int]);
    }
    if lo.line_no == hi.line_no && s_col == e_col {
        return None;
    }
    let mut merged = String::new();
    push_range(&mut merged, &first_chars, 0, s_col);
    push_range(&mut merged, &last_chars, e_col, last_chars.len());
    proof {
        assert(merged@ =~= merged_line(lines, lo, hi));
    }
    let mut replacement: Vec<String> = Vec::new();
    replacement.push(merged);
    proof {
        assert(strings_view(replacement@) =~= seq![merged_line(lines, lo, hi)]);
    }
    Some(LineSplice { session_id, side: sel.side, start: s_idx, end: e_idx + 1, replacement })
}

// ---------------------------------------------------------------------------
// Hunk helpers
// ---------------------------------------------------------------------------

/// The hunk holds at least one delete or insert.
pub open spec fn hunk_is_change(h: Hunk) -> bool {
    exists|k: int| 0 <= k < h.ops@.len() && !op_is_equal(#[trigger] h.ops@[k])
}

pub fn is_change_hunk(h: &Hunk) -> (r: bool)
    ensures
        r == hunk_is_change(*h),
{
    let mut k: usize = 0;
    while k < h.ops.len()
        invariant
            k <= h.ops.len(),
            forall|x: int| 0 <= x < k ==> op_is_equal(#[trigger] h.ops@[x]),
        decreases h.ops.len() - k,
    {
        match &h.ops[k] {
            DiffOp::Equal { .. } => {},
            _ => {
                return true;
            },
        }
        k += 1;
    }
    false
}

/// A single unhighlighted segment holding `text`.
pub fn plain(text: &str) -> (segs: Vec<Segment>)
    ensures
        segments_view(segs@) == seq![(text@, false)],
{
    let mut segs: Vec<Segment> = Vec::new();
    segs.push(Segment { text: string_of_str(text), hl: false });
    proof {
        assert(segments_view(segs@) =~= seq![(text@, false)]);
    }
    segs
}

/// Index of the first change hunk at or after `k` (`hunks.len()` if none).
pub open spec fn first_change_from(hunks: Seq<Hunk>, k: int) -> int
    decreases hunks.len() - k,
{
    if k >= hunks.len() {
        hunks.len() as int
    } else if hunk_is_change(hunks[k]) {
        k
    } else {
        first_change_from(hunks, k + 1)
    }
}

pub open spec fn max_u32(x: u32, y: u32) -> u32 {
    if x >= y {
        x
    } else {
        y
    }
}

/// Largest left / right range end over `hunks` (0 when none).
pub open spec fn max_end(hunks: Seq<Hunk>, left: bool) -> u32
    decreases hunks.len(),
{
    if hunks.len() == 0 {
        0
    } else {
        max_u32(
            max_end(hunks.drop_last(), left),
            if left {
                hunks.last().a_range.1
            } else {
                hunks.last().b_range.1
            },
        )
    }
}

/// Start line on one side of the first change hunk: its own first line, or,
/// for a side the hunk does not touch, the line after everything before it.
pub open spec fn change_start(hunks: Seq<Hunk>, k: int, left: bool) -> int {
    let r = if left {
        hunks[k].a_range
    } else {
        hunks[k].b_range
    };
    if r == (0u32, 0u32) {
        max_end(hunks.take(k), left) + 1
    } else {
        r.0 as int
    }
}

pub open spec fn first_change_spec(hunks: Seq<Hunk>) -> Option<(int, int)> {
    let k = first_change_from(hunks, 0);
    if k == hunks.len() {
        None
    } else {
        Some((change_start(hunks, k, true), change_start(hunks, k, false)))
    }
}

proof fn lemma_first_change_range(hunks: Seq<Hunk>, k: int)
    requires
        0 <= k <= hunks.len(),
    ensures
        k <= first_change_from(hunks, k) <= hunks.len(),
        forall|x: int| k <= x < first_change_from(hunks, k) ==> !hunk_is_change(#[trigger] hunks[x]),
        first_change_from(hunks, k) < hunks.len() ==> hunk_is_change(
            hunks[first_change_from(hunks, k)],
        ),
    decreases hunks.len() - k,
{
    if k < hunks.len() && !hunk_is_change(hunks[k]) {
        lemma_first_change_range(hunks, k + 1);
    }
}

/// The 1-based `(left, right)` lines of the first change hunk, for landing
/// the view on the first difference; `None` when every hunk is equal.
pub fn first_change_lines(hunks: &[Hunk]) -> (r: Option<(u32, u32)>)
    requires
        ({
            let k = first_change_from(hunks@, 0);
            k < hunks@.len() ==> change_start(hunks@, k, true) <= u32::MAX && change_start(
                hunks@,
                k,
                false,
            ) <= u32::MAX
        }),
    ensures
        r matches Some(p) ==> first_change_spec(hunks@) == Some((p.0 as int, p.1 as int)),
        r is None ==> first_change_spec(hunks@) is None,
{
    let mut prev_a_end: u32 = 0;
    let mut prev_b_end: u32 = 0;
    let mut i: usize = 0;
    proof {
        lemma_first_change_range(hunks@, 0);
        assert(hunks@.take(0) =~= Seq::<Hunk>::empty());
    }
    while i < hunks.len()
        invariant
            i <= hunks.len(),
            i <= first_change_from(hunks@, 0),
            first_change_from(hunks@, 0) <= hunks.len(),
            forall|x: int|
                0 <= x < first_change_from(hunks@, 0) ==> !hunk_is_change(#[trigger] hunks@[x]),
            first_change_from(hunks@, 0) < hunks@.len() ==> hunk_is_change(
                hunks@[first_change_from(hunks@, 0)],
            ),
            prev_a_end == max_end(hunks@.take(i as int), true),
            prev_b_end == max_end(hunks@.take(i as int), false),
            ({
                let k = first_change_from(hunks@, 0);
                k < hunks@.len() ==> change_start(hunks@, k, true) <= u32::MAX && change_start(
                    hunks@,
                    k,
                    false,
                ) <= u32::MAX
            }),
        decreases hunks.len() - i,
    {
        let h = &hunks[i];
        if is_change_hunk(h) {
            proof {
                if i < first_change_from(hunks@, 0) {
                    assert(!hunk_is_change(hunks@[i as int]));
                }
            }
            let a = if h.a_range.0 == 0 && h.a_range.1 == 0 {
                prev_a_end + 1
            } else {
                h.a_range.0
            };
            let b = if h.b_range.0 == 0 && h.b_range.1 == 0 {
                prev_b_end + 1
            } else {
                h.b_range.0
            };
            return Some((a, b));
        }
        proof {
            assert(hunks@.take(i + 1).drop_last() =~= hunks@.take(i as int));
        }
        prev_a_end = if h.a_range.1 >= prev_a_end {
            h.a_range.1
        } else {
            prev_a_end
        };
        prev_b_end = if h.b_range.1 >= prev_b_end {
            h.b_range.1
        } else {
            prev_b_end
        };
        i += 1;
    }
    None
}


/// The selection that covers a whole pane of `n` lines whose last line has
/// `last_len` characters, as `select_all` makes it.
pub open spec fn whole_pane(side: Side, n: u32, last_len: usize) -> Selection {
    Selection {
        side,
        anchor: SelPoint { line_no: 1, col: 0 },
        caret: SelPoint { line_no: n, col: last_len },
    }
}

/// Selecting all of a pane and copying the selection gives the pane's
/// whole text.
pub proof fn lemma_select_all_copies_everything(a: Seq<String>, b: Seq<String>, side: Side)
    requires
        0 < side_lines(a, b, side).len() <= u32::MAX,
        side_lines(a, b, side).last()@.len() <= usize::MAX,
    ensures
        ({
            let lines = side_lines(a, b, side);
            let sel = whole_pane(side, lines.len() as u32, lines.last()@.len() as usize);
            &&& selection_readable(a, b, sel)
            &&& selection_text(a, b, sel) == join_lines(strings_view(lines))
        }),
{
    let lines = side_lines(a, b, side);
    let sv = strings_view(lines);
    let n = lines.len() as int;
    let sel = whole_pane(side, n as u32, lines.last()@.len() as usize);
    let lo = ordered_spec(sel).0;
    let hi = ordered_spec(sel).1;
    assert(lo == sel.anchor && hi == sel.caret);
    let s = clamp_line(lo.line_no, n);
    let e = clamp_line(hi.line_no, n);
    assert(s == 0 && e == n - 1);
    let pieces = selection_pieces(sv, lo, hi);
    assert forall|k: int| 0 <= k < n implies #[trigger] pieces[k] == sv[k] by {
        let pb = piece_bounds(sv, s, e, lo, hi, k);
        assert(sv[k] == lines[k]@);
        if k == e {
            assert(sv[k] == lines.last()@);
        }
        assert(pb == (0int, sv[k].len() as int));
        assert(sv[k].subrange(0, sv[k].len() as int) =~= sv[k]);
    }
    assert(pieces =~= sv);
}


/// The one-letter tag a pane's rail shows: `L` or `R`.
pub fn side_tag(side: Side) -> (t: &'static str)
    ensures
        t@ == if side == Side::Left {
            "L"@
        } else {
            "R"@
        },
{
    match side {
        Side::Left => "L",
        Side::Right => "R",
    }
}


// ---------------------------------------------------------------------------
// Selections in a session
// ---------------------------------------------------------------------------

/// The text covered by `sel` in a two-way session; nothing in a three-way
/// one.
pub fn extract_selection_text(snap: &DiffSession, sel: &Selection) -> (out: String)
    requires
        snap.mode matches SessionMode::TwoWay { a_lines, b_lines, .. } ==> selection_readable(
            a_lines@,
            b_lines@,
            *sel,
        ),
    ensures
        match snap.mode {
            SessionMode::TwoWay { a_lines, b_lines, .. } => out@ == selection_text(
                a_lines@,
                b_lines@,
                *sel,
            ),
            SessionMode::ThreeWay { .. } => out@.len() == 0,
        },
{
    match &snap.mode {
        SessionMode::TwoWay { a_lines, b_lines, .. } => extract_lines_text(
            a_lines.as_slice(),
            b_lines.as_slice(),
            sel,
        ),
        SessionMode::ThreeWay { .. } => String::new(),
    }
}

/// Select the whole of pane `side` of a two-way session: `None` for an empty
/// pane or a three-way session.
pub fn select_all(snap: &DiffSession, side: Side) -> (r: Option<Selection>)
    requires
        snap.mode matches SessionMode::TwoWay { a_lines, b_lines, .. } ==> side_lines(
            a_lines@,
            b_lines@,
            side,
        ).len() <= u32::MAX,
    ensures
        match snap.mode {
            SessionMode::TwoWay { a_lines, b_lines, .. } => {
                let lines = side_lines(a_lines@, b_lines@, side);
                &&& lines.len() == 0 ==> r is None
                &&& lines.len() > 0 ==> r == Some(
                    whole_pane(side, lines.len() as u32, lines.last()@.len() as usize),
                )
            },
            SessionMode::ThreeWay { .. } => r is None,
        },
{
    match &snap.mode {
        SessionMode::TwoWay { a_lines, b_lines, .. } => select_all_lines(
            a_lines.as_slice(),
            b_lines.as_slice(),
            side,
        ),
        SessionMode::ThreeWay { .. } => None,
    }
}

/// The edit that deletes the text `sel` covers in a two-way session, for
/// session `session_id`; `None` in a three-way session, for an empty
/// selection, or for one whose lines do not exist.
pub fn build_selection_splice(snap: &DiffSession, sel: &Selection, session_id: SessionId) -> (r:
    Option<LineSplice>)
    ensures
        match snap.mode {
            SessionMode::TwoWay { a_lines, b_lines, .. } => {
                let lines = strings_view(side_lines(a_lines@, b_lines@, sel.side));
                let lo = ordered_spec(*sel).0;
                let hi = ordered_spec(*sel).1;
                &&& r is Some <==> splice_applies(lines, lo, hi)
                &&& r matches Some(sp) ==> {
                    &&& sp.session_id == session_id
                    &&& sp.side == sel.side
                    &&& sp.start == lo.line_no - 1
                    &&& sp.end == hi.line_no
                    &&& strings_view(sp.replacement@) == seq![merged_line(lines, lo, hi)]
                }
            },
            SessionMode::ThreeWay { .. } => r is None,
        },
{
    match &snap.mode {
        SessionMode::TwoWay { a_lines, b_lines, .. } => splice_lines(
            a_lines.as_slice(),
            b_lines.as_slice(),
            sel,
            session_id,
        ),
        SessionMode::ThreeWay { .. } => None,
    }
}


proof fn lemma_join_prefix(a: Seq<char>, v: Seq<Seq<char>>)
    requires
        v.len() >= 1,
    ensures
        a + join_lines(v) == join_lines(v.update(0, a + v[0])),
    decreases v.len(),
{
    let w = v.update(0, a + v[0]);
    if v.len() == 1 {
        assert(a + join_lines(v) =~= join_lines(w));
    } else {
        lemma_join_prefix(a, v.drop_last());
        assert(w.drop_last() =~= v.drop_last().update(0, a + v[0]));
        assert(w.last() == v.last());
        assert(a + join_lines(v) =~= join_lines(w));
    }
}

proof fn lemma_join_suffix(v: Seq<Seq<char>>, b: Seq<char>)
    requires
        v.len() >= 1,
    ensures
        join_lines(v) + b == join_lines(v.update(v.len() - 1, v[v.len() - 1] + b)),
{
    let w = v.update(v.len() - 1, v[v.len() - 1] + b);
    if v.len() == 1 {
        assert(join_lines(v) + b =~= join_lines(w));
    } else {
        assert(w.drop_last() =~= v.drop_last());
        assert(join_lines(v) + b =~= join_lines(w));
    }
}

/// Deleting a selection keeps the head of its first line and the tail of
/// its last line; the text the selection covers, put back between them,
/// rebuilds the lines the deletion replaces.
pub proof fn lemma_splice_rebuilds_lines(lines: Seq<Seq<char>>, lo: SelPoint, hi: SelPoint)
    requires
        splice_applies(lines, lo, hi),
        point_le(lo, hi),
    ensures
        ({
            let first = lines[lo.line_no - 1];
            let last = lines[hi.line_no - 1];
            let s = min_int(lo.col as int, first.len() as int);
            let e = min_int(hi.col as int, last.len() as int);
            &&& merged_line(lines, lo, hi) == first.take(s) + last.skip(e)
            &&& first.take(s) + join_lines(selection_pieces(lines, lo, hi)) + last.skip(e)
                == join_lines(lines.subrange(lo.line_no - 1, hi.line_no as int))
        }),
{
    let n_lines = lines.len() as int;
    let si = lo.line_no - 1;
    let ei = hi.line_no - 1;
    let first = lines[si];
    let last = lines[ei];
    let s = min_int(lo.col as int, first.len() as int);
    let e = min_int(hi.col as int, last.len() as int);
    assert(clamp_line(lo.line_no, n_lines) == si);
    assert(clamp_line(hi.line_no, n_lines) == ei);
    let p = selection_pieces(lines, lo, hi);
    let n = ei - si + 1;
    assert(p.len() == n);
    let t = lines.subrange(si, ei + 1);
    let p1 = p.update(0, first.take(s) + p[0]);
    let p2 = p1.update(n - 1, p1[n - 1] + last.skip(e));
    lemma_join_prefix(first.take(s), p);
    lemma_join_suffix(p1, last.skip(e));
    assert forall|k: int| 0 <= k < n implies #[trigger] p2[k] == t[k] by {
        let b = piece_bounds(lines, si, ei, lo, hi, si + k);
        assert(p[k] == lines[si + k].subrange(b.0, b.1));
        if n == 1 {
            assert(lo.col <= hi.col);
            assert(p2[k] =~= first.take(s) + first.subrange(s, e) + last.skip(e));
            assert(p2[k] =~= t[k]);
        } else if k == 0 {
            assert(p2[k] =~= first.take(s) + first.subrange(s, first.len() as int));
            assert(p2[k] =~= t[k]);
        } else if k == n - 1 {
            assert(p2[k] =~= last.subrange(0, e) + last.skip(e));
            assert(p2[k] =~= t[k]);
        } else {
            assert(p2[k] =~= t[k]);
        }
    }
    assert(p2 =~= t);
}

/// In a two-way session, when deleting a selection applies (its splice is
/// built), the selection can be copied, and the kept head of its first line,
/// the copied text and the kept tail of its last line spell out the lines
/// the splice replaces.
pub proof fn lemma_splice_and_copy_agree(snap: DiffSession, sel: Selection)
    requires
        snap.mode is TwoWay,
        splice_applies(
            strings_view(side_lines(snap.mode->a_lines@, snap.mode->b_lines@, sel.side)),
            ordered_spec(sel).0,
            ordered_spec(sel).1,
        ),
    ensures
        ({
            let a = snap.mode->a_lines@;
            let b = snap.mode->b_lines@;
            let lines = strings_view(side_lines(a, b, sel.side));
            let lo = ordered_spec(sel).0;
            let hi = ordered_spec(sel).1;
            let first = lines[lo.line_no - 1];
            let last = lines[hi.line_no - 1];
            &&& selection_readable(a, b, sel)
            &&& first.take(min_int(lo.col as int, first.len() as int)) + selection_text(a, b, sel)
                + last.skip(min_int(hi.col as int, last.len() as int)) == join_lines(
                lines.subrange(lo.line_no - 1, hi.line_no as int),
            )
        }),
{
    let a = snap.mode->a_lines@;
    let b = snap.mode->b_lines@;
    let lines = strings_view(side_lines(a, b, sel.side));
    let lo = ordered_spec(sel).0;
    let hi = ordered_spec(sel).1;
    assert(point_le(lo, hi));
    lemma_splice_rebuilds_lines(lines, lo, hi);
    assert(strings_view(side_lines(a, b, sel.side)).len() == side_lines(a, b, sel.side).len());
}

} // verus!
