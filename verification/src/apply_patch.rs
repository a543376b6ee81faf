//! Unified-diff patch application: parsing `@@`-headed hunks out of a patch
//! text and applying them, last hunk first, to a document's lines, with the
//! expected context compared under whitespace normalization. Application is
//! all-or-nothing: any mismatch rejects the whole patch.

use vstd::prelude::*;

use crate::error::ToolError;
use crate::search_replace_edit::normalize_whitespace;
use crate::text::chars_to_string;
use crate::text::dec_str;
use crate::text::find_first_occurrence;
use crate::text::first_occurrence;
use crate::text::is_blank;
use crate::text::is_blank_line;
use crate::text::is_digit_char;
use crate::text::is_whitespace_char;
use crate::text::is_ws_char;
use crate::text::join_lines;
use crate::text::join_nl;
use crate::text::lemma_first_occurrence_from;
use crate::text::lines_of;
use crate::text::norm_ws;
use crate::text::split_into_lines;
use crate::text::str_to_chars;

verus! {

/// One parsed hunk: the `@@ -old_start[,old_count] +new_start[,new_count] @@`
/// header values and the body lines sorted into the lines expected in the old
/// document (context and removed) and the lines of the new document (context
/// and added).
pub struct HunkData {
    /// One-based first line of the target slice in the old document.
    pub old_start: usize,
    /// Length of the target slice in the old document.
    pub old_count: usize,
    /// One-based first line of the result slice in the new document.
    pub new_start: usize,
    /// Length of the result slice in the new document.
    pub new_count: usize,
    /// The context and removed lines, in old-document order.
    pub context_and_removed: Vec<String>,
    /// The context and added lines, in new-document order.
    pub new_lines: Vec<String>,
}

/// The mathematical content of a hunk.
pub struct HunkView {
    /// One-based first line of the target slice in the old document.
    pub old_start: int,
    /// Length of the target slice in the old document.
    pub old_count: int,
    /// One-based first line of the result slice in the new document.
    pub new_start: int,
    /// Length of the result slice in the new document.
    pub new_count: int,
    /// The context and removed lines, in old-document order.
    pub expected: Seq<Seq<char>>,
    /// The context and added lines, in new-document order.
    pub replacement: Seq<Seq<char>>,
}

impl View for HunkData {
    type V = HunkView;

    open spec fn view(&self) -> HunkView {
        HunkView {
            old_start: self.old_start as int,
            old_count: self.old_count as int,
            new_start: self.new_start as int,
            new_count: self.new_count as int,
            expected: self.context_and_removed.deep_view(),
            replacement: self.new_lines.deep_view(),
        }
    }
}

/// The views of a sequence of hunks.
pub open spec fn hunk_views(hs: Seq<HunkData>) -> Seq<HunkView> {
    Seq::new(hs.len(), |i: int| hs[i]@)
}

/// True iff `l` begins with `@@`.
pub open spec fn starts_with_atat(l: Seq<char>) -> bool {
    l.len() >= 2 && l[0] == '@' && l[1] == '@'
}

/// `s` without its run of leading `c` characters.
pub open spec fn drop_leading_char(s: Seq<char>, c: char) -> Seq<char>
    decreases s.len(),
{
    if s.len() > 0 && s[0] == c {
        drop_leading_char(s.drop_first(), c)
    } else {
        s
    }
}

/// The whitespace-separated tokens of `s` from position `i` on, with `cur`
/// the partial token gathered so far.
pub open spec fn ws_tokens_from(s: Seq<char>, i: int, cur: Seq<char>) -> Seq<Seq<char>>
    decreases s.len() - i,
{
    if i < 0 || i >= s.len() {
        if cur.len() > 0 {
            seq![cur]
        } else {
            Seq::empty()
        }
    } else if is_ws_char(s[i]) {
        (if cur.len() > 0 {
            seq![cur]
        } else {
            Seq::empty()
        }) + ws_tokens_from(s, i + 1, Seq::empty())
    } else {
        ws_tokens_from(s, i + 1, cur + seq![s[i]])
    }
}

/// The whitespace-separated tokens of `s` (no empty tokens).
pub open spec fn ws_tokens(s: Seq<char>) -> Seq<Seq<char>> {
    ws_tokens_from(s, 0, Seq::empty())
}

/// The numeric value of a sequence of decimal digits (most significant
/// first).
pub open spec fn digits_value(s: Seq<char>) -> int
    decreases s.len(),
{
    if s.len() == 0 {
        0
    } else {
        digits_value(s.drop_last()) * 10 + (s.last() as u32 - 0x30)
    }
}

/// True iff every character of `s` is a decimal digit.
pub open spec fn all_digits(s: Seq<char>) -> bool {
    forall|i: int| 0 <= i < s.len() ==> is_digit_char(s[i])
}

/// The value `str::parse::<usize>` accepts for `s`: an optional leading `+`,
/// then at least one digit, with the value fitting in `usize`.
pub open spec fn parse_usize_spec(s: Seq<char>) -> Option<int> {
    let body = if s.len() > 0 && s[0] == '+' {
        s.drop_first()
    } else {
        s
    };
    if body.len() > 0 && all_digits(body) && digits_value(body) <= usize::MAX as int {
        Some(digits_value(body))
    } else {
        None
    }
}

/// The index of the first `c` in `s`, or -1.
pub open spec fn char_index(s: Seq<char>, c: char) -> int {
    first_occurrence(s, seq![c])
}

/// One side of a hunk range: `start[,count]`, with `count` defaulting to 1.
/// Everything after a second comma is ignored, as splitting on commas does.
pub open spec fn parse_range(a: Seq<char>) -> Option<(int, int)> {
    let ci = char_index(a, ',');
    if ci < 0 {
        match parse_usize_spec(a) {
            Option::None => Option::None,
            Option::Some(st) => Option::Some((st, 1)),
        }
    } else {
        let first = a.take(ci);
        let rest = a.skip(ci + 1);
        let ci2 = char_index(rest, ',');
        let second = if ci2 >= 0 {
            rest.take(ci2)
        } else {
            rest
        };
        match parse_usize_spec(first) {
            Option::None => Option::None,
            Option::Some(st) => match parse_usize_spec(second) {
                Option::None => Option::None,
                Option::Some(ct) => Option::Some((st, ct)),
            },
        }
    }
}

/// What scanning a `@@` header line yields.
pub enum HeaderOutcome {
    /// Fewer than two range tokens: the line is passed over.
    Skip,
    /// A range number failed to parse: the whole patch is rejected.
    Fail,
    /// The four range values, in header order.
    Parsed(int, int, int, int),
}

/// Scans a line that begins with `@@`: the text up to the next `@@` (or the
/// line's end) is split into whitespace-separated tokens; the first two,
/// with leading `-` and `+` runs removed, are the old and new ranges.
pub open spec fn parse_header(l: Seq<char>) -> HeaderOutcome {
    let rest = l.skip(2);
    let at = first_occurrence(rest, seq!['@', '@']);
    let mid = if at >= 0 {
        rest.take(at)
    } else {
        rest
    };
    let toks = ws_tokens(mid);
    if toks.len() < 2 {
        HeaderOutcome::Skip
    } else {
        let a = drop_leading_char(toks[0], '-');
        let b = drop_leading_char(toks[1], '+');
        match parse_range(a) {
            Option::None => HeaderOutcome::Fail,
            Option::Some(old) => match parse_range(b) {
                Option::None => HeaderOutcome::Fail,
                Option::Some(new) => HeaderOutcome::Parsed(old.0, old.1, new.0, new.1),
            },
        }
    }
}

/// How one body line of a hunk is classified.
pub enum BodyLine {
    /// A context line: present in the old and the new document.
    Both(Seq<char>),
    /// A removed line: present only in the old document.
    OldOnly(Seq<char>),
    /// An added line: present only in the new document.
    NewOnly(Seq<char>),
    /// A no-newline marker, ignored.
    Marker,
    /// Any other line: it ends the hunk body.
    End,
}

/// Classifies one hunk body line by its first character; a fully blank line
/// counts as an empty context line.
pub open spec fn classify_body_line(l: Seq<char>) -> BodyLine {
    if l.len() > 0 && l[0] == ' ' {
        BodyLine::Both(l.drop_first())
    } else if l.len() > 0 && l[0] == '-' {
        BodyLine::OldOnly(l.drop_first())
    } else if l.len() > 0 && l[0] == '+' {
        BodyLine::NewOnly(l.drop_first())
    } else if l.len() > 0 && l[0] == '\\' {
        BodyLine::Marker
    } else if is_blank_line(l) {
        BodyLine::Both(Seq::empty())
    } else {
        BodyLine::End
    }
}

/// The hunk body starting at line `j`: the expected (old) lines, the
/// replacement (new) lines, and the index of the first line after the body
/// (the next `@@` header, an unrecognized line, or the end).
pub open spec fn hunk_body(pl: Seq<Seq<char>>, j: int) -> (Seq<Seq<char>>, Seq<Seq<char>>, int)
    decreases pl.len() - j,
{
    if j < 0 || j >= pl.len() || starts_with_atat(pl[j]) {
        (Seq::empty(), Seq::empty(), j)
    } else {
        match classify_body_line(pl[j]) {
            BodyLine::End => (Seq::empty(), Seq::empty(), j),
            BodyLine::Marker => hunk_body(pl, j + 1),
            BodyLine::Both(c) => {
                let t = hunk_body(pl, j + 1);
                (seq![c] + t.0, seq![c] + t.1, t.2)
            },
            BodyLine::OldOnly(c) => {
                let t = hunk_body(pl, j + 1);
                (seq![c] + t.0, t.1, t.2)
            },
            BodyLine::NewOnly(c) => {
                let t = hunk_body(pl, j + 1);
                (t.0, seq![c] + t.1, t.2)
            },
        }
    }
}

/// The body scan never moves backwards and never runs past the end.
pub proof fn lemma_hunk_body_bounds(pl: Seq<Seq<char>>, j: int)
    requires
        0 <= j <= pl.len(),
    ensures
        j <= hunk_body(pl, j).2 <= pl.len(),
    decreases pl.len() - j,
{
    if j < pl.len() && !starts_with_atat(pl[j]) {
        match classify_body_line(pl[j]) {
            BodyLine::End => {},
            _ => {
                lemma_hunk_body_bounds(pl, j + 1);
            },
        }
    }
}

/// The hunks parsed from the patch lines, scanning from line `i` on. Every
/// line beginning with `@@` opens a header; a header with a malformed range
/// number rejects the whole patch; any other line is passed over.
pub open spec fn parse_hunks_from(pl: Seq<Seq<char>>, i: int) -> Option<Seq<HunkView>>
    decreases pl.len() - i,
    via parse_hunks_from_decreases
{
    if i < 0 || i >= pl.len() {
        Option::Some(Seq::empty())
    } else if starts_with_atat(pl[i]) {
        match parse_header(pl[i]) {
            HeaderOutcome::Skip => parse_hunks_from(pl, i + 1),
            HeaderOutcome::Fail => Option::None,
            HeaderOutcome::Parsed(os, oc, ns, nc) => {
                let body = hunk_body(pl, i + 1);
                let h = HunkView {
                    old_start: os,
                    old_count: oc,
                    new_start: ns,
                    new_count: nc,
                    expected: body.0,
                    replacement: body.1,
                };
                match parse_hunks_from(pl, body.2) {
                    Option::None => Option::None,
                    Option::Some(rest) => Option::Some(seq![h] + rest),
                }
            },
        }
    } else {
        parse_hunks_from(pl, i + 1)
    }
}

#[via_fn]
proof fn parse_hunks_from_decreases(pl: Seq<Seq<char>>, i: int) {
    if 0 <= i < pl.len() && starts_with_atat(pl[i]) {
        lemma_hunk_body_bounds(pl, i + 1);
    }
}

/// The hunks parsed from the patch lines.
pub open spec fn parse_hunks(pl: Seq<Seq<char>>) -> Option<Seq<HunkView>> {
    parse_hunks_from(pl, 0)
}

/// All-digit sequences have non-negative values.
proof fn lemma_digits_value_nonneg(s: Seq<char>)
    requires
        all_digits(s),
    ensures
        digits_value(s) >= 0,
    decreases s.len(),
{
    if s.len() > 0 {
        assert(all_digits(s.drop_last()));
        lemma_digits_value_nonneg(s.drop_last());
    }
}

/// For an all-digit sequence, the value of a prefix never exceeds the value
/// of the whole.
proof fn lemma_digits_value_mono(s: Seq<char>, k: int)
    requires
        all_digits(s),
        0 <= k <= s.len(),
    ensures
        digits_value(s.take(k)) <= digits_value(s),
    decreases s.len() - k,
{
    assert(all_digits(s.take(k))) by {
        assert(forall|j: int| 0 <= j < k ==> s.take(k)[j] == s[j]);
    }
    if k == s.len() {
        assert(s.take(k) =~= s);
    } else {
        lemma_digits_value_mono(s, k + 1);
        let t = s.take(k + 1);
        assert(t.drop_last() =~= s.take(k));
        assert(t.last() == s[k]);
        lemma_digits_value_nonneg(s.take(k));
        assert(digits_value(t) == digits_value(s.take(k)) * 10 + (s[k] as u32 - 0x30));
    }
}

/// Parses `s` as `str::parse::<usize>` does: an optional leading `+`, then
/// at least one decimal digit, rejecting values that do not fit.
pub fn parse_decimal(s: &str) -> (r: Option<usize>)
    ensures
        match r {
            Some(v) => parse_usize_spec(s@) == Option::Some(v as int),
            None => parse_usize_spec(s@) == Option::<int>::None,
        },
{
    let cs = str_to_chars(s);
    let n = cs.len();
    let start: usize = if n > 0 && cs[0] == '+' {
        1
    } else {
        0
    };
    let ghost body: Seq<char> = if s@.len() > 0 && s@[0] == '+' {
        s@.drop_first()
    } else {
        s@
    };
    proof {
        assert(body =~= s@.skip(start as int));
    }
    if start >= n {
        assert(body.len() == 0);
        return None;
    }
    let mut val: usize = 0;
    let mut i: usize = start;
    while i < n
        invariant
            start <= i <= n == s@.len(),
            start <= 1,
            body == s@.skip(start as int),
            body == (if s@.len() > 0 && s@[0] == '+' {
                s@.drop_first()
            } else {
                s@
            }),
            body.len() == n - start,
            cs@ == s@,
            forall|j: int| 0 <= j < i - start ==> is_digit_char(body[j]),
            val == digits_value(body.take(i - start)),
        decreases n - i,
    {
        let c = cs[i];
        let u = c as u32;
        if !(0x30 <= u && u <= 0x39) {
            proof {
                assert(body[i - start] == s@[i as int]);
                assert(!is_digit_char(body[i - start]));
                assert(!all_digits(body));
            }
            return None;
        }
        let d = (u - 0x30) as usize;
        proof {
            let t = body.take(i - start + 1);
            assert(t.drop_last() =~= body.take(i - start));
            assert(t.last() == body[i - start] == s@[i as int]);
            assert(digits_value(t) == val * 10 + d);
        }
        if val > (usize::MAX - d) / 10 {
            proof {
                assert(val * 10 + d > usize::MAX) by (nonlinear_arith)
                    requires
                        val > (usize::MAX - d) / 10,
                        0 <= d <= 9,
                        val >= 0,
                {}
                if all_digits(body) {
                    lemma_digits_value_mono(body, i - start + 1);
                    assert(digits_value(body) > usize::MAX as int);
                }
            }
            return None;
        }
        val = val * 10 + d;
        i = i + 1;
    }
    proof {
        assert(body.take(n - start) =~= body);
        assert(all_digits(body));
        assert(body.len() > 0);
    }
    Some(val)
}

/// True iff `l` begins with two `@` characters.
pub fn line_starts_with_atat(l: &str) -> (r: bool)
    ensures
        r == starts_with_atat(l@),
{
    let n = l.unicode_len();
    n >= 2 && l.get_char(0) == '@' && l.get_char(1) == '@'
}

/// The whitespace-separated tokens of `s`.
pub fn split_ws_tokens(s: &str) -> (r: Vec<String>)
    ensures
        r.deep_view() == ws_tokens(s@),
{
    let n = s.unicode_len();
    let mut r: Vec<String> = Vec::new();
    let mut cur: Vec<char> = Vec::new();
    let mut i: usize = 0;
    while i < n
        invariant
            i <= n == s@.len(),
            ws_tokens(s@) =~= r.deep_view() + ws_tokens_from(s@, i as int, cur@),
        decreases n - i,
    {
        let ghost prev_r = r.deep_view();
        let ghost prev_cur = cur@;
        let c = s.get_char(i);
        if is_whitespace_char(c) {
            if cur.len() > 0 {
                let token = crate::text::chars_to_string(cur.as_slice());
                r.push(token);
                cur = Vec::new();
                proof {
                    assert(ws_tokens_from(s@, i as int, prev_cur) == seq![prev_cur]
                        + ws_tokens_from(s@, i + 1 as int, cur@));
                    assert(r.deep_view() =~= prev_r.push(prev_cur));
                    assert(ws_tokens(s@) =~= r.deep_view() + ws_tokens_from(
                        s@,
                        i + 1 as int,
                        cur@,
                    ));
                }
            } else {
                proof {
                    assert(ws_tokens_from(s@, i as int, prev_cur) =~= Seq::<Seq<char>>::empty()
                        + ws_tokens_from(s@, i + 1 as int, Seq::<char>::empty()));
                    assert(ws_tokens(s@) =~= r.deep_view() + ws_tokens_from(
                        s@,
                        i + 1 as int,
                        cur@,
                    ));
                }
            }
        } else {
            cur.push(c);
            proof {
                assert(cur@ == prev_cur + seq![c]);
                assert(ws_tokens_from(s@, i as int, prev_cur) == ws_tokens_from(
                    s@,
                    i + 1 as int,
                    cur@,
                ));
            }
        }
        i = i + 1;
    }
    if cur.len() > 0 {
        let ghost prev_r = r.deep_view();
        let token = crate::text::chars_to_string(cur.as_slice());
        r.push(token);
        proof {
            assert(r.deep_view() =~= prev_r.push(cur@));
        }
    }
    assert(r.deep_view() =~= ws_tokens(s@));
    r
}

/// `drop_leading_char` is a suffix: everything before the first non-`c`
/// character goes.
proof fn lemma_drop_leading_exact(s: Seq<char>, c: char, k: int)
    requires
        0 <= k <= s.len(),
        forall|j: int| 0 <= j < k ==> s[j] == c,
        k == s.len() || s[k] != c,
    ensures
        drop_leading_char(s, c) == s.skip(k),
    decreases s.len(),
{
    if s.len() > 0 && s[0] == c {
        assert(k >= 1);
        lemma_drop_leading_exact(s.drop_first(), c, k - 1);
        assert(s.drop_first().skip(k - 1) =~= s.skip(k));
    } else {
        assert(s.skip(0) =~= s);
    }
}

/// Parses one side of a hunk range, `start[,count]`, `count` defaulting to 1.
pub fn parse_range_side(a: &str) -> (r: Option<(usize, usize)>)
    ensures
        match r {
            Some(p) => parse_range(a@) == Option::Some((p.0 as int, p.1 as int)),
            None => parse_range(a@) == Option::<(int, int)>::None,
        },
{
    let ca = str_to_chars(a);
    let mut comma: Vec<char> = Vec::new();
    comma.push(',');
    assert(comma@ =~= seq![',']);
    let ci = find_first_occurrence(ca.as_slice(), comma.as_slice());
    match ci {
        None => {
            match parse_decimal(a) {
                Some(st) => Some((st, 1)),
                None => None,
            }
        },
        Some(k) => {
            proof {
                lemma_first_occurrence_from(a@, seq![','], 0);
            }
            let n = a.unicode_len();
            let first = a.substring_char(0, k);
            assert(first@ =~= a@.take(k as int));
            let rest = a.substring_char(k + 1, n);
            assert(rest@ =~= a@.skip(k + 1 as int));
            let rc = str_to_chars(rest);
            let ci2 = find_first_occurrence(rc.as_slice(), comma.as_slice());
            let second: &str = match ci2 {
                Some(k2) => {
                    proof {
                        lemma_first_occurrence_from(rest@, seq![','], 0);
                    }
                    let w = rest.substring_char(0, k2);
                    assert(w@ =~= rest@.take(k2 as int));
                    w
                },
                None => rest,
            };
            match parse_decimal(first) {
                None => None,
                Some(st) => match parse_decimal(second) {
                    None => None,
                    Some(ct) => Some((st, ct)),
                },
            }
        },
    }
}

/// What scanning a header line yields, as executable data.
pub enum HeaderParse {
    /// Fewer than two range tokens: the line is passed over.
    Skip,
    /// A range number failed to parse: the whole patch is rejected.
    Fail,
    /// old_start, old_count, new_start, new_count.
    Parsed(usize, usize, usize, usize),
}

/// Scans a line that begins with `@@` for its two hunk ranges.
pub fn parse_header_line(l: &str) -> (r: HeaderParse)
    requires
        l@.len() >= 2,
    ensures
        match r {
            HeaderParse::Skip => parse_header(l@) == HeaderOutcome::Skip,
            HeaderParse::Fail => parse_header(l@) == HeaderOutcome::Fail,
            HeaderParse::Parsed(a, b, c, d) => parse_header(l@) == HeaderOutcome::Parsed(
                a as int,
                b as int,
                c as int,
                d as int,
            ),
        },
{
    let n = l.unicode_len();
    let rest = l.substring_char(2, n);
    assert(rest@ =~= l@.skip(2));
    let rc = str_to_chars(rest);
    let mut pat: Vec<char> = Vec::new();
    pat.push('@');
    pat.push('@');
    assert(pat@ =~= seq!['@', '@']);
    let at = find_first_occurrence(rc.as_slice(), pat.as_slice());
    let mid: &str = match at {
        Some(k) => {
            proof {
                lemma_first_occurrence_from(rest@, seq!['@', '@'], 0);
            }
            let w = rest.substring_char(0, k);
            assert(w@ =~= rest@.take(k as int));
            w
        },
        None => rest,
    };
    let toks = split_ws_tokens(mid);
    if toks.len() < 2 {
        return HeaderParse::Skip;
    }
    assert(toks@[0]@ == ws_tokens(mid@)[0]);
    assert(toks@[1]@ == ws_tokens(mid@)[1]);
    let a = drop_leading(toks[0].as_str(), '-');
    let b = drop_leading(toks[1].as_str(), '+');
    match parse_range_side(a.as_str()) {
        None => HeaderParse::Fail,
        Some(old) => match parse_range_side(b.as_str()) {
            None => HeaderParse::Fail,
            Some(new) => HeaderParse::Parsed(old.0, old.1, new.0, new.1),
        },
    }
}

/// `s` without its run of leading `c` characters, as a fresh string.
pub fn drop_leading(s: &str, c: char) -> (r: String)
    ensures
        r@ == drop_leading_char(s@, c),
{
    let n = s.unicode_len();
    let mut k: usize = 0;
    while k < n
        invariant
            0 <= k <= n == s@.len(),
            forall|j: int| 0 <= j < k ==> s@[j] == c,
        decreases n - k,
    {
        if s.get_char(k) != c {
            proof {
                lemma_drop_leading_exact(s@, c, k as int);
            }
            let rest = s.substring_char(k, n);
            let mut r = String::new();
            r.append(rest);
            assert(r@ =~= s@.skip(k as int));
            return r;
        }
        k = k + 1;
    }
    proof {
        lemma_drop_leading_exact(s@, c, n as int);
        assert(s@.skip(n as int) =~= Seq::<char>::empty());
    }
    String::new()
}

/// Parses the hunks out of the patch lines. Returns `None` exactly when some
/// header's range number is malformed; a patch without any `@@` header
/// yields an empty hunk list.
pub fn parse_unified_diff(patch_lines: &Vec<String>) -> (r: Option<Vec<HunkData>>)
    ensures
        match r {
            Some(hs) => parse_hunks(patch_lines.deep_view()) == Option::Some(hunk_views(hs@)),
            None => parse_hunks(patch_lines.deep_view()) == Option::<Seq<HunkView>>::None,
        },
{
    let ghost pl = patch_lines.deep_view();
    let n = patch_lines.len();
    let mut hunks: Vec<HunkData> = Vec::new();
    let mut i: usize = 0;
    while i < n
        invariant
            0 <= i <= n == patch_lines@.len(),
            pl == patch_lines.deep_view(),
            pl.len() == n,
            match parse_hunks_from(pl, i as int) {
                Option::Some(rest) => parse_hunks(pl) == Option::Some(hunk_views(hunks@) + rest),
                Option::None => parse_hunks(pl) == Option::<Seq<HunkView>>::None,
            },
        decreases n - i,
    {
        assert(patch_lines@[i as int]@ == pl[i as int]);
        if !line_starts_with_atat(patch_lines[i].as_str()) {
            proof {
                assert(parse_hunks_from(pl, i as int) == parse_hunks_from(pl, i + 1 as int));
            }
            i = i + 1;
        } else {
            let header = parse_header_line(patch_lines[i].as_str());
            match header {
                HeaderParse::Skip => {
                    proof {
                        assert(parse_hunks_from(pl, i as int) == parse_hunks_from(
                            pl,
                            i + 1 as int,
                        ));
                    }
                    i = i + 1;
                },
                HeaderParse::Fail => {
                    proof {
                        assert(parse_hunks_from(pl, i as int) is None);
                    }
                    return None;
                },
                HeaderParse::Parsed(old_start, old_count, new_start, new_count) => {
                    let ghost total = hunk_body(pl, i + 1 as int);
                    let mut expected: Vec<String> = Vec::new();
                    let mut added: Vec<String> = Vec::new();
                    let mut j: usize = i + 1;
                    loop
                        invariant_except_break
                            i + 1 <= j <= n,
                            n == patch_lines@.len(),
                            pl == patch_lines.deep_view() && pl.len() == n,
                            total == hunk_body(pl, i + 1 as int),
                            total.0 =~= expected.deep_view() + hunk_body(pl, j as int).0,
                            total.1 =~= added.deep_view() + hunk_body(pl, j as int).1,
                            total.2 == hunk_body(pl, j as int).2,
                        ensures
                            i + 1 <= j <= n,
                            total == hunk_body(pl, i + 1 as int),
                            total.0 =~= expected.deep_view(),
                            total.1 =~= added.deep_view(),
                            total.2 == j,
                        decreases n - j,
                    {
                        if j >= n {
                            proof {
                                assert(hunk_body(pl, j as int) == (
                                    Seq::<Seq<char>>::empty(),
                                    Seq::<Seq<char>>::empty(),
                                    j as int,
                                ));
                            }
                            break ;
                        }
                        assert(patch_lines@[j as int]@ == pl[j as int]);
                        let line = &patch_lines[j];
                        if line_starts_with_atat(line.as_str()) {
                            break ;
                        }
                        let ghost prev_expected = expected.deep_view();
                        let ghost prev_added = added.deep_view();
                        let ln = line.unicode_len();
                        let c0 = if ln > 0 {
                            line.as_str().get_char(0)
                        } else {
                            ' '
                        };
                        if ln > 0 && c0 == ' ' {
                            let body = line.as_str().substring_char(1, ln);
                            assert(body@ =~= pl[j as int].drop_first());
                            let mut b1 = String::new();
                            b1.append(body);
                            let mut b2 = String::new();
                            b2.append(body);
                            expected.push(b1);
                            added.push(b2);
                            proof {
                                assert(expected.deep_view() =~= prev_expected.push(
                                    pl[j as int].drop_first(),
                                ));
                                assert(added.deep_view() =~= prev_added.push(
                                    pl[j as int].drop_first(),
                                ));
                            }
                        } else if ln > 0 && c0 == '-' {
                            let body = line.as_str().substring_char(1, ln);
                            assert(body@ =~= pl[j as int].drop_first());
                            let mut b1 = String::new();
                            b1.append(body);
                            expected.push(b1);
                            proof {
                                assert(expected.deep_view() =~= prev_expected.push(
                                    pl[j as int].drop_first(),
                                ));
                            }
                        } else if ln > 0 && c0 == '+' {
                            let body = line.as_str().substring_char(1, ln);
                            assert(body@ =~= pl[j as int].drop_first());
                            let mut b2 = String::new();
                            b2.append(body);
                            added.push(b2);
                            proof {
                                assert(added.deep_view() =~= prev_added.push(
                                    pl[j as int].drop_first(),
                                ));
                            }
                        } else if ln > 0 && c0 == '\\' {
                            // No-newline marker: ignored.
                        } else if is_blank(line.as_str()) {
                            expected.push(String::new());
                            added.push(String::new());
                            proof {
                                assert(expected.deep_view() =~= prev_expected.push(
                                    Seq::<char>::empty(),
                                ));
                                assert(added.deep_view() =~= prev_added.push(
                                    Seq::<char>::empty(),
                                ));
                            }
                        } else {
                            proof {
                                assert(classify_body_line(pl[j as int]) is End);
                            }
                            break ;
                        }
                        j = j + 1;
                    }
                    let ghost prev_hunks = hunks@;
                    let hunk = HunkData {
                        old_start,
                        old_count,
                        new_start,
                        new_count,
                        context_and_removed: expected,
                        new_lines: added,
                    };
                    proof {
                        assert(hunk@.expected == total.0 && hunk@.replacement == total.1);
                    }
                    hunks.push(hunk);
                    proof {
                        let h = HunkView {
                            old_start: old_start as int,
                            old_count: old_count as int,
                            new_start: new_start as int,
                            new_count: new_count as int,
                            expected: total.0,
                            replacement: total.1,
                        };
                        assert(hunks@[prev_hunks.len() as int]@ =~= h);
                        assert(hunk_views(hunks@) =~= hunk_views(prev_hunks).push(h));
                        match parse_hunks_from(pl, j as int) {
                            Option::Some(rest) => {
                                assert(parse_hunks_from(pl, i as int) == Option::Some(
                                    seq![h] + rest,
                                ));
                                assert(hunk_views(prev_hunks) + (seq![h] + rest) =~= hunk_views(
                                    hunks@,
                                ) + rest);
                            },
                            Option::None => {
                                assert(parse_hunks_from(pl, i as int)
                                    is None);
                            },
                        }
                    }
                    i = j;
                },
            }
        }
    }
    proof {
        assert(parse_hunks_from(pl, n as int) == Option::Some(Seq::<HunkView>::empty()));
        assert(hunk_views(hunks@) + Seq::<HunkView>::empty() =~= hunk_views(hunks@));
    }
    Some(hunks)
}

/// True iff `a` and `b` agree line for line after whitespace normalization.
pub open spec fn norm_eq_lines(a: Seq<Seq<char>>, b: Seq<Seq<char>>) -> bool {
    a.len() == b.len() && forall|i: int| 0 <= i < a.len() ==> norm_ws(a[i]) == norm_ws(b[i])
}

/// One hunk applied to a document: the target slice
/// `doc[old_start - 1 .. old_start - 1 + old_count]` must exist, have
/// exactly the expected lines' length, and match them under whitespace
/// normalization; it is then replaced by the replacement lines.
pub open spec fn apply_hunk(doc: Seq<Seq<char>>, h: HunkView) -> Option<Seq<Seq<char>>> {
    if h.old_start <= 0 || h.old_start > doc.len() + 1 {
        Option::None
    } else {
        let idx = h.old_start - 1;
        if idx + h.old_count > doc.len() {
            Option::None
        } else if h.expected.len() != h.old_count {
            Option::None
        } else if !norm_eq_lines(doc.subrange(idx, idx + h.old_count), h.expected) {
            Option::None
        } else {
            Option::Some(doc.take(idx) + h.replacement + doc.skip(idx + h.old_count))
        }
    }
}

/// The hunks applied last-parsed first. A well-formed diff lists its hunks
/// in ascending `old_start` order, so this applies them in descending order
/// of `old_start`: every hunk's target offsets are then relative to an
/// as-yet-unmodified prefix of the document. Any failing hunk rejects the
/// whole patch.
pub open spec fn apply_hunks_rev(doc: Seq<Seq<char>>, hs: Seq<HunkView>) -> Option<Seq<Seq<char>>>
    decreases hs.len(),
{
    if hs.len() == 0 {
        Option::Some(doc)
    } else {
        match apply_hunk(doc, hs.last()) {
            Option::None => Option::None,
            Option::Some(d) => apply_hunks_rev(d, hs.drop_last()),
        }
    }
}

/// The whole pipeline on a document's lines: the patch text is split into
/// lines and parsed; a patch with no lines, a malformed range, or no hunks
/// at all fails; otherwise the hunks are applied last-to-first.
pub open spec fn apply_diff_spec(doc: Seq<Seq<char>>, patch: Seq<char>) -> Option<Seq<Seq<char>>> {
    let pl = lines_of(patch);
    if pl.len() == 0 {
        Option::None
    } else {
        match parse_hunks(pl) {
            Option::None => Option::None,
            Option::Some(hs) => if hs.len() == 0 {
                Option::None
            } else {
                apply_hunks_rev(doc, hs)
            },
        }
    }
}

/// Applies the unified diff `patch` to the document lines. The result is the
/// new line sequence, or `None` if the patch is empty, malformed, parses to
/// no hunks, or any hunk's expected context fails to match — in which case
/// nothing is returned at all, never a partial application.
pub fn apply_unified_diff(original_lines: &Vec<String>, patch: &str) -> (r: Option<Vec<String>>)
    ensures
        match r {
            Some(v) => apply_diff_spec(original_lines.deep_view(), patch@) == Option::Some(
                v.deep_view(),
            ),
            None => apply_diff_spec(original_lines.deep_view(), patch@) == Option::<
                Seq<Seq<char>>,
            >::None,
        },
{
    let ghost doc0 = original_lines.deep_view();
    let patch_lines = split_into_lines(patch);
    if patch_lines.len() == 0 {
        return None;
    }
    let parsed = parse_unified_diff(&patch_lines);
    let hunks = match parsed {
        None => {
            return None;
        },
        Some(hs) => hs,
    };
    if hunks.len() == 0 {
        assert(hunk_views(hunks@) =~= Seq::<HunkView>::empty());
        return None;
    }
    let ghost hviews = hunk_views(hunks@);

    // A working copy of the document.
    let n0 = original_lines.len();
    let mut result: Vec<String> = Vec::new();
    let mut i: usize = 0;
    while i < n0
        invariant
            0 <= i <= n0 == original_lines@.len(),
            doc0 == original_lines.deep_view(),
            result@.len() == i,
            forall|j: int| 0 <= j < i ==> (#[trigger] result@[j])@ == doc0[j],
        decreases n0 - i,
    {
        assert(original_lines@[i as int]@ == doc0[i as int]);
        result.push(original_lines[i].clone());
        i = i + 1;
    }
    assert(result.deep_view() =~= doc0);

    let mut t = hunks.len();
    proof {
        assert(hviews.take(hunks@.len() as int) =~= hviews);
    }
    while t > 0
        invariant
            0 <= t <= hunks@.len(),
            hviews == hunk_views(hunks@),
            hviews.len() == hunks@.len(),
            doc0 == original_lines.deep_view(),
            apply_diff_spec(doc0, patch@) == apply_hunks_rev(doc0, hviews),
            apply_hunks_rev(doc0, hviews) == apply_hunks_rev(
                result.deep_view(),
                hviews.take(t as int),
            ),
        decreases t,
    {
        let ghost doc = result.deep_view();
        proof {
            assert(hviews.take(t as int).last() == hviews[t - 1]);
            assert(hviews.take(t as int).drop_last() =~= hviews.take(t - 1));
            assert(hunks@[t - 1]@ == hviews[t - 1]);
        }
        let h = &hunks[t - 1];
        let nlen = result.len();
        assert(nlen == doc.len());

        if h.old_start == 0 {
            proof {
                assert(apply_hunk(doc, hviews[t - 1]) is None);
            }
            return None;
        }
        let idx = h.old_start - 1;
        if idx > nlen {
            proof {
                assert(hviews[t - 1].old_start > doc.len() + 1);
                assert(apply_hunk(doc, hviews[t - 1]) is None);
            }
            return None;
        }
        if h.old_count > nlen - idx {
            proof {
                assert(apply_hunk(doc, hviews[t - 1]) is None);
            }
            return None;
        }
        if h.context_and_removed.len() != h.old_count {
            proof {
                assert(apply_hunk(doc, hviews[t - 1]) is None);
            }
            return None;
        }
        // Whitespace-normalized comparison of the target slice with the
        // expected lines.
        let ghost hv = hviews[t - 1];
        let mut k: usize = 0;
        while k < h.old_count
            invariant
                0 <= k <= h.old_count,
                hv == hviews[t - 1],
                h == hunks@[t - 1] && 0 < t <= hunks@.len(),
                hviews == hunk_views(hunks@),
                doc0 == original_lines.deep_view(),
                apply_diff_spec(doc0, patch@) == apply_hunks_rev(doc0, hviews),
                apply_hunks_rev(doc0, hviews) == apply_hunks_rev(doc, hviews.take(t as int)),
                hviews.take(t as int).last() == hv,
                idx == h.old_start - 1,
                idx + h.old_count <= nlen,
                doc == result.deep_view() && nlen == result@.len(),
                h.context_and_removed@.len() == h.old_count,
                forall|j: int|
                    0 <= j < k ==> norm_ws(doc[idx + j]) == norm_ws(hv.expected[j]),
            decreases h.old_count - k,
        {
            assert(result@[idx + k as int]@ == doc[idx + k as int]);
            assert(h.context_and_removed@[k as int]@ == hv.expected[k as int]);
            let actual_norm = normalize_whitespace(result[idx + k].as_str());
            let expected_norm = normalize_whitespace(h.context_and_removed[k].as_str());
            if !(actual_norm == expected_norm) {
                proof {
                    let slice = doc.subrange(idx as int, idx + h.old_count as int);
                    assert(slice[k as int] == doc[idx + k as int]);
                    assert(!norm_eq_lines(slice, hv.expected));
                    assert(apply_hunk(doc, hviews[t - 1]) is None);
                }
                return None;
            }
            k = k + 1;
        }
        proof {
            let slice = doc.subrange(idx as int, idx + h.old_count as int);
            assert(forall|j: int| 0 <= j < h.old_count ==> slice[j] == doc[idx + j]);
            assert(norm_eq_lines(slice, hv.expected));
        }

        // Splice: prefix, replacement lines, suffix.
        let ghost target = doc.take(idx as int) + hv.replacement + doc.skip(
            idx + h.old_count as int,
        );
        let rn = h.new_lines.len();
        let mut out: Vec<String> = Vec::new();
        let mut p: usize = 0;
        while p < idx
            invariant
                0 <= p <= idx,
                idx + h.old_count <= nlen,
                h == hunks@[t - 1] && 0 < t <= hunks@.len(),
                doc == result.deep_view() && nlen == result@.len(),
                out@.len() == p,
                forall|j: int| 0 <= j < p ==> (#[trigger] out@[j])@ == doc[j],
            decreases idx - p,
        {
            assert(result@[p as int]@ == doc[p as int]);
            out.push(result[p].clone());
            p = p + 1;
        }
        let mut q: usize = 0;
        while q < rn
            invariant
                0 <= q <= rn,
                idx + h.old_count <= nlen,
                h == hunks@[t - 1] && 0 < t <= hunks@.len(),
                hv == hviews[t - 1] && hviews == hunk_views(hunks@),
                rn == h.new_lines@.len(),
                hv.replacement.len() == rn,
                doc == result.deep_view() && nlen == result@.len(),
                out@.len() == idx + q,
                forall|j: int| 0 <= j < idx ==> (#[trigger] out@[j])@ == doc[j],
                forall|j: int| 0 <= j < q ==> (#[trigger] out@[idx + j])@ == hv.replacement[j],
            decreases rn - q,
        {
            assert(h.new_lines@[q as int]@ == hv.replacement[q as int]);
            out.push(h.new_lines[q].clone());
            q = q + 1;
        }
        let mut w: usize = idx + h.old_count;
        while w < nlen
            invariant
                idx + h.old_count <= w <= nlen,
                h == hunks@[t - 1] && 0 < t <= hunks@.len(),
                hv == hviews[t - 1] && hviews == hunk_views(hunks@),
                rn == h.new_lines@.len() && hv.replacement.len() == rn,
                doc == result.deep_view() && nlen == result@.len(),
                out@.len() == idx + rn + (w - idx - h.old_count),
                forall|j: int| 0 <= j < idx ==> (#[trigger] out@[j])@ == doc[j],
                forall|j: int| 0 <= j < rn ==> (#[trigger] out@[idx + j])@ == hv.replacement[j],
                forall|j: int|
                    idx + h.old_count <= j < w ==> (#[trigger] out@[idx + rn + j - idx
                        - h.old_count])@ == doc[j],
            decreases nlen - w,
        {
            assert(result@[w as int]@ == doc[w as int]);
            out.push(result[w].clone());
            w = w + 1;
        }
        proof {
            assert(out.deep_view().len() == target.len());
            assert forall|j: int| 0 <= j < target.len() implies out.deep_view()[j] == target[j] by {
                assert(out.deep_view()[j] == out@[j]@);
                if j < idx {
                    assert(out@[j]@ == doc[j]);
                } else if j < idx + rn {
                    assert(out@[idx + (j - idx)]@ == hv.replacement[j - idx]);
                } else {
                    let u = j - idx - rn + idx + h.old_count;
                    assert(out@[idx + rn + u - idx - h.old_count as int]@ == doc[u]);
                }
            }
            assert(out.deep_view() =~= target);
            assert(apply_hunk(doc, hv) == Option::Some(target));
        }
        result = out;
        t = t - 1;
    }
    proof {
        assert(hviews.take(hviews.len() as int) =~= hviews);
        assert(hviews.take(0) =~= Seq::<HunkView>::empty());
        assert(apply_hunks_rev(result.deep_view(), hviews.take(0)) == Option::Some(
            result.deep_view(),
        ));
    }
    Some(result)
}

/// Law: patch application is all-or-nothing. Hunks are applied last first;
/// if the hunk at position `k` fails against the document state reached
/// after the hunks behind it were applied, the whole application yields
/// nothing at all — there is no partially patched document to write back.
pub proof fn lemma_patch_atomic(doc: Seq<Seq<char>>, hs: Seq<HunkView>, k: int, d: Seq<Seq<char>>)
    requires
        0 <= k < hs.len(),
        apply_hunks_rev(doc, hs.skip(k + 1)) == Option::Some(d),
        apply_hunk(d, hs[k]) is None,
    ensures
        apply_hunks_rev(doc, hs) is None,
    decreases hs.len(),
{
    if k == hs.len() - 1 {
        assert(hs.skip(k + 1) =~= Seq::<HunkView>::empty());
        assert(d == doc);
        assert(hs.last() == hs[k]);
    } else {
        let suffix = hs.skip(k + 1);
        assert(suffix.last() == hs.last());
        match apply_hunk(doc, hs.last()) {
            Option::None => {},
            Option::Some(d1) => {
                assert(suffix.drop_last() =~= hs.drop_last().skip(k + 1));
                assert(hs.drop_last()[k] == hs[k]);
                lemma_patch_atomic(d1, hs.drop_last(), k, d);
            },
        }
    }
}

/// Law: patch application is idempotent against its own stated result.
/// When a hunk applies to a document, the hunk one would re-derive from the
/// new content against the original content — expected lines read off the
/// original target slice, replacement lines read off the new content at the
/// same position — applies to the original document with the same result,
/// so that re-derived diff is equivalent to the applied one.
pub proof fn lemma_patch_rederive(doc: Seq<Seq<char>>, h: HunkView, d2: Seq<Seq<char>>)
    requires
        apply_hunk(doc, h) == Option::Some(d2),
    ensures
        d2.subrange(h.old_start - 1, h.old_start - 1 + h.replacement.len()) == h.replacement,
        apply_hunk(
            doc,
            HunkView {
                old_start: h.old_start,
                old_count: h.old_count,
                new_start: h.new_start,
                new_count: h.new_count,
                expected: doc.subrange(h.old_start - 1, h.old_start - 1 + h.old_count),
                replacement: d2.subrange(h.old_start - 1, h.old_start - 1 + h.replacement.len()),
            },
        ) == Option::Some(d2),
{
    let idx = h.old_start - 1;
    let slice = doc.subrange(idx, idx + h.old_count);
    assert(d2 == doc.take(idx) + h.replacement + doc.skip(idx + h.old_count));
    assert(d2.subrange(idx, idx + h.replacement.len()) =~= h.replacement);
    let h2 = HunkView {
        old_start: h.old_start,
        old_count: h.old_count,
        new_start: h.new_start,
        new_count: h.new_count,
        expected: slice,
        replacement: d2.subrange(idx, idx + h.replacement.len()),
    };
    assert(norm_eq_lines(slice, h.expected));
    assert(norm_eq_lines(slice, slice));
    assert(apply_hunk(doc, h2) == Option::Some(d2));
}

/// `s` with every `\r\n` pair and every lone `\r` turned into `\n`.
pub open spec fn normalize_newlines(s: Seq<char>) -> Seq<char>
    decreases s.len(),
{
    if s.len() == 0 {
        s
    } else if s.len() >= 2 && s[0] == '\r' && s[1] == '\n' {
        seq!['\n'] + normalize_newlines(s.skip(2))
    } else if s[0] == '\r' {
        seq!['\n'] + normalize_newlines(s.skip(1))
    } else {
        seq![s[0]] + normalize_newlines(s.skip(1))
    }
}

/// Normalizes the line endings of `s` to `\n` alone.
pub fn normalize_line_endings(s: &str) -> (r: String)
    ensures
        r@ == normalize_newlines(s@),
{
    let cs = str_to_chars(s);
    let n = cs.len();
    let mut out: Vec<char> = Vec::new();
    let mut i: usize = 0;
    proof {
        assert(s@.skip(0) =~= s@);
    }
    while i < n
        invariant
            0 <= i <= n == s@.len(),
            cs@ == s@,
            normalize_newlines(s@) =~= out@ + normalize_newlines(s@.skip(i as int)),
        decreases n - i,
    {
        let ghost rest = s@.skip(i as int);
        proof {
            assert(rest.len() == n - i);
            assert(rest[0] == s@[i as int]);
            if i + 1 < n {
                assert(rest[1] == s@[i + 1]);
            }
        }
        if cs[i] == '\r' && i + 1 < n && cs[i + 1] == '\n' {
            out.push('\n');
            proof {
                assert(rest.skip(2) =~= s@.skip(i + 2 as int));
                assert(normalize_newlines(s@) =~= out@ + normalize_newlines(
                    s@.skip(i + 2 as int),
                ));
            }
            i = i + 2;
        } else if cs[i] == '\r' {
            out.push('\n');
            proof {
                assert(rest.skip(1) =~= s@.skip(i + 1 as int));
                assert(normalize_newlines(s@) =~= out@ + normalize_newlines(
                    s@.skip(i + 1 as int),
                ));
            }
            i = i + 1;
        } else {
            out.push(cs[i]);
            proof {
                assert(rest.skip(1) =~= s@.skip(i + 1 as int));
                assert(normalize_newlines(s@) =~= out@ + normalize_newlines(
                    s@.skip(i + 1 as int),
                ));
            }
            i = i + 1;
        }
    }
    proof {
        assert(s@.skip(n as int) =~= Seq::<char>::empty());
        assert(normalize_newlines(s@) =~= out@);
    }
    chars_to_string(out.as_slice())
}

/// The new file content after applying `patch` to `content`: the patch's
/// line endings are normalized, the hunks applied to the content's lines,
/// and the content's trailing-newline convention preserved.
pub open spec fn patched_content(content: Seq<char>, patch: Seq<char>) -> Option<Seq<char>> {
    match apply_diff_spec(lines_of(content), normalize_newlines(patch)) {
        Option::None => Option::None,
        Option::Some(v) => Option::Some(
            join_nl(v) + if content.len() > 0 && content.last() == '\n' {
                seq!['\n']
            } else {
                Seq::empty()
            },
        ),
    }
}

/// Applies a unified diff to a file's content. Validation happens before any
/// result is produced: on any mismatch the error is returned and no content
/// comes back, so a caller can never write a partially patched file.
pub fn apply_patch_to_content(content: &str, patch: &str) -> (r: Result<String, ToolError>)
    ensures
        match r {
            Ok(s) => patched_content(content@, patch@) == Option::Some(s@),
            Err(e) => patched_content(content@, patch@) is None && e == ToolError::Other(
                e->Other_0,
            ) && (e->Other_0)@ == "Failed to apply patch - hunks did not match"@,
        },
{
    let normalized = normalize_line_endings(patch);
    let original_lines = split_into_lines(content);
    match apply_unified_diff(&original_lines, normalized.as_str()) {
        None => {
            let mut msg = String::new();
            msg.append("Failed to apply patch - hunks did not match");
            assert(msg@ =~= "Failed to apply patch - hunks did not match"@);
            Err(ToolError::Other(msg))
        },
        Some(patched) => {
            let mut out = join_lines(&patched);
            let n = content.unicode_len();
            if n > 0 && content.get_char(n - 1) == '\n' {
                out.push('\n');
                assert(out@ =~= join_nl(patched.deep_view()) + seq!['\n']);
            } else {
                assert(out@ =~= join_nl(patched.deep_view()) + Seq::<char>::empty());
            }
            Ok(out)
        },
    }
}

/// A patch request against one file.
pub struct ApplyPatchTool {
    /// Path of the file to patch.
    pub path: String,
    /// The unified-diff text.
    pub patch: String,
}

impl ApplyPatchTool {
    /// The confirmation message reported after a successful patch.
    pub fn success_message(path: &str) -> (r: String)
        ensures
            r@ == "Successfully applied patch to "@ + path@,
    {
        let mut r = String::new();
        r.append("Successfully applied patch to ");
        r.append(path);
        r
    }
}

} // verus!
