//! Character classes and line-oriented text primitives shared by the search,
//! patch and edit engines: splitting into lines, joining, whitespace
//! normalization, substring search and decimal rendering.

use vstd::prelude::*;

verus! {

/// Specification for `String::push`: appending one character to the end.
pub assume_specification[ String::push ](s: &mut String, c: char)
    ensures
        final(s)@ == old(s)@ + seq![c],
;

/// True iff `c` has the Unicode `White_Space` property (the set accepted by
/// `char::is_whitespace`).
pub open spec fn is_ws_char(c: char) -> bool {
    let u = c as u32;
    u == 0x20 || (0x9 <= u && u <= 0xd) || u == 0x85 || u == 0xa0 || u == 0x1680 || (0x2000 <= u
        && u <= 0x200a) || u == 0x2028 || u == 0x2029 || u == 0x202f || u == 0x205f || u == 0x3000
}

/// Executable test for `is_ws_char`.
pub fn is_whitespace_char(c: char) -> (r: bool)
    ensures
        r == is_ws_char(c),
{
    let u = c as u32;
    u == 0x20 || (0x9 <= u && u <= 0xd) || u == 0x85 || u == 0xa0 || u == 0x1680 || (0x2000 <= u
        && u <= 0x200a) || u == 0x2028 || u == 0x2029 || u == 0x202f || u == 0x205f || u == 0x3000
}

/// True iff `c` is a Unicode `Cc` control character (the set accepted by
/// `char::is_control`).
pub open spec fn is_control_char(c: char) -> bool {
    let u = c as u32;
    u <= 0x1f || (0x7f <= u && u <= 0x9f)
}

/// Executable test for `is_control_char`.
pub fn is_control_character(c: char) -> (r: bool)
    ensures
        r == is_control_char(c),
{
    let u = c as u32;
    u <= 0x1f || (0x7f <= u && u <= 0x9f)
}

/// True iff `c` is an ASCII decimal digit.
pub open spec fn is_digit_char(c: char) -> bool {
    0x30 <= c as u32 && c as u32 <= 0x39
}

/// The characters of `s` as a vector, for constant-time indexing.
pub fn str_to_chars(s: &str) -> (r: Vec<char>)
    ensures
        r@ == s@,
{
    let n = s.unicode_len();
    let mut r: Vec<char> = Vec::new();
    let mut i: usize = 0;
    while i < n
        invariant
            i <= n == s@.len(),
            r@ == s@.take(i as int),
        decreases n - i,
    {
        r.push(s.get_char(i));
        assert(r@ =~= s@.take(i + 1 as int));
        i = i + 1;
    }
    assert(s@.take(n as int) =~= s@);
    r
}

/// The string holding exactly the characters of `v`.
pub fn chars_to_string(v: &[char]) -> (r: String)
    ensures
        r@ == v@,
{
    let n = v.len();
    let mut r = String::new();
    let mut i: usize = 0;
    while i < n
        invariant
            i <= n == v@.len(),
            r@ == v@.take(i as int),
        decreases n - i,
    {
        r.push(v[i]);
        assert(r@ =~= v@.take(i + 1 as int));
        i = i + 1;
    }
    assert(v@.take(n as int) =~= v@);
    r
}

/// Character-wise string equality.
pub fn str_eq(a: &str, b: &str) -> (r: bool)
    ensures
        r == (a@ == b@),
{
    let na = a.unicode_len();
    let nb = b.unicode_len();
    if na != nb {
        assert(a@ != b@);
        return false;
    }
    let mut i: usize = 0;
    while i < na
        invariant
            i <= na == a@.len() && na == b@.len(),
            forall|j: int| 0 <= j < i ==> a@[j] == b@[j],
        decreases na - i,
    {
        if a.get_char(i) != b.get_char(i) {
            return false;
        }
        i = i + 1;
    }
    assert(a@ =~= b@);
    true
}

/// Segments of `s` from position `i` on, split at every `'\n'`, with `cur`
/// the partial segment gathered so far. Splitting always yields at least one
/// (possibly empty) segment.
pub open spec fn split_nl_from(s: Seq<char>, i: int, cur: Seq<char>) -> Seq<Seq<char>>
    decreases s.len() - i,
{
    if i < 0 || i >= s.len() {
        seq![cur]
    } else if s[i] == '\n' {
        seq![cur] + split_nl_from(s, i + 1, Seq::empty())
    } else {
        split_nl_from(s, i + 1, cur + seq![s[i]])
    }
}

/// `s` split at every `'\n'` (the newline characters themselves excluded).
pub open spec fn split_nl(s: Seq<char>) -> Seq<Seq<char>> {
    split_nl_from(s, 0, Seq::empty())
}

/// Splitting yields at least one segment.
pub proof fn lemma_split_nl_from_len(s: Seq<char>, i: int, cur: Seq<char>)
    ensures
        split_nl_from(s, i, cur).len() >= 1,
    decreases s.len() - i,
{
    if i < 0 || i >= s.len() {
    } else if s[i] == '\n' {
    } else {
        lemma_split_nl_from_len(s, i + 1, cur + seq![s[i]]);
    }
}

/// `l` with one trailing `'\r'` removed, if present.
pub open spec fn strip_cr(l: Seq<char>) -> Seq<char> {
    if l.len() > 0 && l.last() == '\r' {
        l.drop_last()
    } else {
        l
    }
}

/// Like `split_nl_from`, but with one trailing `'\r'` stripped from every
/// segment.
pub open spec fn lines_from(s: Seq<char>, i: int, cur: Seq<char>) -> Seq<Seq<char>>
    decreases s.len() - i,
{
    if i < 0 || i >= s.len() {
        seq![strip_cr(cur)]
    } else if s[i] == '\n' {
        seq![strip_cr(cur)] + lines_from(s, i + 1, Seq::empty())
    } else {
        lines_from(s, i + 1, cur + seq![s[i]])
    }
}

/// The lines of `s` in the sense of `str::lines`: split at `'\n'`, one
/// trailing `'\r'` stripped from each line, and no empty final line produced
/// by a trailing newline. The empty text has no lines.
pub open spec fn lines_of(s: Seq<char>) -> Seq<Seq<char>> {
    if s.len() == 0 {
        Seq::empty()
    } else if s.last() == '\n' {
        lines_from(s.drop_last(), 0, Seq::empty())
    } else {
        lines_from(s, 0, Seq::empty())
    }
}

/// Splits `s` at every `'\n'` (the semantics of `str::split('\n')`).
pub fn split_on_newlines(s: &str) -> (r: Vec<String>)
    ensures
        r.deep_view() == split_nl(s@),
{
    let n = s.unicode_len();
    let mut r: Vec<String> = Vec::new();
    let mut cur: Vec<char> = Vec::new();
    let mut i: usize = 0;
    while i < n
        invariant
            i <= n == s@.len(),
            split_nl(s@) =~= r.deep_view() + split_nl_from(s@, i as int, cur@),
        decreases n - i,
    {
        let ghost prev_r = r.deep_view();
        let ghost prev_cur = cur@;
        let c = s.get_char(i);
        if c == '\n' {
            let rendered = chars_to_string(cur.as_slice());
            r.push(rendered);
            cur = Vec::new();
            proof {
                assert(split_nl_from(s@, i as int, prev_cur) == seq![prev_cur] + split_nl_from(
                    s@,
                    i + 1 as int,
                    cur@,
                ));
                assert(r.deep_view() =~= prev_r.push(prev_cur));
                assert(split_nl(s@) =~= r.deep_view() + split_nl_from(s@, i + 1 as int, cur@));
            }
        } else {
            cur.push(c);
            proof {
                assert(cur@ == prev_cur + seq![c]);
                assert(split_nl_from(s@, i as int, prev_cur) == split_nl_from(
                    s@,
                    i + 1 as int,
                    cur@,
                ));
            }
        }
        i = i + 1;
    }
    let rendered = chars_to_string(cur.as_slice());
    r.push(rendered);
    assert(r.deep_view() =~= split_nl(s@));
    r
}

/// The lines of `s` in the sense of `lines_of`.
pub fn split_into_lines(s: &str) -> (r: Vec<String>)
    ensures
        r.deep_view() == lines_of(s@),
{
    let n_full = s.unicode_len();
    let mut r: Vec<String> = Vec::new();
    if n_full == 0 {
        assert(r.deep_view() =~= lines_of(s@));
        return r;
    }
    // Ignore one trailing newline, as `lines_of` does.
    let n = if s.get_char(n_full - 1) == '\n' {
        n_full - 1
    } else {
        n_full
    };
    let ghost body: Seq<char> = if s@.last() == '\n' {
        s@.drop_last()
    } else {
        s@
    };
    proof {
        assert(body =~= s@.take(n as int));
        assert(lines_of(s@) == lines_from(body, 0, Seq::empty()));
    }
    let mut cur: Vec<char> = Vec::new();
    let mut i: usize = 0;
    while i < n
        invariant
            i <= n <= n_full == s@.len(),
            body == s@.take(n as int),
            lines_from(body, 0, Seq::empty()) =~= r.deep_view() + lines_from(
                body,
                i as int,
                cur@,
            ),
        decreases n - i,
    {
        let ghost prev_r = r.deep_view();
        let ghost prev_cur = cur@;
        let c = s.get_char(i);
        assert(c == body[i as int]);
        if c == '\n' {
            let mut line = cur;
            if line.len() > 0 && line[line.len() - 1] == '\r' {
                line.pop();
            }
            assert(line@ == strip_cr(prev_cur));
            let rendered = chars_to_string(line.as_slice());
            r.push(rendered);
            cur = Vec::new();
            proof {
                assert(lines_from(body, i as int, prev_cur) == seq![strip_cr(prev_cur)]
                    + lines_from(body, i + 1 as int, cur@));
                assert(r.deep_view() =~= prev_r.push(strip_cr(prev_cur)));
                assert(lines_from(body, 0, Seq::empty()) =~= r.deep_view() + lines_from(
                    body,
                    i + 1 as int,
                    cur@,
                ));
            }
        } else {
            cur.push(c);
            proof {
                assert(cur@ == prev_cur + seq![c]);
                assert(lines_from(body, i as int, prev_cur) == lines_from(
                    body,
                    i + 1 as int,
                    cur@,
                ));
            }
        }
        i = i + 1;
    }
    let mut line = cur;
    if line.len() > 0 && line[line.len() - 1] == '\r' {
        line.pop();
    }
    assert(line@ == strip_cr(cur@));
    let rendered = chars_to_string(line.as_slice());
    r.push(rendered);
    assert(r.deep_view() =~= lines_of(s@));
    r
}

/// `ls` joined with a single `'\n'` between consecutive elements.
pub open spec fn join_nl(ls: Seq<Seq<char>>) -> Seq<char>
    decreases ls.len(),
{
    if ls.len() == 0 {
        Seq::empty()
    } else if ls.len() == 1 {
        ls[0]
    } else {
        ls[0] + seq!['\n'] + join_nl(ls.drop_first())
    }
}

/// Joining one more line appends a separator and that line.
pub proof fn lemma_join_nl_push(ls: Seq<Seq<char>>, l: Seq<char>)
    requires
        ls.len() > 0,
    ensures
        join_nl(ls.push(l)) == join_nl(ls) + seq!['\n'] + l,
    decreases ls.len(),
{
    let p = ls.push(l);
    if ls.len() == 1 {
        assert(p.drop_first() =~= seq![l]);
        assert(join_nl(seq![l]) == l);
        assert(join_nl(p) == p[0] + seq!['\n'] + join_nl(p.drop_first()));
        assert(join_nl(ls) == ls[0]);
        assert(join_nl(p) =~= join_nl(ls) + seq!['\n'] + l);
    } else {
        lemma_join_nl_push(ls.drop_first(), l);
        assert(p.drop_first() =~= ls.drop_first().push(l));
        assert(join_nl(p) == p[0] + seq!['\n'] + join_nl(p.drop_first()));
        assert(join_nl(ls) == ls[0] + seq!['\n'] + join_nl(ls.drop_first()));
        assert(join_nl(p) =~= join_nl(ls) + seq!['\n'] + l);
    }
}

/// Joining a non-empty tail after a head line prepends the head and a
/// separator.
proof fn lemma_join_nl_cons(x: Seq<char>, r: Seq<Seq<char>>)
    requires
        r.len() >= 1,
    ensures
        join_nl(seq![x] + r) == x + seq!['\n'] + join_nl(r),
{
    let whole = seq![x] + r;
    assert(whole[0] == x);
    assert(whole.drop_first() =~= r);
    assert(join_nl(whole) == whole[0] + seq!['\n'] + join_nl(whole.drop_first()));
}

/// Splitting at newlines from position `i` with partial segment `cur`, then
/// joining again, rebuilds `cur` followed by the rest of the text.
proof fn lemma_join_split_from(s: Seq<char>, i: int, cur: Seq<char>)
    requires
        0 <= i <= s.len(),
    ensures
        join_nl(split_nl_from(s, i, cur)) == cur + s.skip(i),
    decreases s.len() - i,
{
    if i >= s.len() {
        assert(join_nl(seq![cur]) == cur);
        assert(cur + s.skip(i) =~= cur);
    } else if s[i] == '\n' {
        lemma_join_split_from(s, i + 1, Seq::empty());
        let rest = split_nl_from(s, i + 1, Seq::empty());
        lemma_split_nl_from_len(s, i + 1, Seq::empty());
        lemma_join_nl_cons(cur, rest);
        assert(Seq::empty() + s.skip(i + 1) =~= s.skip(i + 1));
        assert(cur + seq!['\n'] + s.skip(i + 1) =~= cur + s.skip(i));
    } else {
        lemma_join_split_from(s, i + 1, cur + seq![s[i]]);
        assert((cur + seq![s[i]]) + s.skip(i + 1) =~= cur + s.skip(i));
    }
}

/// Law: splitting a text at newlines and joining the segments with newlines
/// gives the text back — the line model loses nothing.
pub proof fn lemma_join_split_roundtrip(s: Seq<char>)
    ensures
        join_nl(split_nl(s)) == s,
{
    lemma_join_split_from(s, 0, Seq::empty());
    assert(Seq::empty() + s.skip(0) =~= s);
}

/// `ls` joined with newlines, as a fresh string.
pub fn join_lines(ls: &Vec<String>) -> (r: String)
    ensures
        r@ == join_nl(ls.deep_view()),
{
    let n = ls.len();
    let mut r = String::new();
    let mut i: usize = 0;
    while i < n
        invariant
            i <= n == ls@.len(),
            ls.deep_view().len() == ls@.len(),
            forall|j: int| 0 <= j < n ==> ls.deep_view()[j] == #[trigger] ls@[j]@,
            r@ == join_nl(ls.deep_view().take(i as int)),
        decreases n - i,
    {
        if i > 0 {
            r.push('\n');
        }
        r.append(ls[i].as_str());
        proof {
            let dv = ls.deep_view();
            assert(dv.take(i + 1 as int) =~= dv.take(i as int).push(dv[i as int]));
            if i > 0 {
                lemma_join_nl_push(dv.take(i as int), dv[i as int]);
                assert(r@ =~= join_nl(dv.take(i + 1 as int)));
            } else {
                assert(join_nl(dv.take(1)) == dv.take(1)[0]);
                assert(r@ =~= join_nl(dv.take(1)));
            }
        }
        i = i + 1;
    }
    assert(ls.deep_view().take(n as int) =~= ls.deep_view());
    r
}

/// The whitespace-normalized form of `s` from position `i` on. `started`
/// records whether a token has been emitted already; `pending` records
/// whether a separating space is owed before the next token.
pub open spec fn norm_from(s: Seq<char>, i: int, pending: bool, started: bool) -> Seq<char>
    decreases s.len() - i,
{
    if i < 0 || i >= s.len() {
        Seq::empty()
    } else if is_ws_char(s[i]) {
        norm_from(s, i + 1, started, started)
    } else if pending {
        seq![' ', s[i]] + norm_from(s, i + 1, false, true)
    } else {
        seq![s[i]] + norm_from(s, i + 1, false, true)
    }
}

/// `s` with every run of whitespace collapsed to a single space and with
/// leading and trailing whitespace removed (the tokens of `s` joined by
/// single spaces).
pub open spec fn norm_ws(s: Seq<char>) -> Seq<char> {
    norm_from(s, 0, false, false)
}

/// The pointwise whitespace-normalized form of a sequence of lines.
pub open spec fn norm_lines(ls: Seq<Seq<char>>) -> Seq<Seq<char>> {
    Seq::new(ls.len(), |i: int| norm_ws(ls[i]))
}

/// The longest all-whitespace prefix of `l`.
pub open spec fn leading_ws(l: Seq<char>) -> Seq<char>
    decreases l.len(),
{
    if l.len() > 0 && is_ws_char(l[0]) {
        seq![l[0]] + leading_ws(l.drop_first())
    } else {
        Seq::empty()
    }
}

/// A prefix of whitespace characters, not followed by more whitespace, is the
/// longest all-whitespace prefix.
pub proof fn lemma_leading_ws_exact(l: Seq<char>, k: int)
    requires
        0 <= k <= l.len(),
        forall|j: int| 0 <= j < k ==> is_ws_char(l[j]),
        k == l.len() || !is_ws_char(l[k]),
    ensures
        leading_ws(l) == l.take(k),
    decreases l.len(),
{
    if l.len() > 0 && is_ws_char(l[0]) {
        assert(k >= 1);
        lemma_leading_ws_exact(l.drop_first(), k - 1);
        assert(leading_ws(l) =~= l.take(k));
    } else {
        assert(leading_ws(l) =~= l.take(k));
    }
}

/// True iff every character of `l` is whitespace.
pub open spec fn is_blank_line(l: Seq<char>) -> bool {
    forall|i: int| 0 <= i < l.len() ==> is_ws_char(l[i])
}

/// Executable test for `is_blank_line`.
pub fn is_blank(l: &str) -> (r: bool)
    ensures
        r == is_blank_line(l@),
{
    let n = l.unicode_len();
    let mut i: usize = 0;
    while i < n
        invariant
            i <= n == l@.len(),
            forall|j: int| 0 <= j < i ==> is_ws_char(l@[j]),
        decreases n - i,
    {
        if !is_whitespace_char(l.get_char(i)) {
            return false;
        }
        i = i + 1;
    }
    true
}

/// The decimal digit character for `d` (which must lie in `0..=9`).
pub open spec fn dec_digit(d: int) -> char {
    if d == 0 {
        '0'
    } else if d == 1 {
        '1'
    } else if d == 2 {
        '2'
    } else if d == 3 {
        '3'
    } else if d == 4 {
        '4'
    } else if d == 5 {
        '5'
    } else if d == 6 {
        '6'
    } else if d == 7 {
        '7'
    } else if d == 8 {
        '8'
    } else {
        '9'
    }
}

/// The decimal rendering of `n`, without sign or leading zeros.
pub open spec fn dec_str(n: nat) -> Seq<char>
    decreases n,
{
    if n < 10 {
        seq![dec_digit(n as int)]
    } else {
        dec_str(n / 10) + seq![dec_digit((n % 10) as int)]
    }
}

/// Executable decimal digit character.
fn dec_digit_exec(d: u128) -> (c: char)
    requires
        d < 10,
    ensures
        c == dec_digit(d as int),
{
    if d == 0 {
        '0'
    } else if d == 1 {
        '1'
    } else if d == 2 {
        '2'
    } else if d == 3 {
        '3'
    } else if d == 4 {
        '4'
    } else if d == 5 {
        '5'
    } else if d == 6 {
        '6'
    } else if d == 7 {
        '7'
    } else if d == 8 {
        '8'
    } else {
        '9'
    }
}

/// Renders `n` in decimal.
pub fn u128_to_string(n: u128) -> (r: String)
    ensures
        r@ == dec_str(n as nat),
{
    let mut digits: Vec<char> = Vec::new();
    let mut m = n;
    loop
        invariant_except_break
            digits@.len() == 0 ==> m == n,
            digits@.len() > 0 ==> m > 0 && dec_str(n as nat) == dec_str(m as nat)
                + digits@.reverse(),
        ensures
            dec_str(n as nat) == digits@.reverse(),
        decreases m,
    {
        let ghost prev = digits@;
        let d = dec_digit_exec(m % 10);
        digits.push(d);
        proof {
            assert(digits@.reverse() =~= seq![d] + prev.reverse());
            if prev.len() == 0 {
                assert(prev.reverse() =~= Seq::<char>::empty());
                assert(dec_str(m as nat) + prev.reverse() =~= dec_str(m as nat));
            }
            // In both cases: dec_str(n) == dec_str(m) + prev.reverse().
            if m >= 10 {
                assert(dec_str(m as nat) == dec_str((m / 10) as nat) + seq![d]);
                assert(dec_str((m / 10) as nat) + digits@.reverse() =~= dec_str(m as nat)
                    + prev.reverse());
            } else {
                assert(dec_str(m as nat) == seq![d]);
                assert(digits@.reverse() =~= dec_str(m as nat) + prev.reverse());
            }
        }
        let next = m / 10;
        if next == 0 {
            break ;
        }
        m = next;
    }
    let k = digits.len();
    let mut r = String::new();
    let mut i: usize = 0;
    while i < k
        invariant
            i <= k == digits@.len(),
            r@ == digits@.reverse().take(i as int),
        decreases k - i,
    {
        r.push(digits[k - 1 - i]);
        proof {
            assert(digits@.reverse()[i as int] == digits@[k - 1 - i as int]);
            assert(r@ =~= digits@.reverse().take(i + 1 as int));
        }
        i = i + 1;
    }
    assert(digits@.reverse().take(k as int) =~= digits@.reverse());
    r
}

/// Renders `n` in decimal.
pub fn usize_to_string(n: usize) -> (r: String)
    ensures
        r@ == dec_str(n as nat),
{
    u128_to_string(n as u128)
}

/// True iff `pat` occurs in `content` starting at position `i`.
pub open spec fn occurs_at(content: Seq<char>, pat: Seq<char>, i: int) -> bool {
    0 <= i && i + pat.len() <= content.len() && content.subrange(i, i + pat.len()) == pat
}

/// The least position at or after `i` where `pat` occurs in `content`, or -1
/// if there is none.
pub open spec fn first_occurrence_from(content: Seq<char>, pat: Seq<char>, i: int) -> int
    decreases content.len() - i + 1,
{
    if i < 0 || i + pat.len() > content.len() {
        -1
    } else if occurs_at(content, pat, i) {
        i
    } else {
        first_occurrence_from(content, pat, i + 1)
    }
}

/// The least position where `pat` occurs in `content`, or -1 if none.
pub open spec fn first_occurrence(content: Seq<char>, pat: Seq<char>) -> int {
    first_occurrence_from(content, pat, 0)
}

/// `first_occurrence_from` finds exactly the least occurrence at or after `i`.
pub proof fn lemma_first_occurrence_from(content: Seq<char>, pat: Seq<char>, i: int)
    requires
        0 <= i,
    ensures
        first_occurrence_from(content, pat, i) >= 0 ==> occurs_at(
            content,
            pat,
            first_occurrence_from(content, pat, i),
        ) && i <= first_occurrence_from(content, pat, i) && (forall|j: int|
            i <= j < first_occurrence_from(content, pat, i) ==> !occurs_at(content, pat, j)),
        first_occurrence_from(content, pat, i) < 0 ==> forall|j: int|
            j >= i ==> !occurs_at(content, pat, j),
    decreases content.len() - i + 1,
{
    if i + pat.len() > content.len() {
        assert(forall|j: int| j >= i ==> !occurs_at(content, pat, j));
    } else if occurs_at(content, pat, i) {
    } else {
        lemma_first_occurrence_from(content, pat, i + 1);
    }
}

/// Finds the least occurrence of `pat` (as a character sequence) in
/// `content`, both given as character vectors.
pub fn find_first_occurrence(content: &[char], pat: &[char]) -> (r: Option<usize>)
    ensures
        match r {
            Some(k) => k as int == first_occurrence(content@, pat@),
            None => first_occurrence(content@, pat@) == -1,
        },
{
    let n = content.len();
    let m = pat.len();
    if m > n {
        proof {
            lemma_first_occurrence_from(content@, pat@, 0);
            if first_occurrence(content@, pat@) >= 0 {
                assert(occurs_at(content@, pat@, first_occurrence(content@, pat@)));
            }
        }
        return None;
    }
    let mut i: usize = 0;
    while i <= n - m
        invariant
            0 <= i <= n - m + 1,
            m <= n == content@.len(),
            m == pat@.len(),
            forall|j: int| 0 <= j < i ==> !occurs_at(content@, pat@, j),
            first_occurrence(content@, pat@) == first_occurrence_from(content@, pat@, i as int),
        decreases n - m - i + 1,
    {
        let mut k: usize = 0;
        let mut hit = true;
        while k < m
            invariant
                0 <= k <= m,
                i + m <= n,
                m <= n == content@.len(),
                m == pat@.len(),
                hit ==> forall|j: int| 0 <= j < k ==> content@[i + j] == pat@[j],
                !hit ==> !occurs_at(content@, pat@, i as int),
            decreases m - k,
        {
            if content[i + k] != pat[k] {
                proof {
                    assert(content@.subrange(i as int, i + m as int)[k as int] != pat@[k as int]);
                }
                hit = false;
                k = m;
            } else {
                k = k + 1;
            }
        }
        if hit {
            proof {
                assert(content@.subrange(i as int, i + m as int) =~= pat@);
                assert(occurs_at(content@, pat@, i as int));
            }
            return Some(i);
        }
        proof {
            assert(!occurs_at(content@, pat@, i as int));
            if m == 0 {
                assert(content@.subrange(i as int, i as int) =~= pat@);
                assert(false);
            }
            assert(first_occurrence_from(content@, pat@, i as int) == first_occurrence_from(
                content@,
                pat@,
                i + 1 as int,
            ));
        }
        i = i + 1;
    }
    proof {
        assert(first_occurrence_from(content@, pat@, i as int) == -1);
    }
    None
}

} // verus!
