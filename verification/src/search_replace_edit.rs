//! Fuzzy search-and-replace editing: a sequence of search/replace operations
//! applied in order, each matching exactly once, either as an exact substring
//! or as a whitespace-normalized block of lines with the replacement
//! re-indented to the matched block.

use vstd::prelude::*;

use crate::text::chars_to_string;
use crate::text::find_first_occurrence;
use crate::text::is_blank;
use crate::text::is_blank_line;
use crate::text::is_whitespace_char;
use crate::text::is_ws_char;
use crate::text::join_lines;
use crate::text::join_nl;
use crate::text::leading_ws;
use crate::text::lemma_leading_ws_exact;
use crate::text::norm_from;
use crate::text::norm_lines;
use crate::text::norm_ws;
use crate::text::split_nl;
use crate::text::split_on_newlines;
use crate::text::str_to_chars;

verus! {

/// One search/replace request: find `search` once, substitute `replace`.
#[derive(Debug)]
pub struct EditOperation {
    /// The text to look for; need not match whitespace exactly.
    pub search: String,
    /// The replacement text; empty to delete.
    pub replace: String,
}

impl View for EditOperation {
    type V = (Seq<char>, Seq<char>);

    open spec fn view(&self) -> (Seq<char>, Seq<char>) {
        (self.search@, self.replace@)
    }
}

/// An edit request against one file: the operations in application order.
pub struct SearchReplaceEditTool {
    /// Path of the file to edit.
    pub path: String,
    /// The operations, applied in the order given.
    pub edits: Vec<EditOperation>,
}

impl SearchReplaceEditTool {
    /// The confirmation message reported after all edits succeed.
    pub fn success_message(count: usize, path: &str) -> (r: String)
        ensures
            r@ == "Successfully applied "@ + crate::text::dec_str(count as nat) + " edits to "@
                + path@,
    {
        let mut r = String::new();
        r.append("Successfully applied ");
        let c = crate::text::usize_to_string(count);
        r.append(c.as_str());
        r.append(" edits to ");
        r.append(path);
        r
    }
}

/// Collapses every whitespace run in `text` to a single space and trims
/// leading and trailing whitespace.
pub fn normalize_whitespace(text: &str) -> (r: String)
    ensures
        r@ == norm_ws(text@),
{
    let n = text.unicode_len();
    let mut r = String::new();
    let mut pending = false;
    let mut started = false;
    let mut i: usize = 0;
    while i < n
        invariant
            i <= n == text@.len(),
            norm_ws(text@) == r@ + norm_from(text@, i as int, pending, started),
        decreases n - i,
    {
        let ghost prev = r@;
        let c = text.get_char(i);
        if is_whitespace_char(c) {
            pending = started;
        } else {
            if pending {
                r.push(' ');
                r.push(c);
                assert(r@ =~= prev + seq![' ', c]);
            } else {
                r.push(c);
                assert(r@ =~= prev + seq![c]);
            }
            pending = false;
            started = true;
        }
        proof {
            assert(norm_ws(text@) =~= r@ + norm_from(text@, i + 1 as int, pending, started));
        }
        i = i + 1;
    }
    r
}

/// The leading whitespace of `line`.
pub fn extract_indentation(line: &str) -> (r: String)
    ensures
        r@ == leading_ws(line@),
{
    let n = line.unicode_len();
    let mut i: usize = 0;
    let mut r = String::new();
    while i < n
        invariant
            i <= n == line@.len(),
            r@ == line@.take(i as int),
            forall|j: int| 0 <= j < i ==> is_ws_char(line@[j]),
        decreases n - i,
    {
        let c = line.get_char(i);
        if !is_whitespace_char(c) {
            proof {
                lemma_leading_ws_exact(line@, i as int);
            }
            return r;
        }
        r.push(c);
        assert(r@ =~= line@.take(i + 1 as int));
        i = i + 1;
    }
    proof {
        lemma_leading_ws_exact(line@, n as int);
        assert(line@.take(n as int) =~= line@);
    }
    r
}

/// Why a single edit failed.
#[derive(Debug)]
pub enum EditError {
    /// The search text matched nowhere, exactly or fuzzily.
    NotFound,
    /// The search text matched fuzzily in this many places (at least two).
    Ambiguous(usize),
}

/// True iff the `sl.len()` document lines starting at `start` equal `sl`
/// line for line after whitespace normalization (`sl` is already
/// normalized).
pub open spec fn window_matches(cl: Seq<Seq<char>>, sl: Seq<Seq<char>>, start: int) -> bool {
    &&& 0 <= start
    &&& start + sl.len() <= cl.len()
    &&& forall|k: int| 0 <= k < sl.len() ==> norm_ws(cl[start + k]) == sl[k]
}

/// All window positions at or after `i` that match, in increasing order.
pub open spec fn match_starts_from(cl: Seq<Seq<char>>, sl: Seq<Seq<char>>, i: int) -> Seq<int>
    decreases cl.len() - sl.len() - i + 1,
{
    if i < 0 || i > cl.len() - sl.len() {
        Seq::empty()
    } else if window_matches(cl, sl, i) {
        seq![i] + match_starts_from(cl, sl, i + 1)
    } else {
        match_starts_from(cl, sl, i + 1)
    }
}

/// All matching window positions, in increasing order.
pub open spec fn match_starts(cl: Seq<Seq<char>>, sl: Seq<Seq<char>>) -> Seq<int> {
    match_starts_from(cl, sl, 0)
}

/// The replacement lines re-indented to the matched block: `ind` is put
/// before the first line and before every later non-blank line; blank later
/// lines stay as they are.
pub open spec fn indent_lines(rl: Seq<Seq<char>>, ind: Seq<char>) -> Seq<Seq<char>> {
    Seq::new(
        rl.len(),
        |i: int|
            if i == 0 {
                ind + rl[0]
            } else if is_blank_line(rl[i]) {
                rl[i]
            } else {
                ind + rl[i]
            },
    )
}

/// The document after replacing the matched window at `start` by the
/// re-indented replacement lines.
pub open spec fn fuzzy_result(
    content: Seq<char>,
    search: Seq<char>,
    replace: Seq<char>,
    start: int,
) -> Seq<char> {
    let cl = split_nl(content);
    let sl = norm_lines(split_nl(search));
    let ind = leading_ws(cl[start]);
    let rl = indent_lines(split_nl(replace), ind);
    join_nl(cl.take(start) + rl + cl.skip(start + sl.len()))
}

/// Replaces the block of lines of `content` that matches `search` after
/// per-line whitespace normalization. Fails if no window or more than one
/// window matches; on success the single matched window is spliced out and
/// the replacement lines, re-indented to the matched block, spliced in.
pub fn fuzzy_search_replace(content: &str, search: &str, replace: &str) -> (r: Result<
    String,
    EditError,
>)
    ensures
        ({
            let cl = split_nl(content@);
            let sl = norm_lines(split_nl(search@));
            let ms = match_starts(cl, sl);
            match r {
                Ok(s) => ms.len() == 1 && s@ == fuzzy_result(content@, search@, replace@, ms[0]),
                Err(EditError::NotFound) => ms.len() == 0,
                Err(EditError::Ambiguous(n)) => n as int == ms.len() && ms.len() >= 2,
            }
        }),
{
    let ghost cl = split_nl(content@);
    let ghost sl = norm_lines(split_nl(search@));
    let content_lines = split_on_newlines(content);
    let search_lines = split_on_newlines(search);
    let n = content_lines.len();
    let m = search_lines.len();
    proof {
        crate::text::lemma_split_nl_from_len(search@, 0, Seq::empty());
        crate::text::lemma_split_nl_from_len(content@, 0, Seq::empty());
        assert(m >= 1 && n >= 1);
        assert(sl.len() == m && cl.len() == n);
    }

    // Normalize the search lines.
    let mut norm_search: Vec<String> = Vec::new();
    let mut i: usize = 0;
    while i < m
        invariant
            i <= m == search_lines@.len(),
            search_lines.deep_view() == split_nl(search@),
            sl == norm_lines(split_nl(search@)),
            norm_search@.len() == i,
            forall|j: int| 0 <= j < i ==> norm_search@[j]@ == sl[j],
        decreases m - i,
    {
        assert(search_lines@[i as int]@ == search_lines.deep_view()[i as int]);
        assert(sl[i as int] == norm_ws(split_nl(search@)[i as int]));
        let s = normalize_whitespace(search_lines[i].as_str());
        norm_search.push(s);
        i = i + 1;
    }

    // Normalize the content lines once.
    let mut norm_content: Vec<String> = Vec::new();
    let mut i: usize = 0;
    while i < n
        invariant
            i <= n == content_lines@.len(),
            content_lines.deep_view() == split_nl(content@),
            cl == split_nl(content@),
            norm_content@.len() == i,
            forall|j: int| 0 <= j < i ==> norm_content@[j]@ == norm_ws(cl[j]),
        decreases n - i,
    {
        assert(content_lines@[i as int]@ == content_lines.deep_view()[i as int]);
        let s = normalize_whitespace(content_lines[i].as_str());
        norm_content.push(s);
        i = i + 1;
    }

    // Collect every matching window position.
    let mut starts: Vec<usize> = Vec::new();
    if m <= n {
        let mut s: usize = 0;
        while s <= n - m
            invariant
                1 <= m <= n,
                0 <= s <= n - m + 1,
                n == content_lines@.len() && m == search_lines@.len(),
                cl.len() == n && sl.len() == m,
                norm_search@.len() == m,
                forall|j: int| 0 <= j < m ==> norm_search@[j]@ == sl[j],
                norm_content@.len() == n,
                forall|j: int| 0 <= j < n ==> norm_content@[j]@ == norm_ws(cl[j]),
                match_starts(cl, sl) =~= starts@.map_values(|x: usize| x as int)
                    + match_starts_from(cl, sl, s as int),
                forall|j: int| 0 <= j < starts@.len() ==> window_matches(
                    cl,
                    sl,
                    #[trigger] starts@[j] as int,
                ),
            decreases n - m - s + 1,
        {
            let ghost prev_starts = starts@;
            let mut k: usize = 0;
            let mut hit = true;
            while k < m
                invariant
                    0 <= k <= m,
                    s + m <= n,
                    norm_search@.len() == m && norm_content@.len() == n,
                    cl.len() == n && sl.len() == m,
                    forall|j: int| 0 <= j < m ==> norm_search@[j]@ == sl[j],
                    forall|j: int| 0 <= j < n ==> norm_content@[j]@ == norm_ws(cl[j]),
                    hit ==> forall|j: int| 0 <= j < k ==> norm_ws(cl[s + j]) == sl[j],
                    !hit ==> !window_matches(cl, sl, s as int),
                decreases m - k,
            {
                if !(norm_content[s + k] == norm_search[k]) {
                    proof {
                        assert(norm_ws(cl[s + k as int]) != sl[k as int]);
                    }
                    hit = false;
                    k = m;
                } else {
                    k = k + 1;
                }
            }
            if hit {
                assert(window_matches(cl, sl, s as int));
                starts.push(s);
                proof {
                    assert(starts@.map_values(|x: usize| x as int) =~= prev_starts.map_values(
                        |x: usize| x as int,
                    ).push(s as int));
                    assert(match_starts_from(cl, sl, s as int) == seq![s as int]
                        + match_starts_from(cl, sl, s + 1 as int));
                    assert(match_starts(cl, sl) =~= starts@.map_values(|x: usize| x as int)
                        + match_starts_from(cl, sl, s + 1 as int));
                }
            } else {
                proof {
                    assert(match_starts_from(cl, sl, s as int) == match_starts_from(
                        cl,
                        sl,
                        s + 1 as int,
                    ));
                }
            }
            s = s + 1;
        }
        proof {
            assert(match_starts_from(cl, sl, (n - m + 1) as int) == Seq::<int>::empty());
            assert(match_starts(cl, sl) =~= starts@.map_values(|x: usize| x as int));
        }
    } else {
        proof {
            assert(match_starts(cl, sl) == Seq::<int>::empty());
            assert(match_starts(cl, sl) =~= starts@.map_values(|x: usize| x as int));
        }
    }

    let count = starts.len();
    assert(match_starts(cl, sl).len() == count);
    if count == 0 {
        return Err(EditError::NotFound);
    }
    if count > 1 {
        return Err(EditError::Ambiguous(count));
    }

    // Exactly one match: splice the replacement in.
    let start = starts[0];
    assert(start as int == match_starts(cl, sl)[0]);
    assert(window_matches(cl, sl, start as int));
    assert(start + m <= n);
    assert(content_lines@[start as int]@ == cl[start as int]);
    let indentation = extract_indentation(content_lines[start].as_str());
    let ghost ind = leading_ws(cl[start as int]);
    let replace_lines = split_on_newlines(replace);
    let ghost rl = indent_lines(split_nl(replace@), ind);
    let rn = replace_lines.len();
    proof {
        crate::text::lemma_split_nl_from_len(replace@, 0, Seq::empty());
        assert(rn >= 1 && rl.len() == rn);
    }

    let mut out: Vec<String> = Vec::new();
    let mut i: usize = 0;
    while i < start
        invariant
            0 <= i <= start,
            1 <= m,
            start + m <= n,
            content_lines.deep_view() == cl && cl.len() == n,
            out@.len() == i,
            forall|j: int| 0 <= j < i ==> (#[trigger] out@[j])@ == cl[j],
        decreases start - i,
    {
        assert(content_lines@[i as int]@ == cl[i as int]);
        out.push(content_lines[i].clone());
        i = i + 1;
    }
    assert(replace_lines@[0]@ == split_nl(replace@)[0]);
    let mut first = indentation.clone();
    first.append(replace_lines[0].as_str());
    assert(first@ == ind + split_nl(replace@)[0]);
    out.push(first);
    assert(out@[start as int]@ == rl[0]);
    let mut k: usize = 1;
    while k < rn
        invariant
            1 <= k <= rn == replace_lines@.len(),
            1 <= m,
            start + m <= n,
            rl == indent_lines(split_nl(replace@), ind),
            replace_lines.deep_view() == split_nl(replace@),
            rl.len() == rn,
            indentation@ == ind,
            content_lines.deep_view() == cl && cl.len() == n,
            out@.len() == start + k,
            forall|j: int| 0 <= j < start ==> (#[trigger] out@[j])@ == cl[j],
            forall|t: int| 0 <= t < k ==> (#[trigger] out@[start + t])@ == rl[t],
        decreases rn - k,
    {
        assert(replace_lines@[k as int]@ == split_nl(replace@)[k as int]);
        if is_blank(replace_lines[k].as_str()) {
            assert(rl[k as int] == split_nl(replace@)[k as int]);
            out.push(replace_lines[k].clone());
        } else {
            assert(rl[k as int] == ind + split_nl(replace@)[k as int]);
            let mut t = indentation.clone();
            t.append(replace_lines[k].as_str());
            out.push(t);
        }
        k = k + 1;
    }
    let mut j: usize = start + m;
    while j < n
        invariant
            start + m <= j <= n,
            content_lines.deep_view() == cl && cl.len() == n,
            rl.len() == rn,
            out@.len() == start + rn + (j - start - m),
            forall|t: int| 0 <= t < start ==> (#[trigger] out@[t])@ == cl[t],
            forall|t: int| 0 <= t < rn ==> (#[trigger] out@[start + t])@ == rl[t],
            forall|t: int|
                start + m <= t < j ==> (#[trigger] out@[start + rn + t - start - m])@ == cl[t],
        decreases n - j,
    {
        assert(content_lines@[j as int]@ == cl[j as int]);
        out.push(content_lines[j].clone());
        j = j + 1;
    }
    proof {
        let target = cl.take(start as int) + rl + cl.skip(start + m as int);
        assert(out.deep_view().len() == target.len());
        assert forall|t: int| 0 <= t < target.len() implies out.deep_view()[t] == target[t] by {
            assert(out.deep_view()[t] == out@[t]@);
            if t < start {
                assert(out@[t]@ == cl[t]);
            } else if t < start + rn {
                assert(out@[start + (t - start)]@ == rl[t - start]);
            } else {
                let u = t - start - rn + start + m;
                assert(out@[start + rn + u - start - m]@ == cl[u]);
            }
        }
        assert(out.deep_view() =~= target);
    }
    let joined = join_lines(&out);
    Ok(joined)
}

/// What one edit does to a document.
pub enum EditOutcome {
    /// The edit applies and yields this new document text.
    Applied(Seq<char>),
    /// The search text matches nowhere.
    NotFound,
    /// The search text matches fuzzily in this many places (at least two).
    Ambiguous(int),
}

/// The outcome of one edit: the first exact occurrence of `search` is
/// replaced if there is one; otherwise the fuzzy line-block match decides.
pub open spec fn edit_outcome(content: Seq<char>, search: Seq<char>, replace: Seq<char>) -> EditOutcome {
    let fo = crate::text::first_occurrence(content, search);
    if fo >= 0 {
        EditOutcome::Applied(content.take(fo) + replace + content.skip(fo + search.len()))
    } else {
        let cl = split_nl(content);
        let sl = norm_lines(split_nl(search));
        let ms = match_starts(cl, sl);
        if ms.len() == 1 {
            EditOutcome::Applied(fuzzy_result(content, search, replace, ms[0]))
        } else if ms.len() == 0 {
            EditOutcome::NotFound
        } else {
            EditOutcome::Ambiguous(ms.len() as int)
        }
    }
}

/// Applies one edit: exact substring replacement of the first occurrence
/// when the search text occurs verbatim, else the fuzzy block replacement.
pub fn apply_edit(content: &str, edit: &EditOperation) -> (r: Result<String, EditError>)
    ensures
        match r {
            Ok(s) => edit_outcome(content@, edit.search@, edit.replace@) == EditOutcome::Applied(
                s@,
            ),
            Err(EditError::NotFound) => edit_outcome(content@, edit.search@, edit.replace@)
                == EditOutcome::NotFound,
            Err(EditError::Ambiguous(n)) => edit_outcome(content@, edit.search@, edit.replace@)
                == EditOutcome::Ambiguous(n as int),
        },
{
    let content_chars = str_to_chars(content);
    let search_chars = str_to_chars(edit.search.as_str());
    let found = find_first_occurrence(content_chars.as_slice(), search_chars.as_slice());
    match found {
        Some(at) => {
            proof {
                crate::text::lemma_first_occurrence_from(content@, edit.search@, 0);
            }
            // Splice the replacement over `[at, at + search.len())`.
            let m = search_chars.len();
            let n = content_chars.len();
            let mut out_chars: Vec<char> = Vec::new();
            let mut i: usize = 0;
            while i < at
                invariant
                    0 <= i <= at,
                    at + m <= n,
                    content_chars@ == content@ && n == content@.len(),
                    out_chars@ =~= content@.take(i as int),
                decreases at - i,
            {
                out_chars.push(content_chars[i]);
                assert(out_chars@ =~= content@.take(i + 1 as int));
                i = i + 1;
            }
            let mut prefix = chars_to_string(out_chars.as_slice());
            prefix.append(edit.replace.as_str());
            let mut suffix_chars: Vec<char> = Vec::new();
            let mut j: usize = at + m;
            while j < n
                invariant
                    at + m <= j <= n,
                    content_chars@ == content@ && n == content@.len(),
                    suffix_chars@ =~= content@.subrange(at + m as int, j as int),
                decreases n - j,
            {
                suffix_chars.push(content_chars[j]);
                assert(suffix_chars@ =~= content@.subrange(at + m as int, j + 1 as int));
                j = j + 1;
            }
            let suffix = chars_to_string(suffix_chars.as_slice());
            let result = prefix.concat(suffix.as_str());
            proof {
                assert(content@.subrange(at + m as int, n as int) =~= content@.skip(at + m as int));
                assert(result@ =~= content@.take(at as int) + edit.replace@ + content@.skip(
                    at + m as int,
                ));
            }
            Ok(result)
        },
        None => {
            proof {
                crate::text::lemma_first_occurrence_from(content@, edit.search@, 0);
            }
            fuzzy_search_replace(content, edit.search.as_str(), edit.replace.as_str())
        },
    }
}

/// The views of a sequence of edit operations.
pub open spec fn edit_views(edits: Seq<EditOperation>) -> Seq<(Seq<char>, Seq<char>)> {
    Seq::new(edits.len(), |i: int| edits[i]@)
}

/// The document after applying the edits from index `k` on in order, or the
/// index and outcome of the first edit that fails.
pub open spec fn edits_outcome_from(
    content: Seq<char>,
    edits: Seq<(Seq<char>, Seq<char>)>,
    k: int,
) -> Result<Seq<char>, (int, EditOutcome)>
    decreases edits.len() - k,
{
    if k < 0 || k >= edits.len() {
        Result::Ok(content)
    } else {
        match edit_outcome(content, edits[k].0, edits[k].1) {
            EditOutcome::Applied(c2) => edits_outcome_from(c2, edits, k + 1),
            o => Result::Err((k, o)),
        }
    }
}

/// The message reported for a failed edit outcome.
pub open spec fn outcome_message(o: EditOutcome) -> Seq<char> {
    match o {
        EditOutcome::Applied(_) => Seq::empty(),
        EditOutcome::NotFound => not_found_message(),
        EditOutcome::Ambiguous(n) => ambiguous_message(n),
    }
}

/// The message reported when the search text matches nowhere.
pub open spec fn not_found_message() -> Seq<char> {
    "Search text not found in file. Please verify the text exists and check for typos."@
}

/// The message reported when the search text matches in `n` places.
pub open spec fn ambiguous_message(n: int) -> Seq<char> {
    "Ambiguous: found "@ + crate::text::dec_str(if n >= 0 {
        n as nat
    } else {
        0
    }) + " potential matches"@
}

/// The message reported when edit `k` (zero-based) fails with detail `inner`.
pub open spec fn edit_failed_message(k: int, inner: Seq<char>) -> Seq<char> {
    "Edit "@ + crate::text::dec_str((k + 1) as nat) + " failed: "@ + inner
}

impl EditError {
    /// Renders the failure as its human-readable message.
    pub fn message(&self) -> (r: String)
        ensures
            r@ == match *self {
                EditError::NotFound => not_found_message(),
                EditError::Ambiguous(n) => ambiguous_message(n as int),
            },
    {
        match self {
            EditError::NotFound => {
                let mut r = String::new();
                r.append(
                    "Search text not found in file. Please verify the text exists and check for typos.",
                );
                r
            },
            EditError::Ambiguous(n) => {
                let mut r = String::new();
                r.append("Ambiguous: found ");
                let count = crate::text::usize_to_string(*n);
                r.append(count.as_str());
                r.append(" potential matches");
                r
            },
        }
    }
}

/// Applies every edit in order, each against the output of the previous one.
/// The first failing edit aborts the whole sequence, reported with its
/// one-based index; nothing is reported applied in that case.
pub fn apply_all_edits(content: &str, edits: &Vec<EditOperation>) -> (r: Result<
    String,
    crate::error::ToolError,
>)
    ensures
        ({
            let oc = edits_outcome_from(content@, edit_views(edits@), 0);
            match r {
                Ok(s) => oc == Result::<Seq<char>, (int, EditOutcome)>::Ok(s@),
                Err(e) => oc is Err && e == crate::error::ToolError::Other(e->Other_0) && (
                e->Other_0)@ == edit_failed_message(oc->Err_0.0, outcome_message(oc->Err_0.1)),
            }
        }),
{
    let ghost evs = edit_views(edits@);
    let n = edits.len();
    let mut result_content = String::new();
    result_content.append(content);
    assert(result_content@ =~= content@);
    let mut i: usize = 0;
    while i < n
        invariant
            0 <= i <= n == edits@.len(),
            evs == edit_views(edits@),
            evs.len() == n,
            edits_outcome_from(content@, evs, 0) == edits_outcome_from(
                result_content@,
                evs,
                i as int,
            ),
        decreases n - i,
    {
        assert(evs[i as int] == (edits@[i as int].search@, edits@[i as int].replace@));
        let step = apply_edit(result_content.as_str(), &edits[i]);
        match step {
            Ok(next) => {
                result_content = next;
            },
            Err(e) => {
                let detail = e.message();
                let mut msg = String::new();
                msg.append("Edit ");
                let idx = crate::text::usize_to_string(i + 1);
                msg.append(idx.as_str());
                msg.append(" failed: ");
                msg.append(detail.as_str());
                proof {
                    assert(msg@ =~= edit_failed_message(
                        i as int,
                        outcome_message(
                            edits_outcome_from(content@, evs, 0)->Err_0.1,
                        ),
                    ));
                }
                return Err(crate::error::ToolError::Other(msg));
            },
        }
        i = i + 1;
    }
    Ok(result_content)
}

} // verus!
