//! Content search: classifying files as searchable text, finding the lines
//! of a file that a compiled pattern matches with a small context window
//! around each, and rendering a bounded page of the full match set.

use vstd::prelude::*;

use crate::error::ToolError;
use crate::pattern::glob_compiles;
use crate::pattern::glob_matches;
use crate::pattern::regex_compiles;
use crate::pattern::regex_is_match;
use crate::pattern::CompiledGlob;
use crate::pattern::CompiledPattern;
use crate::text::dec_str;
use crate::text::is_control_char;
use crate::text::is_control_character;
use crate::text::join_lines;
use crate::text::join_nl;
use crate::text::lines_of;
use crate::text::split_into_lines;
use crate::text::str_eq;
use crate::text::u128_to_string;

verus! {

/// How many matches one result page holds.
pub const MAX_RESULTS_PER_PAGE: u32 = 20;

/// Lines longer than this many characters are never searched.
pub const MAX_LINE_LENGTH: usize = 10000;

/// How many characters of a file's content the text sniff samples.
pub const SAMPLE_SIZE_FOR_TEXT_DETECTION: usize = 8192;

/// Files larger than this many bytes are never searched.
pub const MAX_FILE_SIZE_BYTES: u64 = 10 * 1024 * 1024;

/// How many context lines are shown on each side of a match.
pub const DEFAULT_CONTEXT_LINES: usize = 2;

/// A zero-based line index.
#[derive(Clone, Copy)]
pub struct LineNumber(pub usize);

impl LineNumber {
    /// The zero-based index.
    pub fn value(self) -> (r: usize)
        ensures
            r == self.0,
    {
        self.0
    }

    /// The one-based line number shown to a reader.
    pub fn display(self) -> (r: usize)
        requires
            self.0 < usize::MAX,
        ensures
            r == self.0 + 1,
    {
        self.0 + 1
    }
}

/// A file size in bytes.
#[derive(Clone, Copy)]
pub struct FileSize(pub u64);

impl FileSize {
    /// True iff a file of this size is too large to search.
    pub fn exceeds_limit(self) -> (r: bool)
        ensures
            r == (self.0 > MAX_FILE_SIZE_BYTES),
    {
        self.0 > MAX_FILE_SIZE_BYTES
    }
}

/// The first line of the context window around line `i`.
pub open spec fn ctx_start(i: int) -> int {
    if i >= DEFAULT_CONTEXT_LINES {
        i - DEFAULT_CONTEXT_LINES
    } else {
        0
    }
}

/// The last line of the context window around line `i` in a file of `n`
/// lines.
pub open spec fn ctx_end(i: int, n: int) -> int {
    if i + DEFAULT_CONTEXT_LINES <= n - 1 {
        i + DEFAULT_CONTEXT_LINES
    } else {
        n - 1
    }
}

/// A count of context lines on each side of a match.
#[derive(Clone, Copy)]
pub struct ContextLines(pub usize);

impl ContextLines {
    /// The first line of the context window around `line`, clamped to the
    /// file's start.
    pub fn start_from(self, line: LineNumber) -> (r: usize)
        ensures
            r == if line.0 >= self.0 {
                line.0 - self.0
            } else {
                0int
            },
    {
        if line.0 >= self.0 {
            line.0 - self.0
        } else {
            0
        }
    }

    /// The last line of the context window around `line` in a file of
    /// `max_lines` lines, clamped to the file's end.
    pub fn end_at(self, line: LineNumber, max_lines: usize) -> (r: usize)
        requires
            line.0 + self.0 <= usize::MAX,
        ensures
            r == ({
                let limit: int = if max_lines == 0 {
                    0
                } else {
                    max_lines - 1
                };
                if line.0 + self.0 <= limit {
                    line.0 + self.0
                } else {
                    limit
                }
            }),
    {
        let limit = if max_lines == 0 {
            0
        } else {
            max_lines - 1
        };
        if line.0 + self.0 <= limit {
            line.0 + self.0
        } else {
            limit
        }
    }
}

/// The context window around one match: its clamped line bounds and the
/// rendered window text.
pub struct ContextMatch {
    /// First line of the window (zero-based).
    pub start_line: usize,
    /// Last line of the window (zero-based).
    pub end_line: usize,
    /// The window's lines joined by newlines.
    pub content: String,
}

/// One match: the file it was found in, the matching line, and the context
/// window around it.
pub struct FileMatch {
    /// The file's path as it will be reported.
    pub file_path: String,
    /// The zero-based matching line.
    pub match_line: LineNumber,
    /// The context window around the matching line.
    pub context: ContextMatch,
}

impl FileMatch {
    /// Bundles the parts of a match.
    pub fn new(file_path: String, match_line: LineNumber, context: ContextMatch) -> (r: FileMatch)
        ensures
            r.file_path == file_path && r.match_line == match_line && r.context == context,
    {
        FileMatch { file_path, match_line, context }
    }
}

/// A content-search request.
pub struct GrepTool {
    /// The regular expression to search for.
    pub regex: String,
    /// An optional glob that a file's path relative to the search root must
    /// match.
    pub include_pattern: Option<String>,
    /// How many matches to pass over before the reported page.
    pub offset: u32,
    /// Whether matching distinguishes letter case.
    pub case_sensitive: bool,
    /// The directory to search; the process's current directory when absent.
    pub working_directory: Option<String>,
}

/// The index of the last `c` in `s`, or -1.
pub open spec fn last_index_of(s: Seq<char>, c: char) -> int
    decreases s.len(),
{
    if s.len() == 0 {
        -1
    } else if s.last() == c {
        s.len() - 1
    } else {
        last_index_of(s.drop_last(), c)
    }
}

/// A position after which `c` never occurs, and that holds `c` (or is -1
/// with no `c` at all), is the last index of `c`.
proof fn lemma_last_index_exact(s: Seq<char>, c: char, k: int)
    requires
        -1 <= k < s.len(),
        k >= 0 ==> s[k] == c,
        forall|j: int| k < j < s.len() ==> s[j] != c,
    ensures
        last_index_of(s, c) == k,
    decreases s.len(),
{
    if s.len() > 0 {
        if s.last() == c {
            assert(k == s.len() - 1);
        } else {
            assert(k < s.len() - 1);
            lemma_last_index_exact(s.drop_last(), c, k);
        }
    }
}

/// The final path component: everything after the last `/`.
pub open spec fn file_name_of(path: Seq<char>) -> Seq<char> {
    path.skip(last_index_of(path, '/') + 1)
}

/// The extension of the final path component: everything after its last
/// dot, provided that dot is neither its first character nor absent.
pub open spec fn extension_of(path: Seq<char>) -> Option<Seq<char>> {
    let name = file_name_of(path);
    let di = last_index_of(name, '.');
    if di <= 0 {
        Option::None
    } else {
        Option::Some(name.skip(di + 1))
    }
}

/// The allow-list of file extensions treated as searchable text.
pub open spec fn is_text_extension(e: Seq<char>) -> bool {
    ||| e == "txt"@
    ||| e == "rs"@
    ||| e == "py"@
    ||| e == "js"@
    ||| e == "ts"@
    ||| e == "jsx"@
    ||| e == "tsx"@
    ||| e == "html"@
    ||| e == "css"@
    ||| e == "scss"@
    ||| e == "json"@
    ||| e == "yaml"@
    ||| e == "yml"@
    ||| e == "toml"@
    ||| e == "md"@
    ||| e == "xml"@
    ||| e == "svg"@
    ||| e == "sh"@
    ||| e == "bash"@
    ||| e == "c"@
    ||| e == "cpp"@
    ||| e == "h"@
    ||| e == "hpp"@
    ||| e == "java"@
    ||| e == "kt"@
    ||| e == "go"@
    ||| e == "php"@
    ||| e == "rb"@
    ||| e == "lua"@
    ||| e == "sql"@
    ||| e == "conf"@
    ||| e == "log"@
    ||| e == "ini"@
}

/// The well-known extensionless file names treated as searchable text.
pub open spec fn is_special_name(name: Seq<char>) -> bool {
    ||| name == "Dockerfile"@
    ||| name == "Makefile"@
    ||| name == "Rakefile"@
    ||| name == "Gemfile"@
    ||| name == "README"@
    ||| name == "LICENSE"@
    ||| name == ".gitignore"@
    ||| name == ".env"@
}

/// True iff the path names a file worth searching, by extension or by its
/// well-known name.
pub open spec fn is_text_path(path: Seq<char>) -> bool {
    (match extension_of(path) {
        Option::Some(e) => is_text_extension(e),
        Option::None => false,
    }) || is_special_name(file_name_of(path))
}

/// How a sampled character counts towards the non-text tally: a NUL byte
/// counts once as a NUL and once as a control character.
pub open spec fn sniff_weight(c: char) -> int {
    (if c == '\0' {
        1int
    } else {
        0int
    }) + (if is_control_char(c) && c != '\n' && c != '\r' && c != '\t' {
        1int
    } else {
        0int
    })
}

/// The non-text tally of a sample.
pub open spec fn sniff_count(s: Seq<char>) -> int
    decreases s.len(),
{
    if s.len() == 0 {
        0
    } else {
        sniff_count(s.drop_last()) + sniff_weight(s.last())
    }
}

/// True iff the content sniff accepts `content` as text: over the first
/// `SAMPLE_SIZE_FOR_TEXT_DETECTION` characters, NUL bytes and control
/// characters other than newline, carriage return and tab must make up less
/// than three tenths. Empty content is text.
pub open spec fn is_text_content(content: Seq<char>) -> bool {
    if content.len() == 0 {
        true
    } else {
        let sample = content.take(
            if content.len() <= SAMPLE_SIZE_FOR_TEXT_DETECTION {
                content.len() as int
            } else {
                SAMPLE_SIZE_FOR_TEXT_DETECTION as int
            },
        );
        sniff_count(sample) * 10 < sample.len() * 3
    }
}

/// Decides whether a candidate file is searchable text.
pub struct FileType;

impl FileType {
    /// True iff the path's final component ends in an allow-listed
    /// extension.
    pub fn has_text_extension(path: &str) -> (r: bool)
        ensures
            r == (match extension_of(path@) {
                Option::Some(e) => is_text_extension(e),
                Option::None => false,
            }),
    {
        let name = file_name_part(path);
        let n = name.as_str().unicode_len();
        let dot = last_index_in(name.as_str(), '.');
        match dot {
            None => false,
            Some(di) => {
                if di == 0 {
                    false
                } else {
                    let ext = name.as_str().substring_char(di + 1, n);
                    proof {
                        assert(ext@ =~= name@.skip(di + 1 as int));
                        assert(extension_of(path@) == Option::Some(ext@));
                    }
                    extension_in_allow_list(ext)
                }
            },
        }
    }

    /// True iff the path's final component is a well-known text file name.
    pub fn is_special_file(path: &str) -> (r: bool)
        ensures
            r == is_special_name(file_name_of(path@)),
    {
        let name = file_name_part(path);
        let s = name.as_str();
        if str_eq(s, "Dockerfile") {
            true
        } else if str_eq(s, "Makefile") {
            true
        } else if str_eq(s, "Rakefile") {
            true
        } else if str_eq(s, "Gemfile") {
            true
        } else if str_eq(s, "README") {
            true
        } else if str_eq(s, "LICENSE") {
            true
        } else if str_eq(s, ".gitignore") {
            true
        } else {
            str_eq(s, ".env")
        }
    }

    /// True iff the path names a file worth searching at all.
    pub fn is_likely_text_file(path: &str) -> (r: bool)
        ensures
            r == is_text_path(path@),
    {
        FileType::has_text_extension(path) || FileType::is_special_file(path)
    }

    /// True iff the content sniff accepts `content` as text.
    pub fn is_likely_utf8_text(content: &str) -> (r: bool)
        ensures
            r == is_text_content(content@),
    {
        let n = content.unicode_len();
        if n == 0 {
            return true;
        }
        let sample_len = if n <= SAMPLE_SIZE_FOR_TEXT_DETECTION {
            n
        } else {
            SAMPLE_SIZE_FOR_TEXT_DETECTION
        };
        let mut count: u64 = 0;
        let mut i: usize = 0;
        while i < sample_len
            invariant
                0 <= i <= sample_len <= n == content@.len(),
                sample_len <= SAMPLE_SIZE_FOR_TEXT_DETECTION,
                count == sniff_count(content@.take(i as int)),
                count <= 2 * i,
            decreases sample_len - i,
        {
            let c = content.get_char(i);
            let mut w: u64 = 0;
            if c == '\0' {
                w = w + 1;
            }
            if is_control_character(c) && c != '\n' && c != '\r' && c != '\t' {
                w = w + 1;
            }
            proof {
                assert(w == sniff_weight(content@[i as int]));
                let t = content@.take(i + 1 as int);
                assert(t.drop_last() =~= content@.take(i as int));
                assert(t.last() == content@[i as int]);
            }
            count = count + w;
            i = i + 1;
        }
        count * 10 < (sample_len as u64) * 3
    }
}

/// The final path component, as a fresh string.
fn file_name_part(path: &str) -> (r: String)
    ensures
        r@ == file_name_of(path@),
{
    let n = path.unicode_len();
    let slash = last_index_in(path, '/');
    match slash {
        None => {
            let mut r = String::new();
            r.append(path);
            assert(r@ =~= path@.skip(-1 + 1));
            r
        },
        Some(k) => {
            let rest = path.substring_char(k + 1, n);
            let mut r = String::new();
            r.append(rest);
            assert(r@ =~= path@.skip(k + 1 as int));
            r
        },
    }
}

/// The position of the last `c` in `s`, if any.
fn last_index_in(s: &str, c: char) -> (r: Option<usize>)
    ensures
        match r {
            Some(k) => k < s@.len() && k as int == last_index_of(s@, c),
            None => last_index_of(s@, c) == -1,
        },
{
    let n = s.unicode_len();
    let mut found: Option<usize> = None;
    let mut i: usize = 0;
    while i < n
        invariant
            0 <= i <= n == s@.len(),
            match found {
                Some(k) => k < i && s@[k as int] == c && forall|j: int| k < j < i ==> s@[j] != c,
                None => forall|j: int| 0 <= j < i ==> s@[j] != c,
            },
        decreases n - i,
    {
        if s.get_char(i) == c {
            found = Some(i);
        }
        i = i + 1;
    }
    proof {
        match found {
            Some(k) => {
                lemma_last_index_exact(s@, c, k as int);
            },
            None => {
                lemma_last_index_exact(s@, c, -1);
            },
        }
    }
    found
}

/// Membership of an extension in the allow-list.
fn extension_in_allow_list(e: &str) -> (r: bool)
    ensures
        r == is_text_extension(e@),
{
    str_eq(e, "txt") || str_eq(e, "rs") || str_eq(e, "py") || str_eq(e, "js") || str_eq(e, "ts")
        || str_eq(e, "jsx") || str_eq(e, "tsx") || str_eq(e, "html") || str_eq(e, "css") || str_eq(
        e,
        "scss",
    ) || str_eq(e, "json") || str_eq(e, "yaml") || str_eq(e, "yml") || str_eq(e, "toml") || str_eq(
        e,
        "md",
    ) || str_eq(e, "xml") || str_eq(e, "svg") || str_eq(e, "sh") || str_eq(e, "bash") || str_eq(
        e,
        "c",
    ) || str_eq(e, "cpp") || str_eq(e, "h") || str_eq(e, "hpp") || str_eq(e, "java") || str_eq(
        e,
        "kt",
    ) || str_eq(e, "go") || str_eq(e, "php") || str_eq(e, "rb") || str_eq(e, "lua") || str_eq(
        e,
        "sql",
    ) || str_eq(e, "conf") || str_eq(e, "log") || str_eq(e, "ini")
}

/// A search request compiled and validated: the pattern engine and the
/// optional glob filter.
pub struct SearchConfiguration {
    /// The compiled pattern, carrying its text and case flag.
    pub regex: CompiledPattern,
    /// The compiled glob filter, if the request named one.
    pub file_filter: Option<CompiledGlob>,
}

impl SearchConfiguration {
    /// Compiles a request's pattern and optional glob. Fails exactly when
    /// the pattern (or the glob, if present) does not compile, reporting an
    /// invalid-argument error that names the failing part.
    pub fn new(tool: &GrepTool) -> (r: Result<SearchConfiguration, ToolError>)
        ensures
            r is Ok <==> regex_compiles(tool.regex@, tool.case_sensitive) && (match tool
                .include_pattern {
                Option::Some(p) => glob_compiles(p@),
                Option::None => true,
            }),
            r is Ok ==> {
                let c = r->Ok_0;
                &&& c.regex.pattern_spec() == tool.regex@
                &&& c.regex.case_sensitive_spec() == tool.case_sensitive
                &&& (match tool.include_pattern {
                    Option::Some(p) => c.file_filter is Some && c.file_filter->0.pattern_spec()
                        == p@,
                    Option::None => c.file_filter is None,
                })
            },
            r is Err ==> r->Err_0 is InvalidArgument,
            r is Err && !regex_compiles(tool.regex@, tool.case_sensitive) ==> (
            r->Err_0->InvalidArgument_0)@.take("Regex compilation failed: "@.len() as int)
                == "Regex compilation failed: "@,
            r is Err && regex_compiles(tool.regex@, tool.case_sensitive) ==> (
            r->Err_0->InvalidArgument_0)@.take("Invalid glob pattern: "@.len() as int)
                == "Invalid glob pattern: "@,
    {
        let regex = match CompiledPattern::compile(tool.regex.as_str(), tool.case_sensitive) {
            Ok(re) => re,
            Err(detail) => {
                let mut msg = String::new();
                msg.append("Regex compilation failed: ");
                msg.append(detail.as_str());
                assert(msg@.take("Regex compilation failed: "@.len() as int)
                    =~= "Regex compilation failed: "@);
                return Err(ToolError::InvalidArgument(msg));
            },
        };
        let file_filter = match &tool.include_pattern {
            Option::Some(p) => {
                match CompiledGlob::compile(p.as_str()) {
                    Ok(g) => Option::Some(g),
                    Err(detail) => {
                        let mut msg = String::new();
                        msg.append("Invalid glob pattern: ");
                        msg.append(detail.as_str());
                        assert(msg@.take("Invalid glob pattern: "@.len() as int)
                            =~= "Invalid glob pattern: "@);
                        return Err(ToolError::InvalidArgument(msg));
                    },
                }
            },
            Option::None => Option::None,
        };
        Ok(SearchConfiguration { regex, file_filter })
    }

    /// True iff the request's glob accepts this path (relative to the search
    /// root); a request without a glob accepts every path.
    pub fn matches_file_filter(&self, rel_path: &str) -> (r: bool)
        ensures
            r == (match self.file_filter {
                Option::Some(f) => glob_matches(f.pattern_spec(), rel_path@),
                Option::None => true,
            }),
    {
        match &self.file_filter {
            Option::Some(f) => f.matches(rel_path),
            Option::None => true,
        }
    }
}

/// True iff the pattern matches line `l`, which must also be short enough to
/// search at all.
pub open spec fn line_hits(l: Seq<char>, pat: Seq<char>, cs: bool) -> bool {
    l.len() <= MAX_LINE_LENGTH && regex_is_match(pat, cs, l)
}

/// The indices at or after `i` of the lines the pattern matches, in
/// increasing order.
pub open spec fn match_idxs_from(lines: Seq<Seq<char>>, pat: Seq<char>, cs: bool, i: int) -> Seq<
    int,
>
    decreases lines.len() - i,
{
    if i < 0 || i >= lines.len() {
        Seq::empty()
    } else if line_hits(lines[i], pat, cs) {
        seq![i] + match_idxs_from(lines, pat, cs, i + 1)
    } else {
        match_idxs_from(lines, pat, cs, i + 1)
    }
}

/// The indices of the lines the pattern matches, in increasing order.
pub open spec fn match_idxs(lines: Seq<Seq<char>>, pat: Seq<char>, cs: bool) -> Seq<int> {
    match_idxs_from(lines, pat, cs, 0)
}

/// True iff `m` records a match of line `i` of the file `path` whose lines
/// are `lines`, with the clamped two-line context window around it.
pub open spec fn is_match_record(
    m: FileMatch,
    path: Seq<char>,
    lines: Seq<Seq<char>>,
    i: int,
) -> bool {
    &&& m.file_path@ == path
    &&& m.match_line.0 == i
    &&& m.context.start_line == ctx_start(i)
    &&& m.context.end_line == ctx_end(i, lines.len() as int)
    &&& m.context.content@ == join_nl(
        lines.subrange(ctx_start(i), ctx_end(i, lines.len() as int) + 1),
    )
}

impl GrepTool {
    /// Decides whether a directory entry is searched at all: it must be a
    /// file, its path relative to the search root must pass the request's
    /// glob, and its path must name a likely text file.
    pub fn should_search_file(
        &self,
        config: &SearchConfiguration,
        is_file: bool,
        rel_path: &str,
        path: &str,
    ) -> (r: bool)
        ensures
            r == (is_file && (match config.file_filter {
                Option::Some(f) => glob_matches(f.pattern_spec(), rel_path@),
                Option::None => true,
            }) && is_text_path(path@)),
    {
        is_file && config.matches_file_filter(rel_path) && FileType::is_likely_text_file(path)
    }

    /// The clamped context window around `match_line`.
    pub fn extract_context(&self, content_lines: &Vec<String>, match_line: LineNumber) -> (r:
        ContextMatch)
        requires
            match_line.0 < content_lines@.len(),
        ensures
            r.start_line == ctx_start(match_line.0 as int),
            r.end_line == ctx_end(match_line.0 as int, content_lines@.len() as int),
            r.content@ == join_nl(
                content_lines.deep_view().subrange(
                    ctx_start(match_line.0 as int),
                    ctx_end(match_line.0 as int, content_lines@.len() as int) + 1,
                ),
            ),
    {
        let ghost lines = content_lines.deep_view();
        let n = content_lines.len();
        let start_line = if match_line.0 >= DEFAULT_CONTEXT_LINES {
            match_line.0 - DEFAULT_CONTEXT_LINES
        } else {
            0
        };
        let end_line = if n - 1 - match_line.0 >= DEFAULT_CONTEXT_LINES {
            match_line.0 + DEFAULT_CONTEXT_LINES
        } else {
            n - 1
        };
        assert(start_line as int == ctx_start(match_line.0 as int));
        assert(end_line as int == ctx_end(match_line.0 as int, n as int));
        let mut window: Vec<String> = Vec::new();
        let mut i: usize = start_line;
        while i <= end_line
            invariant
                start_line <= i <= end_line + 1,
                end_line < n == content_lines@.len(),
                lines == content_lines.deep_view(),
                window@.len() == i - start_line,
                forall|j: int|
                    0 <= j < i - start_line ==> (#[trigger] window@[j])@ == lines[start_line + j],
            decreases end_line + 1 - i,
        {
            assert(content_lines@[i as int]@ == lines[i as int]);
            window.push(content_lines[i].clone());
            i = i + 1;
        }
        assert(window.deep_view() =~= lines.subrange(start_line as int, end_line + 1 as int));
        let content = join_lines(&window);
        ContextMatch { start_line, end_line, content }
    }

    /// Finds every match of the request's pattern in one file's content:
    /// one record per matching line, in line order, skipping over-long
    /// lines, each with its context window.
    pub fn find_matches_in_content(
        &self,
        file_path: &str,
        content: &str,
        config: &SearchConfiguration,
    ) -> (r: Vec<FileMatch>)
        ensures
            ({
                let lines = lines_of(content@);
                let idxs = match_idxs(
                    lines,
                    config.regex.pattern_spec(),
                    config.regex.case_sensitive_spec(),
                );
                &&& r@.len() == idxs.len()
                &&& forall|k: int|
                    0 <= k < idxs.len() ==> is_match_record(
                        #[trigger] r@[k],
                        file_path@,
                        lines,
                        idxs[k],
                    )
            }),
    {
        let ghost lines = lines_of(content@);
        let ghost pat = config.regex.pattern_spec();
        let ghost cs = config.regex.case_sensitive_spec();
        let content_lines = split_into_lines(content);
        let n = content_lines.len();
        let mut matches: Vec<FileMatch> = Vec::new();
        let mut i: usize = 0;
        while i < n
            invariant
                0 <= i <= n == content_lines@.len(),
                lines == content_lines.deep_view() && lines == lines_of(content@),
                pat == config.regex.pattern_spec() && cs == config.regex.case_sensitive_spec(),
                match_idxs(lines, pat, cs) =~= matches@.map_values(
                    |m: FileMatch| m.match_line.0 as int,
                ) + match_idxs_from(lines, pat, cs, i as int),
                forall|k: int|
                    0 <= k < matches@.len() ==> is_match_record(
                        #[trigger] matches@[k],
                        file_path@,
                        lines,
                        matches@[k].match_line.0 as int,
                    ),
            decreases n - i,
        {
            let ghost prev = matches@;
            assert(content_lines@[i as int]@ == lines[i as int]);
            let line = &content_lines[i];
            let hit = if line.as_str().unicode_len() > MAX_LINE_LENGTH {
                false
            } else {
                config.regex.is_match(line.as_str())
            };
            if hit {
                assert(line_hits(lines[i as int], pat, cs));
                let context = self.extract_context(&content_lines, LineNumber(i));
                let mut path_copy = String::new();
                path_copy.append(file_path);
                assert(path_copy@ =~= file_path@);
                let m = FileMatch::new(path_copy, LineNumber(i), context);
                matches.push(m);
                proof {
                    assert(matches@.map_values(|m: FileMatch| m.match_line.0 as int)
                        =~= prev.map_values(|m: FileMatch| m.match_line.0 as int).push(i as int));
                    assert(match_idxs_from(lines, pat, cs, i as int) == seq![i as int]
                        + match_idxs_from(lines, pat, cs, i + 1 as int));
                    assert(match_idxs(lines, pat, cs) =~= matches@.map_values(
                        |m: FileMatch| m.match_line.0 as int,
                    ) + match_idxs_from(lines, pat, cs, i + 1 as int));
                }
            } else {
                proof {
                    assert(!line_hits(lines[i as int], pat, cs));
                    assert(match_idxs_from(lines, pat, cs, i as int) == match_idxs_from(
                        lines,
                        pat,
                        cs,
                        i + 1 as int,
                    ));
                }
            }
            i = i + 1;
        }
        proof {
            assert(match_idxs_from(lines, pat, cs, n as int) == Seq::<int>::empty());
            assert(match_idxs(lines, pat, cs) =~= matches@.map_values(
                |m: FileMatch| m.match_line.0 as int,
            ));
            assert forall|k: int|
                0 <= k < match_idxs(lines, pat, cs).len() implies is_match_record(
                matches@[k],
                file_path@,
                lines,
                match_idxs(lines, pat, cs)[k],
            ) by {
                assert(match_idxs(lines, pat, cs)[k] == matches@.map_values(
                    |m: FileMatch| m.match_line.0 as int,
                )[k]);
            }
        }
        matches
    }

    /// The page `[offset, offset + MAX_RESULTS_PER_PAGE)` of the matches,
    /// clamped to what exists; an offset beyond the matches yields an empty
    /// page.
    pub fn paginate_matches<'a>(&self, matches: &'a [FileMatch]) -> (r: &'a [FileMatch])
        ensures
            r@ == page_of(matches@, self.offset as int),
    {
        let start = self.offset as usize;
        let n = matches.len();
        if start >= n {
            let empty = &matches[0..0];
            assert(empty@ =~= page_of(matches@, self.offset as int));
            empty
        } else {
            let end = if n - start >= MAX_RESULTS_PER_PAGE as usize {
                start + MAX_RESULTS_PER_PAGE as usize
            } else {
                n
            };
            let page = &matches[start..end];
            assert(page@ =~= page_of(matches@, self.offset as int));
            page
        }
    }

    /// Renders a page of matches grouped by file, then appends the
    /// pagination trailer.
    #[verifier::rlimit(60)]
    pub fn format_match_output(&self, matches: &[FileMatch], total_count: u32) -> (r: String)
        requires
            matches@.len() <= u32::MAX,
        ensures
            r@ == pagination_spec(
                self.offset as int,
                matches@.len() as int,
                total_count as int,
                render_matches(matches@),
            ),
    {
        let ghost ms = matches@;
        let n = matches.len();
        let mut body = String::new();
        let mut k: usize = 0;
        while k < n
            invariant
                0 <= k <= n == ms.len(),
                ms == matches@,
                render_matches(ms) =~= body@ + render_from(ms, k as int),
            decreases n - k,
        {
            let ghost prev = body@;
            let m = &matches[k];
            let new_file = if k == 0 {
                true
            } else {
                !crate::text::str_eq(matches[k - 1].file_path.as_str(), m.file_path.as_str())
            };
            if new_file {
                body.append("\n## File: ");
                body.append(m.file_path.as_str());
                body.append("\n");
                assert(body@ =~= prev + file_header(ms[k as int].file_path@));
            }
            let ghost with_header = body@;
            body.append("\n### L");
            let line_no = u128_to_string((m.match_line.value() as u128) + 1);
            body.append(line_no.as_str());
            body.append(" (context: ");
            let cs_no = u128_to_string((m.context.start_line as u128) + 1);
            body.append(cs_no.as_str());
            body.append("-");
            let ce_no = u128_to_string((m.context.end_line as u128) + 1);
            body.append(ce_no.as_str());
            body.append(")\n");
            body.append("```\n");
            body.append(m.context.content.as_str());
            body.append("\n```\n");
            proof {
                assert((ms[k as int].match_line.0 as u128 + 1) as nat == (ms[k as int].match_line.0
                    + 1) as nat);
                assert(body@ =~= with_header + match_block(ms[k as int]));
                assert(render_from(ms, k as int) == (if k == 0 || ms[k - 1].file_path@
                    != ms[k as int].file_path@ {
                    file_header(ms[k as int].file_path@)
                } else {
                    Seq::<char>::empty()
                }) + match_block(ms[k as int]) + render_from(ms, k + 1 as int));
                assert(render_matches(ms) =~= body@ + render_from(ms, k + 1 as int));
            }
            k = k + 1;
        }
        assert(render_from(ms, n as int) == Seq::<char>::empty());
        assert(body@ =~= render_matches(ms));
        self.add_pagination_info(body, matches.len() as u32, total_count)
    }

    /// Appends the pagination trailer: either the one-based range shown, the
    /// total and the offset of the next page, or the total alone when
    /// nothing follows this page.
    pub fn add_pagination_info(&self, result: String, matches_shown: u32, total_count: u32) -> (r:
        String)
        ensures
            r@ == pagination_spec(
                self.offset as int,
                matches_shown as int,
                total_count as int,
                result@,
            ),
    {
        let has_more = (self.offset as u64) + (matches_shown as u64) < (total_count as u64);
        let mut r = String::new();
        if has_more {
            r.append("Results ");
            let from = u128_to_string((self.offset as u128) + 1);
            r.append(from.as_str());
            r.append("-");
            let to = u128_to_string((self.offset as u128) + (matches_shown as u128));
            r.append(to.as_str());
            r.append(" of ");
            let total = u128_to_string(total_count as u128);
            r.append(total.as_str());
            r.append(" total (use offset: ");
            let next = u128_to_string((self.offset as u128) + (MAX_RESULTS_PER_PAGE as u128));
            r.append(next.as_str());
            r.append(" for next page):");
            r.append(result.as_str());
            r.append("\n");
            proof {
                assert((self.offset as u128 + matches_shown as u128) as nat == (self.offset as int
                    + matches_shown as int) as nat);
                assert(r@ =~= pagination_spec(
                    self.offset as int,
                    matches_shown as int,
                    total_count as int,
                    result@,
                ));
            }
        } else {
            r.append("Found ");
            let total = u128_to_string(total_count as u128);
            r.append(total.as_str());
            r.append(" total matches:");
            r.append(result.as_str());
            r.append("\n");
            proof {
                assert(r@ =~= pagination_spec(
                    self.offset as int,
                    matches_shown as int,
                    total_count as int,
                    result@,
                ));
            }
        }
        r
    }

    /// Renders the full result of a search: `"No matches found"` when there
    /// are none, else the requested page grouped by file with the
    /// pagination trailer.
    pub fn format_results(&self, matches: &[FileMatch]) -> (r: String)
        requires
            matches@.len() <= u32::MAX,
        ensures
            r@ == results_spec(self.offset as int, matches@),
    {
        if matches.len() == 0 {
            let mut r = String::new();
            r.append("No matches found");
            assert(r@ =~= "No matches found"@);
            return r;
        }
        let page = self.paginate_matches(matches);
        self.format_match_output(page, matches.len() as u32)
    }
}

/// The page `[offset, offset + MAX_RESULTS_PER_PAGE)` of `ms`, clamped.
pub open spec fn page_of(ms: Seq<FileMatch>, offset: int) -> Seq<FileMatch> {
    if offset >= ms.len() {
        Seq::empty()
    } else if offset + MAX_RESULTS_PER_PAGE <= ms.len() {
        ms.subrange(offset, offset + MAX_RESULTS_PER_PAGE)
    } else {
        ms.subrange(offset, ms.len() as int)
    }
}

/// The header emitted when the rendered match's file differs from the
/// previous rendered match's file.
pub open spec fn file_header(path: Seq<char>) -> Seq<char> {
    "\n## File: "@ + path + "\n"@
}

/// The rendered block of one match: the one-based line-number heading with
/// the window's one-based bounds, then the window text fenced in backticks.
pub open spec fn match_block(m: FileMatch) -> Seq<char> {
    "\n### L"@ + dec_str((m.match_line.0 + 1) as nat) + " (context: "@ + dec_str(
        (m.context.start_line + 1) as nat,
    ) + "-"@ + dec_str((m.context.end_line + 1) as nat) + ")\n"@ + "```\n"@ + m.context.content@
        + "\n```\n"@
}

/// The matches from index `k` on, rendered in order and grouped by file.
pub open spec fn render_from(ms: Seq<FileMatch>, k: int) -> Seq<char>
    decreases ms.len() - k,
{
    if k < 0 || k >= ms.len() {
        Seq::empty()
    } else {
        (if k == 0 || ms[k - 1].file_path@ != ms[k].file_path@ {
            file_header(ms[k].file_path@)
        } else {
            Seq::empty()
        }) + match_block(ms[k]) + render_from(ms, k + 1)
    }
}

/// A page of matches rendered in order and grouped by file.
pub open spec fn render_matches(ms: Seq<FileMatch>) -> Seq<char> {
    render_from(ms, 0)
}

/// The rendered page body with its pagination trailer in front: the
/// one-based range shown, the total, and the next offset when more matches
/// remain; the total alone otherwise.
pub open spec fn pagination_spec(offset: int, shown: int, total: int, body: Seq<char>) -> Seq<
    char,
> {
    if offset + shown < total {
        "Results "@ + dec_str((offset + 1) as nat) + "-"@ + dec_str((offset + shown) as nat)
            + " of "@ + dec_str(total as nat) + " total (use offset: "@ + dec_str(
            (offset + MAX_RESULTS_PER_PAGE) as nat,
        ) + " for next page):"@ + body + "\n"@
    } else {
        "Found "@ + dec_str(total as nat) + " total matches:"@ + body + "\n"@
    }
}

/// Law: a page holds at most `MAX_RESULTS_PER_PAGE` matches, and a second
/// page requested at an offset advanced by the first page's length follows
/// the first with no overlap and no gap, in the same global order: together
/// the two pages are exactly the matches from `offset` up to two page
/// lengths further (or to the end, whichever comes first). In particular,
/// when everything fits in two pages, the two calls together yield all the
/// remaining matches.
pub proof fn lemma_pagination_two_pages(ms: Seq<FileMatch>, offset: int)
    requires
        0 <= offset <= ms.len(),
    ensures
        page_of(ms, offset).len() <= MAX_RESULTS_PER_PAGE,
        page_of(ms, offset) + page_of(ms, offset + page_of(ms, offset).len()) == ms.subrange(
            offset,
            if offset + 2 * MAX_RESULTS_PER_PAGE <= ms.len() {
                offset + 2 * MAX_RESULTS_PER_PAGE
            } else {
                ms.len() as int
            },
        ),
        offset + 2 * MAX_RESULTS_PER_PAGE >= ms.len() ==> page_of(ms, offset) + page_of(
            ms,
            offset + page_of(ms, offset).len(),
        ) == ms.skip(offset),
{
    let p0 = page_of(ms, offset);
    let p1 = page_of(ms, offset + p0.len());
    if offset + MAX_RESULTS_PER_PAGE <= ms.len() {
        assert(p0 =~= ms.subrange(offset, offset + MAX_RESULTS_PER_PAGE));
    } else if offset < ms.len() {
        assert(p0 =~= ms.subrange(offset, ms.len() as int));
    } else {
        assert(p0 =~= Seq::<FileMatch>::empty());
    }
    if offset + 2 * MAX_RESULTS_PER_PAGE <= ms.len() {
        assert(p0 + p1 =~= ms.subrange(offset, offset + 2 * MAX_RESULTS_PER_PAGE));
    } else {
        assert(p0 + p1 =~= ms.subrange(offset, ms.len() as int));
        assert(ms.subrange(offset, ms.len() as int) =~= ms.skip(offset));
    }
}

/// The full rendered result of a search over the complete match sequence.
pub open spec fn results_spec(offset: int, ms: Seq<FileMatch>) -> Seq<char> {
    if ms.len() == 0 {
        "No matches found"@
    } else {
        let p = page_of(ms, offset);
        pagination_spec(offset, p.len() as int, ms.len() as int, render_matches(p))
    }
}

} // verus!
