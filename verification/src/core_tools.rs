//! The workspace's file, search, shell and web tools: their arguments, their errors, and
//! the replies they compute from what the file system, the shell or the network gave.
use vstd::prelude::*;
use crate::json::JsonValue;
use crate::text::{
    chars_of, decimal, decimal_u64, join_spec, push_all, push_str, seq_contains, seq_starts_with,
    starts_with_str, contains, string_of, strings_model, join_strings, trim_end,
};
use crate::workspace::{ValidationResult, WorkspaceError, WorkspaceErrorModel};

verus! {

broadcast use vstd::string::group_string_axioms;

// ── names and descriptions ──────────────────────────────────────────

pub const READ_TOOL_NAME: &'static str = "read";

pub const READ_TOOL_DESCRIPTION: &'static str = "读取文件内容，支持按行偏移（offset/limit）切片查看";

pub const WRITE_TOOL_NAME: &'static str = "write";

pub const WRITE_TOOL_DESCRIPTION: &'static str = "创建新文件或覆盖已有文件。自动创建父目录。";

pub const EDIT_TOOL_NAME: &'static str = "edit";

pub const EDIT_TOOL_DESCRIPTION: &'static str = "精确替换文件内容。每个 old_text 必须在文件中唯一匹配。";

pub const FIND_TOOL_NAME: &'static str = "find";

pub const FIND_TOOL_DESCRIPTION: &'static str = "使用 glob 模式搜索文件，支持路径过滤和结果数量限制";

pub const GREP_TOOL_NAME: &'static str = "grep";

pub const GREP_TOOL_DESCRIPTION: &'static str = "使用正则表达式在文件内容中搜索。支持文件过滤和忽略大小写。";

pub const MOVE_TOOL_NAME: &'static str = "move";

pub const MOVE_TOOL_DESCRIPTION: &'static str = "移动、重命名或删除文件。将 destination 设为 \"/dev/null\" 表示删除。";

pub const BASH_TOOL_NAME: &'static str = "bash";

pub const BASH_TOOL_DESCRIPTION: &'static str = "在沙箱中执行 shell 命令。支持可选的超时控制。";

pub const WEBFETCH_TOOL_NAME: &'static str = "webfetch";

pub const WEBFETCH_TOOL_DESCRIPTION: &'static str = "获取网页内容";

/// A tool as it is offered to the model.
#[derive(Debug)]
pub struct ToolSchema {
    pub name: String,
    pub description: String,
    pub parameters: JsonValue,
}

/// The schemas of every tool of this crate; the agent offers none of them this way.
pub fn all_tool_schemas() -> (r: Vec<ToolSchema>)
    ensures
        r@.len() == 0,
{
    Vec::new()
}

/// The schemas of the named tools; the agent offers none of them this way.
pub fn filter_tool_schemas(names: &Vec<String>) -> (r: Vec<ToolSchema>)
    ensures
        r@.len() == 0,
{
    Vec::new()
}

// ── arguments ───────────────────────────────────────────────────────

/// The arguments of the `read` tool.
#[derive(Clone, Debug)]
pub struct ReadParams {
    pub path: String,
    /// The first line to show, from 1.
    pub offset: Option<usize>,
    /// The most lines to show.
    pub limit: Option<usize>,
}

/// The arguments of the `write` tool.
#[derive(Clone, Debug)]
pub struct WriteParams {
    pub path: String,
    pub content: String,
}

/// The arguments of the `edit` tool.
#[derive(Clone, Debug)]
pub struct EditParams {
    pub path: String,
    pub edits: Vec<crate::workspace::EditOperation>,
}

/// The arguments of the `find` tool.
#[derive(Clone, Debug)]
pub struct FindParams {
    /// A glob pattern.
    pub pattern: String,
    /// Where to search; the project root by default.
    pub path: Option<String>,
    /// The most results; 100 by default.
    pub limit: Option<usize>,
}

/// The arguments of the `grep` tool.
#[derive(Clone, Debug)]
pub struct GrepParams {
    /// A regular expression or a literal.
    pub pattern: String,
    pub path: Option<String>,
    /// A glob the file names must match.
    pub glob: Option<String>,
    pub ignore_case: Option<bool>,
}

/// The arguments of the `move` tool.
#[derive(Clone, Debug)]
pub struct MoveParams {
    pub source: String,
    /// Where to move to; `/dev/null` deletes the source.
    pub destination: String,
}

/// The arguments of the `bash` tool.
#[derive(Clone, Debug)]
pub struct BashParams {
    pub command: String,
    /// In milliseconds; 60000 by default.
    pub timeout_ms: Option<u64>,
    /// Relative to the project root or absolute; the project root by default.
    pub cwd: Option<String>,
}

/// The arguments of the `webfetch` tool.
#[derive(Clone, Debug)]
pub struct WebfetchParams {
    pub url: String,
    /// In milliseconds; 30000 by default.
    pub timeout_ms: Option<u64>,
    /// The most bytes of the body kept; 10 MiB by default.
    pub max_bytes: Option<usize>,
}

/// The `webfetch` tool; it needs no workspace.
#[derive(Clone, Copy, Debug)]
pub struct WebfetchRigTool;

// ── errors ──────────────────────────────────────────────────────────

/// An error of the `bash` tool.
#[derive(Debug)]
pub enum BashError {
    /// Running the command failed.
    Exec(String),
    /// The sandbox refused the working directory.
    CwdDenied(String),
}

pub enum BashErrorModel {
    Exec(Seq<char>),
    CwdDenied(Seq<char>),
}

impl View for BashError {
    type V = BashErrorModel;

    open spec fn view(&self) -> BashErrorModel {
        match self {
            BashError::Exec(m) => BashErrorModel::Exec(m@),
            BashError::CwdDenied(p) => BashErrorModel::CwdDenied(p@),
        }
    }
}

pub open spec fn bash_error_text(e: BashErrorModel) -> Seq<char> {
    match e {
        BashErrorModel::Exec(m) => "沙箱执行失败："@ + m,
        BashErrorModel::CwdDenied(p) => "工作目录被沙箱拒绝："@ + p,
    }
}

impl BashError {
    /// The text of the error (see `bash_error_text`).
    pub fn message(&self) -> (r: String)
        ensures
            r@ == bash_error_text(self@),
    {
        let mut t: Vec<char> = Vec::new();
        match self {
            BashError::Exec(m) => {
                push_str(&mut t, "沙箱执行失败：");
                push_str(&mut t, m.as_str());
            },
            BashError::CwdDenied(p) => {
                push_str(&mut t, "工作目录被沙箱拒绝：");
                push_str(&mut t, p.as_str());
            },
        }
        string_of(&t)
    }
}

/// An error of the `webfetch` tool.
#[derive(Debug)]
pub enum WebfetchError {
    /// The request failed, or the status was not a success.
    Http(String),
    /// Reading the response failed; the system's description.
    Io(String),
}

pub enum WebfetchErrorModel {
    Http(Seq<char>),
    Io(Seq<char>),
}

impl View for WebfetchError {
    type V = WebfetchErrorModel;

    open spec fn view(&self) -> WebfetchErrorModel {
        match self {
            WebfetchError::Http(m) => WebfetchErrorModel::Http(m@),
            WebfetchError::Io(m) => WebfetchErrorModel::Io(m@),
        }
    }
}

pub open spec fn webfetch_error_text(e: WebfetchErrorModel) -> Seq<char> {
    match e {
        WebfetchErrorModel::Http(m) => "HTTP 请求失败："@ + m,
        WebfetchErrorModel::Io(m) => "读取响应失败："@ + m,
    }
}

impl WebfetchError {
    /// The text of the error (see `webfetch_error_text`).
    pub fn message(&self) -> (r: String)
        ensures
            r@ == webfetch_error_text(self@),
    {
        let mut t: Vec<char> = Vec::new();
        match self {
            WebfetchError::Http(m) => {
                push_str(&mut t, "HTTP 请求失败：");
                push_str(&mut t, m.as_str());
            },
            WebfetchError::Io(m) => {
                push_str(&mut t, "读取响应失败：");
                push_str(&mut t, m.as_str());
            },
        }
        string_of(&t)
    }
}

// ── glob patterns ───────────────────────────────────────────────────

#[verifier::external_type_specification]
#[verifier::external_body]
pub struct ExGlobPattern(glob::Pattern);

/// Whether `text` matches the glob `pattern`, as `glob::Pattern::matches` decides it with
/// the default options.
pub uninterp spec fn glob_match(pattern: Seq<char>, text: Seq<char>) -> bool;

/// The message `glob::Pattern::new` refuses `pattern` with, or `None` when it accepts it.
pub uninterp spec fn glob_syntax_error(pattern: Seq<char>) -> Option<Seq<char>>;

/// A compiled glob pattern, with the text it was compiled from.
pub struct GlobPattern {
    source: String,
    compiled: glob::Pattern,
}

impl View for GlobPattern {
    type V = Seq<char>;

    /// The pattern's text.
    closed spec fn view(&self) -> Seq<char> {
        self.source@
    }
}

/// Calls `glob::Pattern::new`. It either compiles `pattern` or refuses it with a
/// `PatternError`, whose text comes back; the same text gives the same outcome.
#[verifier::external_body]
pub(crate) fn compile_glob(pattern: &str) -> (r: Result<GlobPattern, String>)
    ensures
        match r {
            Ok(g) => g@ == pattern@ && glob_syntax_error(pattern@) is None,
            Err(e) => glob_syntax_error(pattern@) == Some(e@),
        },
{
    match glob::Pattern::new(pattern) {
        Ok(p) => Ok(GlobPattern { source: pattern.to_string(), compiled: p }),
        Err(e) => Err(e.to_string()),
    }
}

/// Calls `glob::Pattern::matches` on a pattern compiled from `g@`.
#[verifier::external_body]
pub(crate) fn glob_matches(g: &GlobPattern, text: &str) -> (r: bool)
    ensures
        r == glob_match(g@, text@),
{
    g.compiled.matches(text)
}

/// A glob filter for walking files: the compiled pattern, or the text of the error
/// `glob::Pattern::new` gave.
pub fn compile_glob_filter(pattern: &str) -> (r: Result<GlobPattern, String>)
    ensures
        match r {
            Ok(g) => g@ == pattern@ && glob_syntax_error(pattern@) is None,
            Err(e) => glob_syntax_error(pattern@) == Some(e@),
        },
{
    compile_glob(pattern)
}

/// Whether a walk keeps an entry: the glob matches its file name or its path.
pub fn glob_filter_keeps(g: &GlobPattern, name: &str, path: &str) -> (r: bool)
    ensures
        r == (glob_match(g@, name@) || glob_match(g@, path@)),
{
    glob_matches(g, name) || glob_matches(g, path)
}

// ── find ────────────────────────────────────────────────────────────

/// A file the `find` tool looks at: its name, and its path relative to the project root
/// (its full path where it lies outside the root).
#[derive(Clone, Debug)]
pub struct FoundFile {
    pub name: String,
    pub relative: String,
}

/// The relative paths of the files whose name or relative path matches, in order.
pub open spec fn matching_files(pattern: Seq<char>, files: Seq<FoundFile>) -> Seq<Seq<char>>
    decreases files.len(),
{
    if files.len() == 0 {
        Seq::empty()
    } else {
        let f = files.last();
        matching_files(pattern, files.drop_last()) + if glob_match(pattern, f.name@) || glob_match(
            pattern,
            f.relative@,
        ) {
            seq![f.relative@]
        } else {
            Seq::empty()
        }
    }
}

/// The results kept: the first `limit` matches, and at least the first one.
pub open spec fn find_results(pattern: Seq<char>, files: Seq<FoundFile>, limit: usize) -> Seq<Seq<char>> {
    let all = matching_files(pattern, files);
    let cap: int = if limit == 0 {
        1
    } else {
        limit as int
    };
    if all.len() <= cap {
        all
    } else {
        all.take(cap)
    }
}

/// The matches among the first files are the first matches.
proof fn lemma_matching_prefix(pattern: Seq<char>, files: Seq<FoundFile>, i: int)
    requires
        0 <= i <= files.len(),
    ensures
        matching_files(pattern, files.take(i)).len() <= matching_files(pattern, files).len(),
        matching_files(pattern, files).take(matching_files(pattern, files.take(i)).len() as int)
            == matching_files(pattern, files.take(i)),
    decreases files.len() - i,
{
    if i == files.len() {
        assert(files.take(i) =~= files);
        assert(matching_files(pattern, files).take(matching_files(pattern, files).len() as int)
            =~= matching_files(pattern, files));
    } else {
        lemma_matching_prefix(pattern, files, i + 1);
        let a = matching_files(pattern, files.take(i));
        let b = matching_files(pattern, files.take(i + 1));
        assert(files.take(i + 1).drop_last() =~= files.take(i));
        assert(b.take(a.len() as int) =~= a);
        let all = matching_files(pattern, files);
        assert(all.take(b.len() as int).take(a.len() as int) =~= all.take(a.len() as int));
    }
}

/// The results of a search (see `find_results`).
pub fn find_matching(g: &GlobPattern, files: &Vec<FoundFile>, limit: usize) -> (r: Vec<String>)
    ensures
        strings_model(r@) == find_results(g@, files@, limit),
{
    let cap: usize = if limit == 0 {
        1
    } else {
        limit
    };
    let mut out: Vec<String> = Vec::new();
    let mut i: usize = 0;
    while i < files.len()
        invariant
            i <= files.len(),
            cap == (if limit == 0 {
                1
            } else {
                limit as int
            }),
            out@.len() < cap,
            strings_model(out@) == matching_files(g@, files@.take(i as int)),
        decreases files.len() - i,
    {
        let f = &files[i];
        let hit = glob_matches(g, f.name.as_str()) || glob_matches(g, f.relative.as_str());
        let ghost before = out@;
        if hit {
            out.push(f.relative.clone());
        }
        i = i + 1;
        proof {
            assert(files@.take(i as int).drop_last() =~= files@.take(i - 1));
            assert(files@.take(i as int).last() == files@[i - 1]);
            assert(strings_model(out@) =~= strings_model(before) + if hit {
                seq![f.relative@]
            } else {
                Seq::empty()
            });
        }
        if out.len() >= cap {
            proof {
                lemma_matching_prefix(g@, files@, i as int);
                let all = matching_files(g@, files@);
                if all.len() > cap {
                } else {
                    assert(all.take(out@.len() as int) =~= all);
                }
            }
            return out;
        }
    }
    assert(files@.take(files.len() as int) =~= files@);
    out
}

/// The `find` tool's reply: the paths one per line, then `--- 共 <n> 个文件 ---`.
pub open spec fn find_report_spec(results: Seq<Seq<char>>) -> Seq<char> {
    join_spec(results, "\n"@) + "\n--- 共 "@ + decimal(results.len()) + " 个文件 ---"@
}

/// The `find` tool's reply (see `find_report_spec`).
pub fn find_report(results: &Vec<String>) -> (r: String)
    ensures
        r@ == find_report_spec(strings_model(results@)),
{
    let mut t = join_strings(results, "\n");
    push_str(&mut t, "\n--- 共 ");
    push_all(&mut t, &decimal_u64(results.len() as u64));
    push_str(&mut t, " 个文件 ---");
    string_of(&t)
}

/// The `find` tool's pattern, or `无效的 glob 模式：<pattern>，<error>`.
pub fn compile_find_pattern(pattern: &str) -> (r: Result<GlobPattern, WorkspaceError>)
    ensures
        match r {
            Ok(g) => g@ == pattern@ && glob_syntax_error(pattern@) is None,
            Err(e) => exists|m: Seq<char>|
                glob_syntax_error(pattern@) == Some(m) && e@ == WorkspaceErrorModel::Other(
                    "无效的 glob 模式："@ + pattern@ + "，"@ + m,
                ),
        },
{
    match compile_glob(pattern) {
        Ok(g) => Ok(g),
        Err(m) => {
            let mut t: Vec<char> = Vec::new();
            push_str(&mut t, "无效的 glob 模式：");
            push_str(&mut t, pattern);
            push_str(&mut t, "，");
            push_str(&mut t, m.as_str());
            Err(WorkspaceError::Other(string_of(&t)))
        },
    }
}

/// The `find` tool's reply for the files under the search path: compiles the pattern,
/// keeps the first `limit` (100 by default) matches, and lists them.
pub fn find_tool(pattern: &str, files: &Vec<FoundFile>, limit: Option<usize>) -> (r: Result<
    String,
    WorkspaceError,
>)
    ensures
        match r {
            Ok(s) => glob_syntax_error(pattern@) is None && s@ == find_report_spec(
                find_results(
                    pattern@,
                    files@,
                    match limit {
                        Some(l) => l,
                        None => 100,
                    },
                ),
            ),
            Err(e) => exists|m: Seq<char>|
                glob_syntax_error(pattern@) == Some(m) && e@ == WorkspaceErrorModel::Other(
                    "无效的 glob 模式："@ + pattern@ + "，"@ + m,
                ),
        },
{
    let g = match compile_find_pattern(pattern) {
        Ok(g) => g,
        Err(e) => return Err(e),
    };
    Ok(find_in(&g, files, limit))
}

/// The `find` tool's reply for the files under the search path, with a compiled
/// pattern: the first `limit` (100 by default) matches, listed.
pub fn find_in(g: &GlobPattern, files: &Vec<FoundFile>, limit: Option<usize>) -> (r: String)
    ensures
        r@ == find_report_spec(
            find_results(
                g@,
                files@,
                match limit {
                    Some(l) => l,
                    None => 100,
                },
            ),
        ),
{
    let lim: usize = match limit {
        Some(l) => l,
        None => 100,
    };
    let results = find_matching(g, files, lim);
    find_report(&results)
}

// ── grep ────────────────────────────────────────────────────────────

/// A line the `grep` tool found: the file's display path, the line number, the line.
#[derive(Clone, Debug)]
pub struct GrepLine {
    pub path: String,
    pub line_no: u64,
    pub line: String,
}

/// The line of a match as it is reported: without trailing white space (its line ending
/// among it).
pub fn matched_line(text: &str) -> (r: String)
    ensures
        r@ == trim_end(text@),
{
    let t = chars_of(text);
    string_of(&crate::text::trimmed_end(&t))
}

/// A line found, as plain values: the display path, the line number, the line.
pub open spec fn grep_line_model(l: GrepLine) -> (Seq<char>, u64, Seq<char>) {
    (l.path@, l.line_no, l.line@)
}

pub open spec fn grep_lines_model(ls: Seq<GrepLine>) -> Seq<(Seq<char>, u64, Seq<char>)> {
    ls.map_values(|l: GrepLine| grep_line_model(l))
}

/// `<path>:<line number>: <line>\n` for each line found, in order.
pub open spec fn grep_lines_text(ls: Seq<(Seq<char>, u64, Seq<char>)>) -> Seq<char>
    decreases ls.len(),
{
    if ls.len() == 0 {
        Seq::empty()
    } else {
        let l = ls.last();
        grep_lines_text(ls.drop_last()) + l.0 + ":"@ + decimal(l.1 as nat) + ": "@ + l.2 + "\n"@
    }
}

/// The `grep` tool's reply: the lines found, then `\n--- 共 <n> 个匹配 ---`.
pub open spec fn grep_report_spec(ls: Seq<(Seq<char>, u64, Seq<char>)>) -> Seq<char> {
    grep_lines_text(ls) + "\n--- 共 "@ + decimal(ls.len()) + " 个匹配 ---"@
}

/// The `grep` tool's reply (see `grep_report_spec`).
pub fn grep_report(results: &Vec<GrepLine>) -> (r: String)
    ensures
        r@ == grep_report_spec(grep_lines_model(results@)),
{
    let mut t: Vec<char> = Vec::new();
    let mut i: usize = 0;
    while i < results.len()
        invariant
            i <= results.len(),
            t@ == grep_lines_text(grep_lines_model(results@.take(i as int))),
        decreases results.len() - i,
    {
        let l = &results[i];
        push_str(&mut t, l.path.as_str());
        push_str(&mut t, ":");
        push_all(&mut t, &decimal_u64(l.line_no));
        push_str(&mut t, ": ");
        push_str(&mut t, l.line.as_str());
        push_str(&mut t, "\n");
        i = i + 1;
        proof {
            assert(grep_lines_model(results@.take(i as int)).drop_last() =~= grep_lines_model(results@.take(i - 1)));
            assert(grep_lines_model(results@.take(i as int)).last() == grep_line_model(results@[i - 1]));
        }
    }
    assert(results@.take(results.len() as int) =~= results@);
    push_str(&mut t, "\n--- 共 ");
    push_all(&mut t, &decimal_u64(results.len() as u64));
    push_str(&mut t, " 个匹配 ---");
    string_of(&t)
}

// ── regular expressions ─────────────────────────────────────────────

#[verifier::external_type_specification]
#[verifier::external_body]
pub struct ExRegexMatcher(grep::regex::RegexMatcher);

/// The message `grep_regex::RegexMatcherBuilder::build` refuses `pattern` with (built
/// case-insensitive when `ignore_case`), or `None` when it builds a matcher.
pub uninterp spec fn regex_error(pattern: Seq<char>, ignore_case: bool) -> Option<Seq<char>>;

/// What `grep_searcher::Searcher::search_slice`, with the searcher's default settings and
/// the matcher built from `pattern` and `ignore_case`, reports of `content` through a
/// `UTF8` sink: the line number and the text (line ending included) of each matching
/// line, in order; or the text of its error.
pub uninterp spec fn regex_search(pattern: Seq<char>, ignore_case: bool, content: Seq<char>) -> Result<
    Seq<(u64, Seq<char>)>,
    Seq<char>,
>;

/// A compiled regular expression, with the text and the case setting it was built from.
pub struct Regex {
    source: String,
    ignore_case: bool,
    matcher: grep::regex::RegexMatcher,
}

impl View for Regex {
    type V = (Seq<char>, bool);

    /// The pattern's text and whether case is ignored.
    closed spec fn view(&self) -> (Seq<char>, bool) {
        (self.source@, self.ignore_case)
    }
}

/// Calls `grep_regex::RegexMatcherBuilder::build` on `pattern`, case-insensitive when
/// `ignore_case`. It builds a matcher or refuses the pattern with an error, whose text
/// comes back; the same pattern and setting give the same outcome.
#[verifier::external_body]
fn compile_regex(pattern: &str, ignore_case: bool) -> (r: Result<Regex, String>)
    ensures
        match r {
            Ok(rx) => rx@ == (pattern@, ignore_case) && regex_error(pattern@, ignore_case) is None,
            Err(e) => regex_error(pattern@, ignore_case) == Some(e@),
        },
{
    match grep::regex::RegexMatcherBuilder::new().case_insensitive(ignore_case).build(pattern) {
        Ok(m) => Ok(Regex { source: pattern.to_string(), ignore_case, matcher: m }),
        Err(e) => Err(e.to_string()),
    }
}

pub open spec fn found_lines_view(v: Seq<(u64, String)>) -> Seq<(u64, Seq<char>)> {
    v.map_values(|p: (u64, String)| (p.0, p.1@))
}

/// Adds a matching line to the lines found.
pub(crate) fn record_match(out: &mut Vec<(u64, String)>, line_no: u64, line: &str)
    ensures
        found_lines_view(final(out)@) == found_lines_view(old(out)@).push((line_no, line@)),
{
    let t = chars_of(line);
    let ghost before = out@;
    out.push((line_no, string_of(&t)));
    assert(found_lines_view(out@) =~= found_lines_view(before).push((line_no, line@)));
}

/// Calls `grep_searcher::Searcher::search_slice` (default searcher) with the compiled
/// matcher over `content`, each match reported through a `UTF8` sink whose closure only
/// records it; the lines found or the search's error text come back (see `regex_search`).
#[verifier::external_body]
fn search_lines(rx: &Regex, content: &str) -> (r: Result<Vec<(u64, String)>, String>)
    ensures
        match r {
            Ok(v) => regex_search(rx@.0, rx@.1, content@) == Ok::<Seq<(u64, Seq<char>)>, Seq<char>>(found_lines_view(v@)),
            Err(e) => regex_search(rx@.0, rx@.1, content@) == Err::<Seq<(u64, Seq<char>)>, Seq<char>>(e@),
        },
{
    let mut out: Vec<(u64, String)> = Vec::new();
    let sink = grep::searcher::sinks::UTF8(|n: u64, line: &str| {
        record_match(&mut out, n, line);
        Ok(true)
    });
    match grep::searcher::SearcherBuilder::new().build().search_slice(&rx.matcher, content.as_bytes(), sink) {
        Ok(()) => Ok(out),
        Err(e) => Err(e.to_string()),
    }
}

/// The `grep` tool's pattern, or `无效的正则表达式：<pattern>，<error>`.
pub fn compile_grep_pattern(pattern: &str, ignore_case: bool) -> (r: Result<Regex, WorkspaceError>)
    ensures
        match r {
            Ok(rx) => rx@ == (pattern@, ignore_case) && regex_error(pattern@, ignore_case) is None,
            Err(e) => exists|m: Seq<char>|
                regex_error(pattern@, ignore_case) == Some(m) && e@ == WorkspaceErrorModel::Other(
                    "无效的正则表达式："@ + pattern@ + "，"@ + m,
                ),
        },
{
    match compile_regex(pattern, ignore_case) {
        Ok(rx) => Ok(rx),
        Err(m) => {
            let mut t: Vec<char> = Vec::new();
            push_str(&mut t, "无效的正则表达式：");
            push_str(&mut t, pattern);
            push_str(&mut t, "，");
            push_str(&mut t, m.as_str());
            Err(WorkspaceError::Other(string_of(&t)))
        },
    }
}

/// A file the `grep` tool searches: its display path (relative to the project root) and
/// its text, or the error reading it gave.
#[derive(Debug)]
pub struct GrepFile {
    pub path: String,
    pub content: Result<String, WorkspaceError>,
}

pub open spec fn grep_file_model(f: GrepFile) -> (Seq<char>, Result<Seq<char>, WorkspaceErrorModel>) {
    (
        f.path@,
        match f.content {
            Ok(c) => Ok(c@),
            Err(e) => Err(e@),
        },
    )
}

pub open spec fn grep_files_model(fs: Seq<GrepFile>) -> Seq<(Seq<char>, Result<Seq<char>, WorkspaceErrorModel>)> {
    fs.map_values(|f: GrepFile| grep_file_model(f))
}

/// The lines reported of one file's matches: its path, the line number, the line without
/// trailing white space.
pub open spec fn reported_lines(path: Seq<char>, ls: Seq<(u64, Seq<char>)>) -> Seq<(Seq<char>, u64, Seq<char>)> {
    ls.map_values(|l: (u64, Seq<char>)| (path, l.0, trim_end(l.1)))
}

/// The lines found in the files, in order, each file searched in turn: the first file
/// that could not be read, or whose search failed, ends it with that error.
pub open spec fn grep_collect(
    pattern: Seq<char>,
    ignore_case: bool,
    files: Seq<(Seq<char>, Result<Seq<char>, WorkspaceErrorModel>)>,
) -> Result<Seq<(Seq<char>, u64, Seq<char>)>, WorkspaceErrorModel>
    decreases files.len(),
{
    if files.len() == 0 {
        Ok(Seq::empty())
    } else {
        match grep_collect(pattern, ignore_case, files.drop_last()) {
            Err(e) => Err(e),
            Ok(prev) => match files.last().1 {
                Err(e) => Err(e),
                Ok(c) => match regex_search(pattern, ignore_case, c) {
                    Err(m) => Err(WorkspaceErrorModel::Other(m)),
                    Ok(ls) => Ok(prev + reported_lines(files.last().0, ls)),
                },
            },
        }
    }
}

/// The `grep` tool's reply for the files searched with a compiled pattern: the report of
/// all lines found (see `grep_report_spec`), or the first error.
pub open spec fn grep_files_spec(
    pattern: Seq<char>,
    ignore_case: bool,
    files: Seq<(Seq<char>, Result<Seq<char>, WorkspaceErrorModel>)>,
) -> Result<Seq<char>, WorkspaceErrorModel> {
    match grep_collect(pattern, ignore_case, files) {
        Ok(ls) => Ok(grep_report_spec(ls)),
        Err(e) => Err(e),
    }
}

fn copy_workspace_error(e: &WorkspaceError) -> (r: WorkspaceError)
    ensures
        r@ == e@,
{
    match e {
        WorkspaceError::SandboxDenied(p) => WorkspaceError::SandboxDenied(p.clone()),
        WorkspaceError::Io { path, message } => WorkspaceError::Io { path: path.clone(), message: message.clone() },
        WorkspaceError::Other(m) => WorkspaceError::Other(m.clone()),
    }
}

/// Searches the files in order with the compiled pattern and reports the lines found (see
/// `grep_files_spec`).
pub fn grep_files(rx: &Regex, files: &Vec<GrepFile>) -> (r: Result<String, WorkspaceError>)
    ensures
        match (r, grep_files_spec(rx@.0, rx@.1, grep_files_model(files@))) {
            (Ok(t), Ok(s)) => t@ == s,
            (Err(e), Err(m)) => e@ == m,
            _ => false,
        },
{
    let ghost fm = grep_files_model(files@);
    let mut results: Vec<GrepLine> = Vec::new();
    let mut i: usize = 0;
    assert(files@.take(0) =~= Seq::<GrepFile>::empty());
    assert(grep_lines_model(results@) =~= Seq::<(Seq<char>, u64, Seq<char>)>::empty());
    while i < files.len()
        invariant
            i <= files.len(),
            fm == grep_files_model(files@),
            grep_collect(rx@.0, rx@.1, fm.take(i as int)) == Ok::<Seq<(Seq<char>, u64, Seq<char>)>, WorkspaceErrorModel>(grep_lines_model(results@)),
        decreases files.len() - i,
    {
        let f = &files[i];
        assert(fm.take(i + 1).drop_last() =~= fm.take(i as int));
        assert(fm.take(i + 1).last() == grep_file_model(*f));
        match &f.content {
            Err(e) => {
                proof {
                    lemma_collect_err_stays(rx@.0, rx@.1, fm, i + 1);
                }
                return Err(copy_workspace_error(e));
            },
            Ok(c) => {
                match search_lines(rx, c.as_str()) {
                    Err(m) => {
                        proof {
                            lemma_collect_err_stays(rx@.0, rx@.1, fm, i + 1);
                        }
                        return Err(WorkspaceError::Other(m));
                    },
                    Ok(ls) => {
                        let ghost before = results@;
                        let mut j: usize = 0;
                        while j < ls.len()
                            invariant
                                j <= ls.len(),
                                grep_lines_model(results@) == grep_lines_model(before) + reported_lines(
                                    f.path@,
                                    found_lines_view(ls@.take(j as int)),
                                ),
                            decreases ls.len() - j,
                        {
                            let (n, line) = &ls[j];
                            let gl = GrepLine { path: f.path.clone(), line_no: *n, line: matched_line(line.as_str()) };
                            let ghost b2 = results@;
                            results.push(gl);
                            j = j + 1;
                            proof {
                                assert(found_lines_view(ls@.take(j as int)) =~= found_lines_view(ls@.take(j - 1)).push((ls@[j - 1].0, ls@[j - 1].1@)));
                                assert(grep_lines_model(results@) =~= grep_lines_model(b2).push(grep_line_model(gl)));
                                assert(reported_lines(f.path@, found_lines_view(ls@.take(j as int))) =~= reported_lines(
                                    f.path@,
                                    found_lines_view(ls@.take(j - 1)),
                                ).push((f.path@, ls@[j - 1].0, trim_end(ls@[j - 1].1@))));
                            }
                        }
                        assert(ls@.take(ls.len() as int) =~= ls@);
                    },
                }
            },
        }
        i = i + 1;
    }
    assert(fm.take(files.len() as int) =~= fm);
    Ok(grep_report(&results))
}

/// Once the collection failed, a longer list of files fails the same way.
proof fn lemma_collect_err_stays(
    pattern: Seq<char>,
    ignore_case: bool,
    fm: Seq<(Seq<char>, Result<Seq<char>, WorkspaceErrorModel>)>,
    n: int,
)
    requires
        0 < n <= fm.len(),
        grep_collect(pattern, ignore_case, fm.take(n)) is Err,
    ensures
        grep_collect(pattern, ignore_case, fm) == grep_collect(pattern, ignore_case, fm.take(n)),
    decreases fm.len() - n,
{
    if n < fm.len() {
        assert(fm.take(n + 1).drop_last() =~= fm.take(n));
        lemma_collect_err_stays(pattern, ignore_case, fm, n + 1);
    } else {
        assert(fm.take(n) =~= fm);
    }
}

/// The `grep` tool: the pattern compiled (see `compile_grep_pattern`), then the files
/// searched with it (see `grep_files`).
pub fn grep_tool(pattern: &str, ignore_case: bool, files: &Vec<GrepFile>) -> (r: Result<String, WorkspaceError>)
    ensures
        match regex_error(pattern@, ignore_case) {
            Some(m) => r matches Err(e) && e@ == WorkspaceErrorModel::Other("无效的正则表达式："@ + pattern@ + "，"@ + m),
            None => match (r, grep_files_spec(pattern@, ignore_case, grep_files_model(files@))) {
                (Ok(t), Ok(s)) => t@ == s,
                (Err(e), Err(m)) => e@ == m,
                _ => false,
            },
        },
{
    match compile_grep_pattern(pattern, ignore_case) {
        Err(e) => Err(e),
        Ok(rx) => grep_files(&rx, files),
    }
}

// ── move ────────────────────────────────────────────────────────────

/// What the `move` tool does with its source.
#[derive(Clone, Copy, Debug, PartialEq, Eq, Structural)]
pub enum MovePlan {
    /// The destination is `/dev/null`: the source is deleted.
    Delete,
    /// The source is moved to the destination.
    Move,
}

fn text_error(prefix: &str, subject: &str) -> (r: WorkspaceError)
    ensures
        r@ == WorkspaceErrorModel::Other(prefix@ + subject@),
{
    let mut t: Vec<char> = Vec::new();
    push_str(&mut t, prefix);
    push_str(&mut t, subject);
    WorkspaceError::Other(string_of(&t))
}

/// The source must be writable; then `/dev/null` as destination means deletion.
pub fn plan_move(source: &str, destination: &str, source_verdict: ValidationResult) -> (r: Result<
    MovePlan,
    WorkspaceError,
>)
    ensures
        match source_verdict {
            ValidationResult::Allowed => r == Ok::<MovePlan, WorkspaceError>(
                if destination@ == "/dev/null"@ {
                    MovePlan::Delete
                } else {
                    MovePlan::Move
                },
            ),
            ValidationResult::ReadOnly => r matches Err(e) && e@ == WorkspaceErrorModel::Other(
                "源路径为只读，无法移动/删除："@ + source@,
            ),
            ValidationResult::Denied => r matches Err(e) && e@ == WorkspaceErrorModel::Other(
                "源路径被沙箱拒绝："@ + source@,
            ),
        },
{
    match source_verdict {
        ValidationResult::Allowed => {},
        ValidationResult::ReadOnly => {
            return Err(text_error("源路径为只读，无法移动/删除：", source));
        },
        ValidationResult::Denied => {
            return Err(text_error("源路径被沙箱拒绝：", source));
        },
    }
    let d = chars_of(destination);
    if crate::text::eq_str(&d, "/dev/null") {
        Ok(MovePlan::Delete)
    } else {
        Ok(MovePlan::Move)
    }
}

/// The destination of a move must be writable.
pub fn check_move_destination(destination: &str, verdict: ValidationResult) -> (r: Result<
    (),
    WorkspaceError,
>)
    ensures
        match verdict {
            ValidationResult::Allowed => r is Ok,
            ValidationResult::ReadOnly => r matches Err(e) && e@ == WorkspaceErrorModel::Other(
                "目标路径为只读，无法写入："@ + destination@,
            ),
            ValidationResult::Denied => r matches Err(e) && e@ == WorkspaceErrorModel::Other(
                "目标路径被沙箱拒绝："@ + destination@,
            ),
        },
{
    match verdict {
        ValidationResult::Allowed => Ok(()),
        ValidationResult::ReadOnly => Err(text_error("目标路径为只读，无法写入：", destination)),
        ValidationResult::Denied => Err(text_error("目标路径被沙箱拒绝：", destination)),
    }
}

/// The error when the file to delete does not exist.
pub fn missing_source_error(source: &str) -> (r: WorkspaceError)
    ensures
        r@ == WorkspaceErrorModel::Other("文件不存在："@ + source@),
{
    text_error("文件不存在：", source)
}

/// The `move` tool's reply after a deletion.
pub fn deleted_message(source: &str) -> (r: String)
    ensures
        r@ == "已删除："@ + source@,
{
    let mut t: Vec<char> = Vec::new();
    push_str(&mut t, "已删除：");
    push_str(&mut t, source);
    string_of(&t)
}

/// `<source> -> <destination>`, as the reply and a failed rename's error name the move.
pub fn move_description(source: &str, destination: &str) -> (r: String)
    ensures
        r@ == source@ + " -> "@ + destination@,
{
    let mut t: Vec<char> = Vec::new();
    push_str(&mut t, source);
    push_str(&mut t, " -> ");
    push_str(&mut t, destination);
    string_of(&t)
}

/// The `move` tool's reply after a move.
pub fn moved_message(source: &str, destination: &str) -> (r: String)
    ensures
        r@ == "已移动："@ + source@ + " -> "@ + destination@,
{
    let mut t: Vec<char> = Vec::new();
    push_str(&mut t, "已移动：");
    let d = move_description(source, destination);
    push_str(&mut t, d.as_str());
    string_of(&t)
}

// ── write ───────────────────────────────────────────────────────────

/// The `write` tool's reply: the path and the content's size in bytes (UTF-8).
pub fn write_done_message(path: &str, content: &str) -> (r: String)
    ensures
        r@ == "已成功写入文件 "@ + path@ + "（"@ + decimal(content.len() as nat) + " 字节）"@,
{
    let mut t: Vec<char> = Vec::new();
    push_str(&mut t, "已成功写入文件 ");
    push_str(&mut t, path);
    push_str(&mut t, "（");
    push_all(&mut t, &decimal_u64(content.len() as u64));
    push_str(&mut t, " 字节）");
    string_of(&t)
}

// ── bash ────────────────────────────────────────────────────────────

/// The command's time limit in milliseconds: the one given, else 60000.
pub fn bash_timeout_ms(timeout_ms: Option<u64>) -> (r: u64)
    ensures
        r == match timeout_ms {
            Some(t) => t,
            None => 60000,
        },
{
    match timeout_ms {
        Some(t) => t,
        None => 60000,
    }
}

/// Where the command runs: the given directory resolved against the project root, else
/// the project root.
pub fn bash_working_dir(project_root: &str, cwd: &Option<String>) -> (r: String)
    ensures
        r@ == match cwd {
            Some(p) => crate::workspace::resolve_path_spec(project_root@, p@),
            None => project_root@,
        },
{
    match cwd {
        Some(p) => crate::workspace::resolve_path(project_root, p.as_str()),
        None => project_root.to_owned(),
    }
}

/// A given working directory must not be denied by the sandbox.
pub fn check_bash_cwd(resolved: &str, verdict: ValidationResult) -> (r: Result<(), BashError>)
    ensures
        match r {
            Ok(()) => verdict != ValidationResult::Denied,
            Err(e) => verdict == ValidationResult::Denied && e@ == BashErrorModel::CwdDenied(
                resolved@,
            ),
        },
{
    if verdict == ValidationResult::Denied {
        Err(BashError::CwdDenied(resolved.to_owned()))
    } else {
        Ok(())
    }
}

/// How running a command went.
#[derive(Clone, Debug)]
pub enum CommandRun {
    /// The command ran and exited with this code.
    Exited(i32),
    /// The sandbox could not run it; its message.
    Failed(String),
    /// The task running it failed; its message.
    Crashed(String),
    /// The time limit passed.
    TimedOut,
}

pub enum CommandRunModel {
    Exited(i32),
    Failed(Seq<char>),
    Crashed(Seq<char>),
    TimedOut,
}

impl View for CommandRun {
    type V = CommandRunModel;

    open spec fn view(&self) -> CommandRunModel {
        match self {
            CommandRun::Exited(c) => CommandRunModel::Exited(*c),
            CommandRun::Failed(m) => CommandRunModel::Failed(m@),
            CommandRun::Crashed(m) => CommandRunModel::Crashed(m@),
            CommandRun::TimedOut => CommandRunModel::TimedOut,
        }
    }
}

/// The `bash` tool's reply: success for exit code 0, completion with the code otherwise;
/// a failure, a crash or a timeout is an `Exec` error.
pub open spec fn bash_reply_spec(run: CommandRunModel, timeout_ms: u64) -> Result<Seq<char>, BashErrorModel> {
    match run {
        CommandRunModel::Exited(c) => if c == 0 {
            Ok("命令执行成功（退出码：0）"@)
        } else {
            Ok("命令执行完成（退出码："@ + crate::text::signed_decimal(c as int) + ")"@)
        },
        CommandRunModel::Failed(m) => Err(BashErrorModel::Exec(m)),
        CommandRunModel::Crashed(m) => Err(BashErrorModel::Exec("命令执行失败："@ + m)),
        CommandRunModel::TimedOut => Err(
            BashErrorModel::Exec("命令执行超时（超过 "@ + decimal(timeout_ms as nat) + " 毫秒）"@),
        ),
    }
}

/// The `bash` tool's reply (see `bash_reply_spec`).
pub fn bash_reply(run: CommandRun, timeout_ms: u64) -> (r: Result<String, BashError>)
    ensures
        match (r, bash_reply_spec(run@, timeout_ms)) {
            (Ok(s), Ok(t)) => s@ == t,
            (Err(e), Err(f)) => e@ == f,
            _ => false,
        },
{
    let mut t: Vec<char> = Vec::new();
    match run {
        CommandRun::Exited(c) => {
            if c == 0 {
                push_str(&mut t, "命令执行成功（退出码：0）");
            } else {
                push_str(&mut t, "命令执行完成（退出码：");
                push_all(&mut t, &crate::text::decimal_i64(c as i64));
                push_str(&mut t, ")");
            }
            Ok(string_of(&t))
        },
        CommandRun::Failed(m) => Err(BashError::Exec(m)),
        CommandRun::Crashed(m) => {
            push_str(&mut t, "命令执行失败：");
            push_str(&mut t, m.as_str());
            Err(BashError::Exec(string_of(&t)))
        },
        CommandRun::TimedOut => {
            push_str(&mut t, "命令执行超时（超过 ");
            push_all(&mut t, &decimal_u64(timeout_ms));
            push_str(&mut t, " 毫秒）");
            Err(BashError::Exec(string_of(&t)))
        },
    }
}

// ── webfetch ────────────────────────────────────────────────────────

/// The request's time limit in milliseconds: the one given, else 30000.
pub fn webfetch_timeout_ms(timeout_ms: Option<u64>) -> (r: u64)
    ensures
        r == match timeout_ms {
            Some(t) => t,
            None => 30000,
        },
{
    match timeout_ms {
        Some(t) => t,
        None => 30000,
    }
}

/// The most bytes of the body kept: the number given, else 10 MiB.
pub fn webfetch_max_bytes(max_bytes: Option<usize>) -> (r: usize)
    ensures
        r == match max_bytes {
            Some(m) => m,
            None => 10485760,
        },
{
    match max_bytes {
        Some(m) => m,
        None => 10485760,
    }
}

/// A status outside 200–299 fails the fetch with `HTTP <status>`.
pub fn check_http_status(status: u16) -> (r: Result<(), WebfetchError>)
    ensures
        match r {
            Ok(()) => 200 <= status <= 299,
            Err(e) => !(200 <= status <= 299) && e@ == WebfetchErrorModel::Http(
                "HTTP "@ + decimal(status as nat),
            ),
        },
{
    if 200 <= status && status <= 299 {
        Ok(())
    } else {
        let mut t: Vec<char> = Vec::new();
        push_str(&mut t, "HTTP ");
        push_all(&mut t, &decimal_u64(status as u64));
        Err(WebfetchError::Http(string_of(&t)))
    }
}

/// The text `String::from_utf8_lossy` makes of `bytes`.
pub uninterp spec fn utf8_lossy(bytes: Seq<u8>) -> Seq<char>;

/// Calls `String::from_utf8_lossy`: valid UTF-8 is decoded as it is; each invalid
/// sequence becomes U+FFFD (that case is left to the name).
#[verifier::external_body]
fn lossy_text(bytes: &Vec<u8>) -> (r: String)
    ensures
        r@ == utf8_lossy(bytes@),
        vstd::utf8::valid_utf8(bytes@) ==> r@ == vstd::utf8::decode_utf8(bytes@),
{
    String::from_utf8_lossy(bytes.as_slice()).into_owned()
}

/// What the `webfetch` tool makes of a successful response: the body cut to `max_bytes`;
/// as text when the content type names a charset or starts with `text/`, else a note of
/// the content type and the size kept.
pub open spec fn webfetch_text_spec(content_type: Seq<char>, body: Seq<u8>, max_bytes: nat) -> Seq<char> {
    let kept = if body.len() > max_bytes {
        body.take(max_bytes as int)
    } else {
        body
    };
    if seq_contains(content_type, "charset"@) || seq_starts_with(content_type, "text/"@) {
        utf8_lossy(kept)
    } else {
        "[非文本内容，Content-Type: "@ + content_type + "，"@ + decimal(kept.len()) + " 字节]"@
    }
}

/// What the `webfetch` tool makes of a successful response (see `webfetch_text_spec`).
pub fn webfetch_text(content_type: &str, body: Vec<u8>, max_bytes: usize) -> (r: String)
    ensures
        r@ == webfetch_text_spec(content_type@, body@, max_bytes as nat),
{
    let ghost orig = body@;
    let mut kept = body;
    if kept.len() > max_bytes {
        kept.truncate(max_bytes);
    }
    assert(kept@ == (if orig.len() > max_bytes {
        orig.take(max_bytes as int)
    } else {
        orig
    }));
    let ct = chars_of(content_type);
    let cs = chars_of("charset");
    if contains(&ct, &cs) || starts_with_str(&ct, "text/") {
        lossy_text(&kept)
    } else {
        let mut t: Vec<char> = Vec::new();
        push_str(&mut t, "[非文本内容，Content-Type: ");
        push_str(&mut t, content_type);
        push_str(&mut t, "，");
        push_all(&mut t, &decimal_u64(kept.len() as u64));
        push_str(&mut t, " 字节]");
        string_of(&t)
    }
}

/// A search keeps at most `limit` results (one where the limit is 0), each a match, in
/// the order the files came.
pub proof fn law_find_results_bounded(pattern: Seq<char>, files: Seq<FoundFile>, limit: usize)
    ensures
        find_results(pattern, files, limit).len() <= if limit == 0 {
            1
        } else {
            limit as int
        },
        find_results(pattern, files, limit) == matching_files(pattern, files).take(
            find_results(pattern, files, limit).len() as int,
        ),
{
    let all = matching_files(pattern, files);
    assert(all.take(all.len() as int) =~= all);
}

/// A file is found when its name or its relative path matches: the relative paths found
/// are exactly those of the files whose name or relative path matches the glob.
pub proof fn law_find_matches_name_or_path(pattern: Seq<char>, files: Seq<FoundFile>, r: Seq<char>)
    ensures
        matching_files(pattern, files).contains(r) <==> exists|i: int|
            0 <= i < files.len() && (#[trigger] files[i]).relative@ == r && (glob_match(pattern, files[i].name@)
                || glob_match(pattern, files[i].relative@)),
    decreases files.len(),
{
    if files.len() > 0 {
        let t = files.drop_last();
        let f = files.last();
        law_find_matches_name_or_path(pattern, t, r);
        let hit = glob_match(pattern, f.name@) || glob_match(pattern, f.relative@);
        let tail: Seq<Seq<char>> = if hit {
            seq![f.relative@]
        } else {
            Seq::empty()
        };
        let all = matching_files(pattern, t) + tail;
        assert(matching_files(pattern, files) == all);
        if all.contains(r) {
            let q = choose|q: int| 0 <= q < all.len() && all[q] == r;
            if q < matching_files(pattern, t).len() {
                assert(matching_files(pattern, t)[q] == r);
                assert(matching_files(pattern, t).contains(r));
                let i = choose|i: int|
                    0 <= i < t.len() && (#[trigger] t[i]).relative@ == r && (glob_match(pattern, t[i].name@)
                        || glob_match(pattern, t[i].relative@));
                assert(files[i] == t[i]);
            } else {
                assert(files[files.len() - 1] == f);
            }
        }
        if exists|i: int|
            0 <= i < files.len() && (#[trigger] files[i]).relative@ == r && (glob_match(pattern, files[i].name@)
                || glob_match(pattern, files[i].relative@)) {
            let i = choose|i: int|
                0 <= i < files.len() && (#[trigger] files[i]).relative@ == r && (glob_match(pattern, files[i].name@)
                    || glob_match(pattern, files[i].relative@));
            if i < t.len() {
                assert(t[i] == files[i]);
                assert(matching_files(pattern, t).contains(r));
                let q = choose|q: int| 0 <= q < matching_files(pattern, t).len() && matching_files(pattern, t)[q] == r;
                assert(all[q] == r);
            } else {
                assert(files[i] == f);
                assert(all[all.len() - 1] == r);
            }
        }
    }
}

/// Every file whose name or relative path matches is in the `find` tool's results when the
/// matches fit within the limit.
pub proof fn law_find_keeps_matches_within_limit(pattern: Seq<char>, files: Seq<FoundFile>, limit: usize, i: int)
    requires
        0 <= i < files.len(),
        glob_match(pattern, files[i].name@) || glob_match(pattern, files[i].relative@),
        matching_files(pattern, files).len() <= if limit == 0 {
            1
        } else {
            limit as int
        },
    ensures
        find_results(pattern, files, limit).contains(files[i].relative@),
{
    law_find_matches_name_or_path(pattern, files, files[i].relative@);
}

/// Every match of a file is reported, one line each, in order: searching one more file
/// whose search found `ls` adds exactly `ls.len()` lines after those before, the `k`-th
/// of them with the file's path, the `k`-th match's line number and its line without
/// trailing white space.
pub proof fn law_grep_reports_every_match(
    pattern: Seq<char>,
    ignore_case: bool,
    files: Seq<(Seq<char>, Result<Seq<char>, WorkspaceErrorModel>)>,
    path: Seq<char>,
    content: Seq<char>,
    prev: Seq<(Seq<char>, u64, Seq<char>)>,
    ls: Seq<(u64, Seq<char>)>,
)
    requires
        grep_collect(pattern, ignore_case, files) == Ok::<Seq<(Seq<char>, u64, Seq<char>)>, WorkspaceErrorModel>(prev),
        regex_search(pattern, ignore_case, content) == Ok::<Seq<(u64, Seq<char>)>, Seq<char>>(ls),
    ensures
        ({
            let more = files.push((path, Ok::<Seq<char>, WorkspaceErrorModel>(content)));
            &&& grep_collect(pattern, ignore_case, more) is Ok
            &&& grep_collect(pattern, ignore_case, more)->Ok_0.len() == prev.len() + ls.len()
            &&& grep_collect(pattern, ignore_case, more)->Ok_0.take(prev.len() as int) == prev
            &&& forall|k: int| 0 <= k < ls.len() ==> #[trigger] grep_collect(pattern, ignore_case, more)->Ok_0[prev.len() + k]
                == (path, ls[k].0, trim_end(ls[k].1))
        }),
{
    let more = files.push((path, Ok::<Seq<char>, WorkspaceErrorModel>(content)));
    assert(more.drop_last() =~= files);
    assert(more.last() == (path, Ok::<Seq<char>, WorkspaceErrorModel>(content)));
    let r = prev + reported_lines(path, ls);
    assert(grep_collect(pattern, ignore_case, more) == Ok::<Seq<(Seq<char>, u64, Seq<char>)>, WorkspaceErrorModel>(r));
    assert(r.take(prev.len() as int) =~= prev);
    assert forall|k: int| 0 <= k < ls.len() implies #[trigger] r[prev.len() + k] == (path, ls[k].0, trim_end(ls[k].1)) by {
        assert(r[prev.len() + k] == reported_lines(path, ls)[k]);
    }
}

/// The `find` tool keeps as many matches as the limit allows (at least one): all of them
/// when they fit, else exactly the limit's number, the first ones.
pub proof fn law_find_keeps_up_to_limit(pattern: Seq<char>, files: Seq<FoundFile>, limit: usize)
    ensures
        ({
            let cap: int = if limit == 0 {
                1
            } else {
                limit as int
            };
            let all = matching_files(pattern, files);
            &&& find_results(pattern, files, limit).len() == if all.len() <= cap {
                all.len() as int
            } else {
                cap
            }
            &&& forall|q: int| 0 <= q < find_results(pattern, files, limit).len() ==> #[trigger] find_results(pattern, files, limit)[q] == all[q]
        }),
{
}

/// The first file that cannot be read, or whose search fails, decides the `grep` tool's
/// outcome: the error comes back, whatever the files after it hold.
pub proof fn law_grep_first_error_wins(
    pattern: Seq<char>,
    ignore_case: bool,
    files: Seq<(Seq<char>, Result<Seq<char>, WorkspaceErrorModel>)>,
    more: Seq<(Seq<char>, Result<Seq<char>, WorkspaceErrorModel>)>,
)
    requires
        grep_collect(pattern, ignore_case, files) is Err,
    ensures
        grep_collect(pattern, ignore_case, files + more) == grep_collect(pattern, ignore_case, files),
    decreases more.len(),
{
    if more.len() == 0 {
        assert(files + more =~= files);
    } else {
        assert((files + more).drop_last() =~= files + more.drop_last());
        law_grep_first_error_wins(pattern, ignore_case, files, more.drop_last());
    }
}

/// A file that cannot be read gives its read error, and a search that fails gives
/// `Other` with the search's message, when the files before it were searched.
pub proof fn law_grep_file_errors(
    pattern: Seq<char>,
    ignore_case: bool,
    files: Seq<(Seq<char>, Result<Seq<char>, WorkspaceErrorModel>)>,
    path: Seq<char>,
    read_error: WorkspaceErrorModel,
    content: Seq<char>,
    search_error: Seq<char>,
)
    requires
        grep_collect(pattern, ignore_case, files) is Ok,
    ensures
        grep_collect(pattern, ignore_case, files.push((path, Err::<Seq<char>, WorkspaceErrorModel>(read_error))))
            == Err::<Seq<(Seq<char>, u64, Seq<char>)>, WorkspaceErrorModel>(read_error),
        regex_search(pattern, ignore_case, content) == Err::<Seq<(u64, Seq<char>)>, Seq<char>>(search_error)
            ==> grep_collect(pattern, ignore_case, files.push((path, Ok::<Seq<char>, WorkspaceErrorModel>(content))))
            == Err::<Seq<(Seq<char>, u64, Seq<char>)>, WorkspaceErrorModel>(WorkspaceErrorModel::Other(search_error)),
{
    let a = files.push((path, Err::<Seq<char>, WorkspaceErrorModel>(read_error)));
    assert(a.drop_last() =~= files);
    let b = files.push((path, Ok::<Seq<char>, WorkspaceErrorModel>(content)));
    assert(b.drop_last() =~= files);
}

} // verus!
