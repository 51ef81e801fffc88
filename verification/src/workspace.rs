//! The workspace the file tools act in: path resolution, the sandbox's verdict on a path,
//! and what the `read` and `edit` tools compute from a file's text.
use vstd::prelude::*;
use crate::path::{join, path_join};
use crate::text::{
    chars_of, decimal, decimal_u128, decimal_u64, find, find_from, first_occurrence,
    first_occurrence_from, index_of_char, join_spec, lemma_first_occurrence_from, occurs_at,
    lemma_occurrence_from_skip, push_all, push_str, right_align, right_aligned, slice_chars,
    string_of,
};

verus! {

broadcast use vstd::string::group_string_axioms;

/// How the sandbox's filesystem rules treat a path.
#[derive(Clone, Copy, Debug, PartialEq, Eq, Structural)]
pub enum ValidationResult {
    Allowed,
    ReadOnly,
    Denied,
}

/// An error of a workspace tool.
#[derive(Debug)]
pub enum WorkspaceError {
    /// The sandbox refused the path.
    SandboxDenied(String),
    /// A file operation failed; `message` is the system's description.
    Io { path: String, message: String },
    /// Any other failure, with its message.
    Other(String),
}

pub enum WorkspaceErrorModel {
    SandboxDenied(Seq<char>),
    Io { path: Seq<char>, message: Seq<char> },
    Other(Seq<char>),
}

impl View for WorkspaceError {
    type V = WorkspaceErrorModel;

    open spec fn view(&self) -> WorkspaceErrorModel {
        match self {
            WorkspaceError::SandboxDenied(p) => WorkspaceErrorModel::SandboxDenied(p@),
            WorkspaceError::Io { path, message } => WorkspaceErrorModel::Io {
                path: path@,
                message: message@,
            },
            WorkspaceError::Other(m) => WorkspaceErrorModel::Other(m@),
        }
    }
}

/// The text of an error, as it is shown to the model.
pub open spec fn workspace_error_text(e: WorkspaceErrorModel) -> Seq<char> {
    match e {
        WorkspaceErrorModel::SandboxDenied(p) => "路径被沙箱拒绝："@ + p,
        WorkspaceErrorModel::Io { path, message } => "IO 错误："@ + path + "，"@ + message,
        WorkspaceErrorModel::Other(m) => m,
    }
}

impl WorkspaceError {
    /// The text of the error (see `workspace_error_text`).
    pub fn message(&self) -> (r: String)
        ensures
            r@ == workspace_error_text(self@),
    {
        let mut t: Vec<char> = Vec::new();
        match self {
            WorkspaceError::SandboxDenied(p) => {
                push_str(&mut t, "路径被沙箱拒绝：");
                push_str(&mut t, p.as_str());
            },
            WorkspaceError::Io { path, message } => {
                push_str(&mut t, "IO 错误：");
                push_str(&mut t, path.as_str());
                push_str(&mut t, "，");
                push_str(&mut t, message.as_str());
            },
            WorkspaceError::Other(m) => {
                push_str(&mut t, m.as_str());
            },
        }
        string_of(&t)
    }
}

// ── paths ───────────────────────────────────────────────────────────

/// A relative path is taken under the project root; an absolute one is kept.
pub open spec fn resolve_path_spec(project_root: Seq<char>, path: Seq<char>) -> Seq<char> {
    if path.len() > 0 && path[0] == '/' {
        path
    } else {
        path_join(project_root, path)
    }
}

/// The path a tool argument names (see `resolve_path_spec`).
pub fn resolve_path(project_root: &str, path: &str) -> (r: String)
    ensures
        r@ == resolve_path_spec(project_root@, path@),
{
    let p = chars_of(path);
    if p.len() > 0 && p[0] == '/' {
        path.to_owned()
    } else {
        let root = chars_of(project_root);
        string_of(&join(&root, &p))
    }
}

/// Reading a file needs any verdict but a denial.
pub fn check_read(path: &str, verdict: ValidationResult) -> (r: Result<(), WorkspaceError>)
    ensures
        match r {
            Ok(()) => verdict != ValidationResult::Denied,
            Err(e) => verdict == ValidationResult::Denied && e@ == WorkspaceErrorModel::SandboxDenied(
                path@,
            ),
        },
{
    if verdict == ValidationResult::Denied {
        Err(WorkspaceError::SandboxDenied(path.to_owned()))
    } else {
        Ok(())
    }
}

/// Writing a file needs an allowing verdict; a read-only path is refused as `只读: <path>`.
pub fn check_write(path: &str, verdict: ValidationResult) -> (r: Result<(), WorkspaceError>)
    ensures
        match r {
            Ok(()) => verdict == ValidationResult::Allowed,
            Err(e) => match verdict {
                ValidationResult::ReadOnly => e@ == WorkspaceErrorModel::SandboxDenied("只读: "@ + path@),
                ValidationResult::Denied => e@ == WorkspaceErrorModel::SandboxDenied(path@),
                ValidationResult::Allowed => false,
            },
        },
{
    match verdict {
        ValidationResult::Allowed => Ok(()),
        ValidationResult::ReadOnly => {
            let mut t: Vec<char> = Vec::new();
            push_str(&mut t, "只读: ");
            push_str(&mut t, path);
            Err(WorkspaceError::SandboxDenied(string_of(&t)))
        },
        ValidationResult::Denied => Err(WorkspaceError::SandboxDenied(path.to_owned())),
    }
}

// ── lines ───────────────────────────────────────────────────────────

/// A line without the `\r` of a `\r\n` ending.
pub open spec fn strip_cr(l: Seq<char>) -> Seq<char> {
    if l.len() > 0 && l.last() == '\r' {
        l.drop_last()
    } else {
        l
    }
}

/// The lines of a text, as `str::lines` gives them: split at `\n` or `\r\n`; the final
/// line ending is optional, and a `\r` not followed by `\n` stays in its line.
pub open spec fn lines_spec(s: Seq<char>) -> Seq<Seq<char>>
    decreases s.len(),
{
    if s.len() == 0 {
        Seq::empty()
    } else {
        match index_of_char(s, '\n') {
            None => seq![s],
            Some(i) => if 0 <= i < s.len() {
                seq![strip_cr(s.take(i))] + lines_spec(s.skip(i + 1))
            } else {
                seq![s]
            },
        }
    }
}

pub open spec fn lines_model(v: Seq<Vec<char>>) -> Seq<Seq<char>> {
    v.map_values(|l: Vec<char>| l@)
}

fn strip_cr_chars(l: &mut Vec<char>)
    ensures
        final(l)@ == strip_cr(old(l)@),
{
    if l.len() > 0 && l[l.len() - 1] == '\r' {
        l.pop();
    }
}

/// The lines of a text (see `lines_spec`).
pub fn split_lines(s: &Vec<char>) -> (r: Vec<Vec<char>>)
    ensures
        lines_model(r@) == lines_spec(s@),
{
    let mut out: Vec<Vec<char>> = Vec::new();
    let mut nl: Vec<char> = Vec::new();
    nl.push('\n');
    let mut i: usize = 0;
    assert(s@.skip(0) =~= s@);
    while i < s.len()
        invariant
            i <= s.len(),
            nl@ == seq!['\n'],
            lines_spec(s@) == lines_model(out@) + lines_spec(s@.skip(i as int)),
        decreases s.len() - i,
    {
        let ghost t = s@.skip(i as int);
        let ghost before = out@;
        proof {
            lemma_occurrence_from_skip(s@, seq!['\n'], i as int);
        }
        match find_from(s, &nl, i) {
            None => {
                let line = slice_chars(s, i, s.len());
                out.push(line);
                assert(line@ =~= t);
                assert(lines_spec(t) == seq![t]);
                i = s.len();
                assert(s@.skip(i as int) =~= Seq::<char>::empty());
                assert(lines_model(out@) =~= lines_model(before) + seq![t]);
            },
            Some(k) => {
                proof {
                    lemma_first_occurrence_from(s@, seq!['\n'], i as int);
                }
                let mut line = slice_chars(s, i, k);
                strip_cr_chars(&mut line);
                out.push(line);
                proof {
                    assert(index_of_char(t, '\n') == Some(k - i));
                    assert(t.take(k - i) =~= s@.subrange(i as int, k as int));
                    assert(t.skip(k - i + 1) =~= s@.skip(k + 1));
                    assert(lines_model(out@) =~= lines_model(before) + seq![line@]);
                }
                i = k + 1;
            },
        }
    }
    assert(s@.skip(i as int) =~= Seq::<char>::empty());
    assert(lines_model(out@) + Seq::<Seq<char>>::empty() =~= lines_model(out@));
    out
}

// ── read ────────────────────────────────────────────────────────────

/// The first line shown (from 0): the 1-based `offset` less one, 0 by default.
pub open spec fn read_start(offset: Option<usize>) -> int {
    let o: int = match offset {
        Some(o) => o as int,
        None => 1,
    };
    if o >= 1 {
        o - 1
    } else {
        0
    }
}

/// The most lines shown: `limit`, unbounded by default.
pub open spec fn read_limit(limit: Option<usize>) -> int {
    match limit {
        Some(l) => l as int,
        None => usize::MAX as int,
    }
}

/// Each line as `<number right-aligned in 6>\t<line>\n`, numbered from `first`.
pub open spec fn numbered_lines(ls: Seq<Seq<char>>, first: int) -> Seq<char>
    decreases ls.len(),
{
    if ls.len() == 0 {
        Seq::empty()
    } else {
        numbered_lines(ls.drop_last(), first) + right_align(
            decimal((first + ls.len() - 1) as nat),
            6,
        ) + "\t"@ + ls.last() + "\n"@
    }
}

/// What the `read` tool shows of a file's text. Past the end it says so. Otherwise the
/// lines from the offset on, at most `limit` of them: numbered when an offset or a limit
/// is given or the file has more than 100 lines, else joined by newlines; a note of the
/// range shown follows when lines remain after it.
pub open spec fn read_view(
    path: Seq<char>,
    content: Seq<char>,
    offset: Option<usize>,
    limit: Option<usize>,
) -> Seq<char> {
    let lines = lines_spec(content);
    let total = lines.len() as int;
    let start = read_start(offset);
    let end = if start + read_limit(limit) < total {
        start + read_limit(limit)
    } else {
        total
    };
    if start >= total {
        "文件 "@ + path + " 共 "@ + decimal(total as nat) + " 行，起始行 "@ + decimal(
            match offset {
                Some(o) => o as nat,
                None => 1nat,
            },
        ) + " 超出范围"@
    } else {
        let selected = lines.subrange(start, end);
        let body = if offset is Some || limit is Some || total > 100 {
            numbered_lines(selected, start + 1)
        } else {
            join_spec(selected, "\n"@)
        };
        if end < total {
            body + "\n... （共 "@ + decimal(total as nat) + " 行，显示 "@ + decimal((start + 1) as nat)
                + "–"@ + decimal(end as nat) + "）"@
        } else {
            body
        }
    }
}

/// What the `read` tool shows of a file's text (see `read_view`).
pub fn render_read(path: &str, content: &str, offset: Option<usize>, limit: Option<usize>) -> (r:
    String)
    ensures
        r@ == read_view(path@, content@, offset, limit),
{
    let text = chars_of(content);
    let lines = split_lines(&text);
    let ghost ls = lines_model(lines@);
    let total = lines.len();
    let o: usize = match offset {
        Some(o) => o,
        None => 1,
    };
    let start: usize = if o >= 1 {
        o - 1
    } else {
        0
    };
    let lim: usize = match limit {
        Some(l) => l,
        None => usize::MAX,
    };
    let mut out: Vec<char> = Vec::new();
    if start >= total {
        push_str(&mut out, "文件 ");
        push_str(&mut out, path);
        push_str(&mut out, " 共 ");
        push_all(&mut out, &decimal_u64(total as u64));
        push_str(&mut out, " 行，起始行 ");
        push_all(&mut out, &decimal_u64(o as u64));
        push_str(&mut out, " 超出范围");
        return string_of(&out);
    }
    let end = if lim < total - start {
        start + lim
    } else {
        total
    };
    if offset.is_some() || limit.is_some() || total > 100 {
        let mut k: usize = start;
        while k < end
            invariant
                start <= k <= end <= total,
                total == lines@.len(),
                ls == lines_model(lines@),
                out@ == numbered_lines(ls.subrange(start as int, k as int), start + 1),
            decreases end - k,
        {
            let ghost before = out@;
            let num = right_aligned(&decimal_u64((k + 1) as u64), 6);
            push_all(&mut out, &num);
            out.push('\t');
            push_all(&mut out, &lines[k]);
            out.push('\n');
            k = k + 1;
            proof {
                let sub = ls.subrange(start as int, k as int);
                assert(sub.drop_last() =~= ls.subrange(start as int, k - 1));
                assert(sub.last() == lines@[k - 1]@);
                reveal_strlit("\t");
                reveal_strlit("\n");
                assert(out@ =~= before + right_align(decimal(k as nat), 6) + "\t"@ + sub.last()
                    + "\n"@);
            }
        }
    } else {
        let mut k: usize = start;
        while k < end
            invariant
                start <= k <= end <= total,
                total == lines@.len(),
                ls == lines_model(lines@),
                out@ == join_spec(ls.subrange(start as int, k as int), "\n"@),
            decreases end - k,
        {
            let ghost before = out@;
            if k > start {
                out.push('\n');
            }
            push_all(&mut out, &lines[k]);
            k = k + 1;
            proof {
                let sub = ls.subrange(start as int, k as int);
                assert(sub.drop_last() =~= ls.subrange(start as int, k - 1));
                reveal_strlit("\n");
                if k == start + 1 {
                    assert(out@ =~= sub[0]);
                } else {
                    assert(out@ =~= before + "\n"@ + sub.last());
                }
            }
        }
    }
    if end < total {
        push_str(&mut out, "\n... （共 ");
        push_all(&mut out, &decimal_u64(total as u64));
        push_str(&mut out, " 行，显示 ");
        push_all(&mut out, &decimal_u64((start + 1) as u64));
        push_str(&mut out, "–");
        push_all(&mut out, &decimal_u64(end as u64));
        push_str(&mut out, "）");
    }
    string_of(&out)
}

// ── edit ────────────────────────────────────────────────────────────

/// One replacement the `edit` tool is asked for.
#[derive(Clone, Debug)]
pub struct EditOperation {
    /// The text to replace; it must occur exactly once.
    pub old_text: String,
    /// The text to put in its place.
    pub new_text: String,
}

/// How many times `p` occurs in `s`, as `str::matches` counts them: from the left and
/// without overlap; the empty pattern matches at every position, one more than the length.
pub open spec fn count_matches(s: Seq<char>, p: Seq<char>) -> nat
    decreases s.len(),
{
    if p.len() == 0 {
        s.len() + 1
    } else {
        match first_occurrence(s, p) {
            Some(i) => if 0 <= i && i + p.len() <= s.len() {
                1 + count_matches(s.skip(i + p.len()), p)
            } else {
                0
            },
            None => 0,
        }
    }
}

/// `s` with the first occurrence of `p` replaced by `r`.
pub open spec fn replace_first(s: Seq<char>, p: Seq<char>, r: Seq<char>) -> Seq<char> {
    match first_occurrence(s, p) {
        Some(i) => s.take(i) + r + s.skip(i + p.len()),
        None => s,
    }
}

/// Applies the operation numbered `k` (from 0): its text must occur exactly once.
pub open spec fn edit_step(c: Seq<char>, op: EditOperation, k: int) -> Result<Seq<char>, Seq<char>> {
    let n = count_matches(c, op.old_text@);
    if n == 0 {
        Err("第 "@ + decimal((k + 1) as nat) + " 个编辑操作：未找到匹配文本:\n"@ + op.old_text@)
    } else if n > 1 {
        Err(
            "第 "@ + decimal((k + 1) as nat) + " 个编辑操作：匹配文本出现 "@ + decimal(n)
                + " 次（需唯一匹配）:\n"@ + op.old_text@,
        )
    } else {
        Ok(replace_first(c, op.old_text@, op.new_text@))
    }
}

/// The operations applied in order; the first that fails stops the edit with its message.
pub open spec fn edits_result(content: Seq<char>, ops: Seq<EditOperation>) -> Result<
    Seq<char>,
    Seq<char>,
>
    decreases ops.len(),
{
    if ops.len() == 0 {
        Ok(content)
    } else {
        match edits_result(content, ops.drop_last()) {
            Err(e) => Err(e),
            Ok(c) => edit_step(c, ops.last(), ops.len() - 1),
        }
    }
}

/// How many times `p` occurs in `s` (see `count_matches`).
pub fn count_occurrences(s: &Vec<char>, p: &Vec<char>) -> (r: u128)
    ensures
        r == count_matches(s@, p@),
{
    if p.len() == 0 {
        return (s.len() as u128) + 1;
    }
    let mut cnt: usize = 0;
    let mut i: usize = 0;
    assert(s@.skip(0) =~= s@);
    while i <= s.len()
        invariant
            p.len() > 0,
            i <= s.len(),
            cnt <= i,
            count_matches(s@, p@) == cnt + count_matches(s@.skip(i as int), p@),
        decreases s.len() + 1 - i,
    {
        let ghost t = s@.skip(i as int);
        proof {
            lemma_occurrence_from_skip(s@, p@, i as int);
            lemma_first_occurrence_from(s@, p@, i as int);
        }
        match find_from(s, p, i) {
            None => {
                assert(count_matches(t, p@) == 0);
                return cnt as u128;
            },
            Some(k) => {
                proof {
                    assert(t.skip(k - i + p.len()) =~= s@.skip(k + p.len()));
                }
                cnt = cnt + 1;
                i = k + p.len();
            },
        }
    }
    cnt as u128
}

fn step_error(k: usize, tail: &str, old_text: &str) -> (r: WorkspaceError)
    ensures
        r@ == WorkspaceErrorModel::Other("第 "@ + decimal(k as nat + 1) + tail@ + old_text@),
{
    let mut t: Vec<char> = Vec::new();
    push_str(&mut t, "第 ");
    push_all(&mut t, &decimal_u128(k as u128 + 1));
    push_str(&mut t, tail);
    push_str(&mut t, old_text);
    WorkspaceError::Other(string_of(&t))
}

/// Applies the operations to a file's text in order (see `edits_result`); the failing
/// operation's message comes back as `WorkspaceError::Other`.
pub fn apply_edits(content: &str, edits: &Vec<EditOperation>) -> (r: Result<String, WorkspaceError>)
    ensures
        match r {
            Ok(c) => edits_result(content@, edits@) == Ok::<Seq<char>, Seq<char>>(c@),
            Err(e) => exists|m: Seq<char>|
                e@ == WorkspaceErrorModel::Other(m) && edits_result(content@, edits@) == Err::<
                    Seq<char>,
                    Seq<char>,
                >(m),
        },
{
    let mut cur = chars_of(content);
    let mut k: usize = 0;
    assert(edits@.take(0) =~= Seq::<EditOperation>::empty());
    while k < edits.len()
        invariant
            k <= edits.len(),
            edits_result(content@, edits@.take(k as int)) == Ok::<Seq<char>, Seq<char>>(cur@),
        decreases edits.len() - k,
    {
        let op = &edits[k];
        let old_t = chars_of(op.old_text.as_str());
        let n = count_occurrences(&cur, &old_t);
        proof {
            assert(edits@.take(k + 1).drop_last() =~= edits@.take(k as int));
            assert(edits@.take(k + 1).last() == edits@[k as int]);
        }
        if n == 0 {
            let e = step_error(k, " 个编辑操作：未找到匹配文本:\n", op.old_text.as_str());
            proof {
                lemma_edits_prefix_err(content@, edits@, k as int + 1);
            }
            return Err(e);
        }
        if n > 1 {
            let mut tail: Vec<char> = Vec::new();
            push_str(&mut tail, " 个编辑操作：匹配文本出现 ");
            push_all(&mut tail, &decimal_u128(n));
            push_str(&mut tail, " 次（需唯一匹配）:\n");
            let tail_s = string_of(&tail);
            let e = step_error(k, tail_s.as_str(), op.old_text.as_str());
            proof {
                assert(e@ == WorkspaceErrorModel::Other(
                    "第 "@ + decimal((k + 1) as nat) + " 个编辑操作：匹配文本出现 "@ + decimal(n as nat)
                        + " 次（需唯一匹配）:\n"@ + op.old_text@,
                )) by {
                    assert(("第 "@ + decimal(k as nat + 1) + tail_s@ + op.old_text@) =~= ("第 "@
                        + decimal((k + 1) as nat) + " 个编辑操作：匹配文本出现 "@ + decimal(n as nat)
                        + " 次（需唯一匹配）:\n"@ + op.old_text@));
                }
                lemma_edits_prefix_err(content@, edits@, k as int + 1);
            }
            return Err(e);
        }
        let pos = find(&cur, &old_t);
        let ghost before = cur@;
        match pos {
            Some(i) => {
                proof {
                    text_lemma_occurs(before, old_t@, i as int);
                }
                assert(cur.len() <= usize::MAX);
                let mut next = slice_chars(&cur, 0, i);
                let new_t = chars_of(op.new_text.as_str());
                push_all(&mut next, &new_t);
                let rest = slice_chars(&cur, i + old_t.len(), cur.len());
                push_all(&mut next, &rest);
                proof {
                    assert(next@ =~= before.take(i as int) + op.new_text@ + before.skip(
                        i + old_t@.len(),
                    ));
                }
                cur = next;
            },
            None => {
                proof {
                    lemma_count_none(before, old_t@);
                }
            },
        }
        k = k + 1;
    }
    assert(edits@.take(edits.len() as int) =~= edits@);
    Ok(string_of(&cur))
}

proof fn text_lemma_occurs(s: Seq<char>, p: Seq<char>, i: int)
    requires
        first_occurrence(s, p) == Some(i),
    ensures
        0 <= i && i + p.len() <= s.len(),
{
    lemma_first_occurrence_from(s, p, 0);
}

proof fn lemma_count_none(s: Seq<char>, p: Seq<char>)
    requires
        first_occurrence(s, p) is None,
    ensures
        count_matches(s, p) == 0,
{
    if p.len() == 0 {
        assert(s.subrange(0, 0) =~= p);
        assert(occurs_at(s, p, 0));
    }
}

/// Once an operation fails, the whole edit fails with its message.
proof fn lemma_edits_prefix_err(content: Seq<char>, ops: Seq<EditOperation>, k: int)
    requires
        0 <= k <= ops.len(),
        edits_result(content, ops.take(k)) is Err,
    ensures
        edits_result(content, ops) == edits_result(content, ops.take(k)),
    decreases ops.len() - k,
{
    if k < ops.len() {
        assert(ops.take(k + 1).drop_last() =~= ops.take(k));
        lemma_edits_prefix_err(content, ops, k + 1);
    } else {
        assert(ops.take(k) =~= ops);
    }
}

/// The `edit` tool's reply once the file is written.
pub fn edit_done_message(path: &str, count: usize) -> (r: String)
    ensures
        r@ == "已成功编辑文件 "@ + path@ + "，共应用 "@ + decimal(count as nat) + " 个编辑操作"@,
{
    let mut t: Vec<char> = Vec::new();
    push_str(&mut t, "已成功编辑文件 ");
    push_str(&mut t, path);
    push_str(&mut t, "，共应用 ");
    push_all(&mut t, &decimal_u64(count as u64));
    push_str(&mut t, " 个编辑操作");
    string_of(&t)
}

/// A read that leaves lines out says so: whenever the lines shown stop before the end of
/// the file (the first line shown plus the limit is below the line count), the reply
/// ends with `\n... （共 <lines> 行，显示 <first>–<last>）`, whether an offset was given
/// or not.
pub proof fn law_read_notes_hidden_lines(
    path: Seq<char>,
    content: Seq<char>,
    offset: Option<usize>,
    limit: Option<usize>,
)
    requires
        read_start(offset) + read_limit(limit) < lines_spec(content).len(),
    ensures
        ({
            let total = lines_spec(content).len();
            let start = read_start(offset);
            let note = "\n... （共 "@ + decimal(total) + " 行，显示 "@ + decimal((start + 1) as nat) + "–"@
                + decimal((start + read_limit(limit)) as nat) + "）"@;
            let v = read_view(path, content, offset, limit);
            v.len() >= note.len() && v.skip(v.len() - note.len()) == note
        }),
{
    let total = lines_spec(content).len();
    let start = read_start(offset);
    let note = "\n... （共 "@ + decimal(total) + " 行，显示 "@ + decimal((start + 1) as nat) + "–"@
        + decimal((start + read_limit(limit)) as nat) + "）"@;
    let v = read_view(path, content, offset, limit);
    assert(read_limit(limit) >= 0);
    let lines = lines_spec(content);
    let end = start + read_limit(limit);
    let selected = lines.subrange(start, end);
    let body = if offset is Some || limit is Some || total > 100 {
        numbered_lines(selected, start + 1)
    } else {
        join_spec(selected, "\n"@)
    };
    assert(v == body + note);
    assert(v.skip(v.len() - note.len()) =~= note);
}

/// A read from past the last line shows no line: it says how many lines the file has
/// and which first line was asked for.
pub proof fn law_read_past_end(path: Seq<char>, content: Seq<char>, offset: Option<usize>, limit: Option<usize>)
    requires
        read_start(offset) >= lines_spec(content).len(),
    ensures
        read_view(path, content, offset, limit) == "文件 "@ + path + " 共 "@ + decimal(lines_spec(content).len())
            + " 行，起始行 "@ + decimal(
            match offset {
                Some(o) => o as nat,
                None => 1nat,
            },
        ) + " 超出范围"@,
{
}

} // verus!
