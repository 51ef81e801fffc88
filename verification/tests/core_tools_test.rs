use playpen::core_tools::{
    bash_reply, bash_timeout_ms, bash_working_dir, check_bash_cwd, check_http_status,
    check_move_destination, compile_glob_filter, deleted_message, find_tool, glob_filter_keeps, grep_report, grep_tool,
    matched_line, moved_message,
    plan_move, webfetch_max_bytes, webfetch_text, webfetch_timeout_ms, write_done_message,
    all_tool_schemas, filter_tool_schemas, CommandRun, FoundFile, GrepFile, GrepLine, MovePlan, BashError,
    WebfetchError,
};
use playpen::workspace::{
    apply_edits, check_read, check_write, edit_done_message, render_read, resolve_path,
    EditOperation, ValidationResult, WorkspaceError,
};

#[test]
fn read_file_basic() {
    let result = render_read("/tmp/hello.txt", "line1\nline2\nline3\n", None, None);
    assert!(result.contains("line1"));
    assert!(result.contains("line2"));
    assert!(result.contains("line3"));
    assert_eq!(result, "line1\nline2\nline3");
}

#[test]
fn read_file_with_offset() {
    let result = render_read("/tmp/nums.txt", "1\n2\n3\n4\n5\n", Some(2), Some(2));
    assert!(result.contains("2"));
    assert!(result.contains("3"));
    assert!(!result.contains("1"));
    assert!(!result.contains("4"));
}

#[test]
fn read_numbers_lines_and_notes_the_rest() {
    let result = render_read("f", "a\r\nb\nc", Some(1), Some(2));
    assert_eq!(result, "     1\ta\n     2\tb\n\n... （共 3 行，显示 1–2）");
    let result = render_read("f", "a\nb", Some(5), None);
    assert_eq!(result, "文件 f 共 2 行，起始行 5 超出范围");
}

#[test]
fn write_file_creates() {
    let msg = write_done_message("/tmp/new.txt", "hello world");
    assert!(msg.contains("已成功写入"));
    assert_eq!(msg, "已成功写入文件 /tmp/new.txt（11 字节）");
    assert_eq!(write_done_message("f", "写"), "已成功写入文件 f（3 字节）");
}

#[test]
fn edit_file_exact_match() {
    let ops = vec![EditOperation { old_text: "foo bar".into(), new_text: "baz qux".into() }];
    let content = apply_edits("hello world\nfoo bar\n", &ops).unwrap();
    assert_eq!(content, "hello world\nbaz qux\n");
    assert!(edit_done_message("/tmp/edit.txt", 1).contains("成功"));
}

#[test]
fn edit_requires_a_unique_match() {
    let ops = vec![EditOperation { old_text: "x".into(), new_text: "y".into() }];
    match apply_edits("abc", &ops) {
        Err(WorkspaceError::Other(m)) => assert_eq!(m, "第 1 个编辑操作：未找到匹配文本:\nx"),
        _ => panic!("应报未找到"),
    }
    let ops = vec![
        EditOperation { old_text: "a".into(), new_text: "b".into() },
        EditOperation { old_text: "b".into(), new_text: "c".into() },
    ];
    match apply_edits("ab", &ops) {
        Err(WorkspaceError::Other(m)) => assert_eq!(m, "第 2 个编辑操作：匹配文本出现 2 次（需唯一匹配）:\nb"),
        _ => panic!("应报重复"),
    }
    let ops = vec![EditOperation { old_text: "aa".into(), new_text: "b".into() }];
    match apply_edits("aaaa", &ops) {
        Err(WorkspaceError::Other(m)) => assert!(m.contains("出现 2 次")),
        _ => panic!("应报重复"),
    }
    let ops = vec![EditOperation { old_text: "".into(), new_text: "new".into() }];
    assert_eq!(apply_edits("", &ops).unwrap(), "new");
}

#[test]
fn move_file_rename() {
    assert_eq!(plan_move("/a", "/b", ValidationResult::Allowed).unwrap(), MovePlan::Move);
    assert!(check_move_destination("/b", ValidationResult::Allowed).is_ok());
    let msg = moved_message("/a", "/b");
    assert!(msg.contains("已移动"));
    assert_eq!(msg, "已移动：/a -> /b");
}

#[test]
fn move_file_delete() {
    assert_eq!(plan_move("/a", "/dev/null", ValidationResult::Allowed).unwrap(), MovePlan::Delete);
    assert!(deleted_message("/a").contains("已删除"));
    match plan_move("/a", "/dev/null", ValidationResult::ReadOnly) {
        Err(WorkspaceError::Other(m)) => assert_eq!(m, "源路径为只读，无法移动/删除：/a"),
        _ => panic!("只读应拒绝"),
    }
    match check_move_destination("/b", ValidationResult::Denied) {
        Err(WorkspaceError::Other(m)) => assert_eq!(m, "目标路径被沙箱拒绝：/b"),
        _ => panic!("应拒绝"),
    }
}

fn file(name: &str, rel: &str) -> FoundFile {
    FoundFile { name: name.into(), relative: rel.into() }
}

#[test]
fn find_files_by_pattern() {
    let files = vec![file("a.rs", "a.rs"), file("b.rs", "b.rs"), file("c.txt", "c.txt"), file("d.rs", "sub/d.rs")];
    let result = find_tool("*.rs", &files, None).unwrap();
    assert!(result.contains("a.rs"));
    assert!(result.contains("b.rs"));
    assert!(result.contains("d.rs"));
    assert!(!result.contains("c.txt"));
    assert_eq!(result, "a.rs\nb.rs\nsub/d.rs\n--- 共 3 个文件 ---");
    assert_eq!(find_tool("*.rs", &files, Some(0)).unwrap(), "a.rs\n--- 共 1 个文件 ---");
    match find_tool("[", &files, None) {
        Err(WorkspaceError::Other(m)) => assert!(m.starts_with("无效的 glob 模式：[，")),
        _ => panic!("无效模式应报错"),
    }
}

fn grep_file(path: &str, content: &str) -> GrepFile {
    GrepFile { path: path.into(), content: Ok(content.into()) }
}

#[test]
fn grep_no_match() {
    let files = vec![grep_file("main.rs", "fn main() {}\n")];
    let result = grep_tool("nonexistent", false, &files).unwrap();
    assert!(result.contains("共 0 个匹配"));
    assert_eq!(result, "\n--- 共 0 个匹配 ---");
    assert!(grep_report(&vec![]).contains("共 0 个匹配"));
}

#[test]
fn grep_search_content() {
    let files = vec![grep_file("main.rs", "fn main() {\n    println!(\"hello\");\n}\n")];
    let result = grep_tool("println", false, &files).unwrap();
    assert!(result.contains("println"));
    assert_eq!(result, "main.rs:2:     println!(\"hello\");\n\n--- 共 1 个匹配 ---");
}

#[test]
fn grep_ignore_case_files_in_order_and_errors() {
    let files = vec![grep_file("a.txt", "Hello\nworld\n"), grep_file("b.txt", "HELLO there  \n")];
    assert_eq!(
        grep_tool("hello", true, &files).unwrap(),
        "a.txt:1: Hello\nb.txt:1: HELLO there\n\n--- 共 2 个匹配 ---"
    );
    assert_eq!(grep_tool("hello", false, &files).unwrap(), "\n--- 共 0 个匹配 ---");
    match grep_tool("(", false, &files) {
        Err(WorkspaceError::Other(m)) => assert!(m.starts_with("无效的正则表达式：(，")),
        _ => panic!("无效正则应报错"),
    }
    let unreadable = vec![
        grep_file("a.txt", "hello\n"),
        GrepFile { path: "b.bin".into(), content: Err(WorkspaceError::Io { path: "/p/b.bin".into(), message: "bad".into() }) },
    ];
    match grep_tool("hello", false, &unreadable) {
        Err(WorkspaceError::Io { path, .. }) => assert_eq!(path, "/p/b.bin"),
        _ => panic!("读取错误应报错"),
    }
}

#[test]
fn glob_filter_keeps_name_or_path() {
    let g = compile_glob_filter("*.rs").unwrap();
    assert!(glob_filter_keeps(&g, "main.rs", "/p/src/main.rs"));
    assert!(!glob_filter_keeps(&g, "a.txt", "/p/a.txt"));
    let d = compile_glob_filter("src").unwrap();
    assert!(glob_filter_keeps(&d, "src", "/p/src"));
    assert!(compile_glob_filter("[").is_err());
}

#[test]
fn grep_report_lists_lines() {
    let lines = vec![GrepLine { path: "main.rs".into(), line_no: 2, line: matched_line("    println!(\"hello\");\n") }];
    let out = grep_report(&lines);
    assert!(out.contains("println"));
    assert_eq!(out, "main.rs:2:     println!(\"hello\");\n\n--- 共 1 个匹配 ---");
}

#[test]
fn bash_replies() {
    assert_eq!(bash_timeout_ms(None), 60000);
    assert_eq!(bash_reply(CommandRun::Exited(0), 60000).unwrap(), "命令执行成功（退出码：0）");
    assert_eq!(bash_reply(CommandRun::Exited(-2), 60000).unwrap(), "命令执行完成（退出码：-2)");
    match bash_reply(CommandRun::TimedOut, 1500) {
        Err(e) => assert_eq!(e.message(), "沙箱执行失败：命令执行超时（超过 1500 毫秒）"),
        Ok(_) => panic!("超时应报错"),
    }
    assert_eq!(bash_working_dir("/root", &None), "/root");
    assert_eq!(bash_working_dir("/root", &Some("sub".into())), "/root/sub");
    match check_bash_cwd("/etc", ValidationResult::Denied) {
        Err(BashError::CwdDenied(p)) => assert_eq!(p, "/etc"),
        _ => panic!("应拒绝"),
    }
}

#[test]
fn webfetch_replies() {
    assert_eq!(webfetch_timeout_ms(None), 30000);
    assert_eq!(webfetch_max_bytes(None), 10485760);
    assert!(check_http_status(200).is_ok());
    match check_http_status(404) {
        Err(e) => {
            assert!(matches!(&e, WebfetchError::Http(m) if m == "HTTP 404"));
            assert_eq!(e.message(), "HTTP 请求失败：HTTP 404");
        }
        Ok(_) => panic!("404 应失败"),
    }
    assert_eq!(webfetch_text("text/plain", b"hello from web".to_vec(), 100), "hello from web");
    assert_eq!(webfetch_text("text/plain", b"hello".to_vec(), 2), "he");
    assert_eq!(webfetch_text("image/png", vec![1, 2, 3], 2), "[非文本内容，Content-Type: image/png，2 字节]");
}

#[test]
fn workspace_checks_and_paths() {
    assert_eq!(resolve_path("/root", "a/b"), "/root/a/b");
    assert_eq!(resolve_path("/root", "/etc/hosts"), "/etc/hosts");
    assert!(check_read("/x", ValidationResult::ReadOnly).is_ok());
    match check_write("/x", ValidationResult::ReadOnly) {
        Err(WorkspaceError::SandboxDenied(m)) => assert_eq!(m, "只读: /x"),
        _ => panic!("只读不可写"),
    }
    let e = WorkspaceError::SandboxDenied("/etc/hosts".into());
    assert_eq!(e.message(), "路径被沙箱拒绝：/etc/hosts");
    assert!(all_tool_schemas().is_empty());
    assert!(filter_tool_schemas(&vec!["read".into()]).is_empty());
}

#[test]
fn read_with_huge_offset_and_limit() {
    let far = render_read("/tmp/a.txt", "x\ny\n", Some(usize::MAX), Some(usize::MAX));
    assert!(far.contains("超出范围"));
    let all = render_read("/tmp/a.txt", "x\ny\n", Some(2), Some(usize::MAX));
    assert_eq!(all, "     2\ty\n");
}
