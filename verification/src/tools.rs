//! The results of the agent's tools: the blocks each tool hands back to the model.
use vstd::prelude::*;
use crate::content::{BlockModel, ContentBlock, Resource, blocks_model, text_model, with_annotations_model};
use crate::event::{Event, EventModel};
use crate::json::{JsonModel, JsonValue, json_model, json_fields_model, new_fields, push_field};
use crate::text::{chars_of, decimal_u64, decimal_i64, join_spec, join_strings, push_all, push_str, signed_decimal, decimal, string_of, strings_model};

verus! {

broadcast use vstd::string::group_string_axioms;

// ── json helpers ────────────────────────────────────────────────────

/// A JSON number holding a signed integer.
pub fn json_i64(n: i64) -> (r: JsonValue)
    ensures
        r@ == JsonModel::Number(signed_decimal(n as int)),
{
    JsonValue::Number(string_of(&decimal_i64(n)))
}

/// A JSON number holding an unsigned integer.
pub fn json_u64(n: u64) -> (r: JsonValue)
    ensures
        r@ == JsonModel::Number(decimal(n as nat)),
{
    JsonValue::Number(string_of(&decimal_u64(n)))
}

/// A JSON string.
pub fn json_str(s: &str) -> (r: JsonValue)
    ensures
        r@ == JsonModel::Str(s@),
{
    JsonValue::Str(s.to_owned())
}

pub open spec fn exit_code_json(code: int) -> JsonModel {
    JsonModel::Object(seq![("exit_code"@, JsonModel::Number(signed_decimal(code)))])
}

/// `{"exit_code": <code>}`.
pub fn exit_code_annotation(code: i64) -> (r: JsonValue)
    ensures
        r@ == exit_code_json(code as int),
{
    let mut fields = new_fields();
    let v = json_i64(code);
    push_field(&mut fields, "exit_code", v);
    assert(json_fields_model(fields@) =~= seq![("exit_code"@, json_model(v))]);
    JsonValue::Object(fields)
}

fn text_with_prefix(prefix: &str, msg: &str) -> (r: ContentBlock)
    ensures
        r@ == text_model(prefix@ + msg@),
{
    let mut t: Vec<char> = Vec::new();
    push_str(&mut t, prefix);
    push_str(&mut t, msg);
    ContentBlock::text_of(&t)
}

pub open spec fn resource_text_model(uri: Seq<char>, mt: Seq<char>, text: Seq<char>) -> BlockModel {
    BlockModel::ResourceText { uri, media_type: mt, text, annotations: None }
}

// ── bash ────────────────────────────────────────────────────────────

/// One item of a running command's output.
#[derive(Clone, Debug)]
pub enum CommandOutput {
    Stdout(String),
    Stderr(String),
    Exited(i32),
    Cancelled,
    SpawnFailed(String),
}

/// What the bash tool does after an output item.
#[derive(Debug)]
pub enum BashStep {
    /// Wait for the next item.
    Continue,
    /// The command is over.
    Stop,
    /// The command could not start; the tool fails with this message.
    Failed(String),
}

/// The output of a command so far.
pub struct BashCollector {
    pub stdout: String,
    pub stderr: String,
    pub exit_code: Option<i32>,
    pub cancelled: bool,
}

pub struct BashModel {
    pub stdout: Seq<char>,
    pub stderr: Seq<char>,
    pub exit_code: Option<i32>,
    pub cancelled: bool,
}

impl View for BashCollector {
    type V = BashModel;

    open spec fn view(&self) -> BashModel {
        BashModel {
            stdout: self.stdout@,
            stderr: self.stderr@,
            exit_code: self.exit_code,
            cancelled: self.cancelled,
        }
    }
}

pub enum OutputModel {
    Stdout(Seq<char>),
    Stderr(Seq<char>),
    Exited(i32),
    Cancelled,
    SpawnFailed(Seq<char>),
}

pub open spec fn output_model(o: CommandOutput) -> OutputModel {
    match o {
        CommandOutput::Stdout(t) => OutputModel::Stdout(t@),
        CommandOutput::Stderr(t) => OutputModel::Stderr(t@),
        CommandOutput::Exited(c) => OutputModel::Exited(c),
        CommandOutput::Cancelled => OutputModel::Cancelled,
        CommandOutput::SpawnFailed(m) => OutputModel::SpawnFailed(m@),
    }
}

pub enum StepModel {
    Continue,
    Stop,
    Failed(Seq<char>),
}

/// One output item: a cancellation request stops the command (the item is dropped);
/// output text is kept and streamed as a delta; an exit records the code; a cancelled
/// command stops; a failed start fails the tool.
pub open spec fn bash_step(m: BashModel, o: OutputModel, cancel_requested: bool) -> (
    BashModel,
    StepModel,
    Option<Seq<char>>,
) {
    if cancel_requested {
        (BashModel { cancelled: true, ..m }, StepModel::Stop, None)
    } else {
        match o {
            OutputModel::Stdout(t) => (BashModel { stdout: m.stdout + t, ..m }, StepModel::Continue, Some(t)),
            OutputModel::Stderr(t) => (BashModel { stderr: m.stderr + t, ..m }, StepModel::Continue, Some(t)),
            OutputModel::Exited(c) => (BashModel { exit_code: Some(c), ..m }, StepModel::Stop, None),
            OutputModel::Cancelled => (BashModel { cancelled: true, ..m }, StepModel::Stop, None),
            OutputModel::SpawnFailed(msg) => (m, StepModel::Failed("命令启动失败: "@ + msg), None),
        }
    }
}

/// The exit code reported: the recorded one; or 0 when the output ended without an exit
/// and without cancellation.
pub open spec fn bash_exit_code(m: BashModel) -> Option<i32> {
    if m.exit_code is None && !m.cancelled {
        Some(0)
    } else {
        m.exit_code
    }
}

/// The blocks before annotation: stdout and stderr as text resources when not empty, then
/// a note when cancelled, or when there was no output at all.
pub open spec fn bash_plain_blocks(m: BashModel) -> Seq<BlockModel> {
    let outs = (if m.stdout.len() > 0 {
        seq![resource_text_model("/dev/stdout"@, "text/plain"@, m.stdout)]
    } else {
        Seq::empty()
    }) + (if m.stderr.len() > 0 {
        seq![resource_text_model("/dev/stderr"@, "text/plain"@, m.stderr)]
    } else {
        Seq::empty()
    });
    if m.cancelled {
        outs.push(text_model("命令执行已被取消"@))
    } else if outs.len() == 0 {
        outs.push(text_model("命令执行成功（无输出）"@))
    } else {
        outs
    }
}

/// The tool's blocks: the plain blocks, the last of them annotated with the exit code
/// when there is one.
pub open spec fn bash_blocks(m: BashModel) -> Seq<BlockModel> {
    let bs = bash_plain_blocks(m);
    match bash_exit_code(m) {
        Some(c) => if bs.len() > 0 {
            bs.update(bs.len() - 1, with_annotations_model(bs.last(), exit_code_json(c as int)))
        } else {
            bs
        },
        None => bs,
    }
}

impl BashCollector {
    /// No output yet.
    pub fn new() -> (r: BashCollector)
        ensures
            r@ == (BashModel { stdout: Seq::empty(), stderr: Seq::empty(), exit_code: None, cancelled: false }),
    {
        BashCollector { stdout: String::new(), stderr: String::new(), exit_code: None, cancelled: false }
    }

    /// Takes one output item (see `bash_step`); the delta event to stream carries the
    /// tool call's event id, call id and name.
    pub fn observe(
        &mut self,
        item: CommandOutput,
        cancel_requested: bool,
        event_id: &String,
        call_id: &String,
        name: &String,
    ) -> (r: (BashStep, Option<Event>))
        ensures
            ({
                let (m2, step, delta) = bash_step(old(self)@, output_model(item), cancel_requested);
                &&& final(self)@ == m2
                &&& match (r.0, step) {
                    (BashStep::Continue, StepModel::Continue) => true,
                    (BashStep::Stop, StepModel::Stop) => true,
                    (BashStep::Failed(e), StepModel::Failed(f)) => e@ == f,
                    _ => false,
                }
                &&& match (r.1, delta) {
                    (Some(ev), Some(t)) => ev@ == (EventModel::FunctionOutputDelta {
                        id: event_id@,
                        call_id: call_id@,
                        name: name@,
                        text: t,
                    }),
                    (None, None) => true,
                    _ => false,
                }
            }),
    {
        if cancel_requested {
            self.cancelled = true;
            return (BashStep::Stop, None);
        }
        match item {
            CommandOutput::Stdout(t) => {
                self.stdout.append(t.as_str());
                let ev = Event::FunctionOutputDelta {
                    id: event_id.clone(),
                    call_id: call_id.clone(),
                    name: name.clone(),
                    text: t,
                };
                (BashStep::Continue, Some(ev))
            },
            CommandOutput::Stderr(t) => {
                self.stderr.append(t.as_str());
                let ev = Event::FunctionOutputDelta {
                    id: event_id.clone(),
                    call_id: call_id.clone(),
                    name: name.clone(),
                    text: t,
                };
                (BashStep::Continue, Some(ev))
            },
            CommandOutput::Exited(c) => {
                self.exit_code = Some(c);
                (BashStep::Stop, None)
            },
            CommandOutput::Cancelled => {
                self.cancelled = true;
                (BashStep::Stop, None)
            },
            CommandOutput::SpawnFailed(m) => {
                let mut t: Vec<char> = Vec::new();
                push_str(&mut t, "命令启动失败: ");
                push_str(&mut t, m.as_str());
                (BashStep::Failed(string_of(&t)), None)
            },
        }
    }

    /// The tool's blocks once the command is over (see `bash_blocks`).
    pub fn finish(self) -> (r: Vec<ContentBlock>)
        ensures
            blocks_model(r@) == bash_blocks(self@),
    {
        let ghost m = self@;
        let exit = if self.exit_code.is_none() && !self.cancelled {
            Some(0i32)
        } else {
            self.exit_code
        };
        let mut blocks: Vec<ContentBlock> = Vec::new();
        if !self.stdout.as_str().is_empty() {
            blocks.push(ContentBlock::resource(Resource::text("/dev/stdout", "text/plain", self.stdout.as_str())));
        }
        if !self.stderr.as_str().is_empty() {
            blocks.push(ContentBlock::resource(Resource::text("/dev/stderr", "text/plain", self.stderr.as_str())));
        }
        let ghost outs = (if m.stdout.len() > 0 {
            seq![resource_text_model("/dev/stdout"@, "text/plain"@, m.stdout)]
        } else {
            Seq::empty()
        }) + (if m.stderr.len() > 0 {
            seq![resource_text_model("/dev/stderr"@, "text/plain"@, m.stderr)]
        } else {
            Seq::empty()
        });
        assert(blocks_model(blocks@) =~= outs);
        if self.cancelled {
            blocks.push(ContentBlock::text("命令执行已被取消"));
        } else if blocks.len() == 0 {
            blocks.push(ContentBlock::text("命令执行成功（无输出）"));
        }
        assert(blocks_model(blocks@) =~= bash_plain_blocks(m));
        match exit {
            Some(code) => {
                if blocks.len() > 0 {
                    let ghost before = blocks@;
                    let last = blocks.pop().unwrap();
                    let annotated = last.with_annotations(exit_code_annotation(code as i64));
                    blocks.push(annotated);
                    assert(blocks_model(blocks@) =~= blocks_model(before).update(
                        before.len() - 1,
                        with_annotations_model(blocks_model(before).last(), exit_code_json(code as int)),
                    ));
                }
            },
            None => {},
        }
        blocks
    }
}

/// A command's output items read in order until one ends it (an exit, a cancel, a failed
/// start); items after that are not read. Gives the state then, the failure message if
/// the start failed, and the texts streamed as deltas.
pub open spec fn bash_run(m: BashModel, os: Seq<OutputModel>) -> (BashModel, Option<Seq<char>>, Seq<Seq<char>>)
    decreases os.len(),
{
    if os.len() == 0 {
        (m, None, Seq::empty())
    } else {
        let (m1, step, d) = bash_step(m, os[0], false);
        let ds: Seq<Seq<char>> = match d {
            Some(t) => seq![t],
            None => Seq::empty(),
        };
        match step {
            StepModel::Continue => {
                let (m2, f, ds2) = bash_run(m1, os.skip(1));
                (m2, f, ds + ds2)
            },
            StepModel::Stop => (m1, None, ds),
            StepModel::Failed(e) => (m1, Some(e), ds),
        }
    }
}

pub open spec fn outputs_model(os: Seq<CommandOutput>) -> Seq<OutputModel> {
    os.map_values(|o: CommandOutput| output_model(o))
}

/// The bash tool's result for a command whose output items are `outputs`: its blocks
/// (see `bash_blocks`) or the failure of its start, with the delta events streamed on the
/// way, each carrying the tool call's event id, call id and name.
pub open spec fn bash_result(os: Seq<OutputModel>) -> (Result<Seq<BlockModel>, Seq<char>>, Seq<Seq<char>>) {
    let (m, f, ds) = bash_run(
        BashModel { stdout: Seq::empty(), stderr: Seq::empty(), exit_code: None, cancelled: false },
        os,
    );
    (
        match f {
            Some(e) => Err(e),
            None => Ok(bash_blocks(m)),
        },
        ds,
    )
}

fn copy_output(o: &CommandOutput) -> (r: CommandOutput)
    ensures
        output_model(r) == output_model(*o),
{
    match o {
        CommandOutput::Stdout(t) => CommandOutput::Stdout(t.clone()),
        CommandOutput::Stderr(t) => CommandOutput::Stderr(t.clone()),
        CommandOutput::Exited(c) => CommandOutput::Exited(*c),
        CommandOutput::Cancelled => CommandOutput::Cancelled,
        CommandOutput::SpawnFailed(m) => CommandOutput::SpawnFailed(m.clone()),
    }
}

/// Reads a command's output items in order as the bash tool does (see `bash_result`).
pub fn run_bash_outputs(
    outputs: &Vec<CommandOutput>,
    event_id: &String,
    call_id: &String,
    name: &String,
) -> (r: (Result<Vec<ContentBlock>, String>, Vec<Event>))
    ensures
        ({
            let (res, ds) = bash_result(outputs_model(outputs@));
            &&& match (r.0, res) {
                (Ok(bs), Ok(want)) => blocks_model(bs@) == want,
                (Err(e), Err(want)) => e@ == want,
                _ => false,
            }
            &&& r.1@.len() == ds.len()
            &&& forall|k: int| 0 <= k < ds.len() ==> (#[trigger] r.1@[k])@ == (EventModel::FunctionOutputDelta {
                id: event_id@,
                call_id: call_id@,
                name: name@,
                text: ds[k],
            })
        }),
{
    let ghost os = outputs_model(outputs@);
    let ghost m0 = BashModel { stdout: Seq::empty(), stderr: Seq::empty(), exit_code: None, cancelled: false };
    let mut c = BashCollector::new();
    let mut deltas: Vec<Event> = Vec::new();
    let mut i: usize = 0;
    let mut failure: Option<String> = None;
    let ghost mut done_ds: Seq<Seq<char>> = Seq::empty();
    assert(os.skip(0) =~= os);
    while i < outputs.len()
        invariant_except_break
            i <= outputs.len(),
            os == outputs_model(outputs@),
            failure is None,
            ({
                let (mf, ff, dsf) = bash_run(m0, os);
                let (m2, f2, ds2) = bash_run(c@, os.skip(i as int));
                mf == m2 && ff == f2 && dsf == done_ds + ds2
            }),
        invariant
            deltas@.len() == done_ds.len(),
            forall|k: int| 0 <= k < done_ds.len() ==> (#[trigger] deltas@[k])@ == (EventModel::FunctionOutputDelta {
                id: event_id@,
                call_id: call_id@,
                name: name@,
                text: done_ds[k],
            }),
        ensures
            ({
                let (mf, ff, dsf) = bash_run(m0, os);
                &&& mf == c@
                &&& dsf == done_ds
                &&& match (failure, ff) {
                    (Some(e), Some(want)) => e@ == want,
                    (None, None) => true,
                    _ => false,
                }
            }),
        decreases outputs.len() - i,
    {
        let ghost m = c@;
        let ghost rest = os.skip(i as int);
        assert(rest[0] == output_model(outputs@[i as int]));
        assert(rest.skip(1) =~= os.skip(i + 1));
        let item = copy_output(&outputs[i]);
        let (step, delta) = c.observe(item, false, event_id, call_id, name);
        match delta {
            Some(ev) => {
                proof {
                    let (_, _, d) = bash_step(m, rest[0], false);
                    done_ds = done_ds.push(d.unwrap());
                }
                deltas.push(ev);
            },
            None => {},
        }
        i = i + 1;
        match step {
            BashStep::Continue => {},
            BashStep::Stop => {
                break;
            },
            BashStep::Failed(e) => {
                failure = Some(e);
                break;
            },
        }
    }
    proof {
        if i == outputs.len() && failure is None {
            assert(os.skip(i as int) =~= Seq::<OutputModel>::empty());
        }
    }
    match failure {
        Some(e) => (Err(e), deltas),
        None => (Ok(c.finish()), deltas),
    }
}

// ── spawn_agent ─────────────────────────────────────────────────────

/// The input of the `spawn_agent` tool.
#[derive(Clone, Debug)]
pub struct SpawnAgentInput {
    /// A short label shown while the sub-agent runs.
    pub label: String,
    /// The task message.
    pub message: String,
    /// The session of an earlier sub-agent to continue, if any.
    pub session_id: Option<String>,
}

/// The progress text streamed once a sub-agent is ready.
pub open spec fn spawn_ready_text(label: Seq<char>, session_id: Seq<char>) -> Seq<char> {
    "子代理「"@ + label + "」已就绪（session "@ + session_id + "），正在运行…"@
}

/// The delta event streamed once a sub-agent is ready; it carries the tool call's event
/// id, call id and name.
pub fn spawn_ready_delta(
    label: &str,
    session_id: &str,
    event_id: &String,
    call_id: &String,
    name: &String,
) -> (r: Event)
    ensures
        r@ == (EventModel::FunctionOutputDelta {
            id: event_id@,
            call_id: call_id@,
            name: name@,
            text: spawn_ready_text(label@, session_id@),
        }),
{
    let mut t: Vec<char> = Vec::new();
    push_str(&mut t, "子代理「");
    push_str(&mut t, label);
    push_str(&mut t, "」已就绪（session ");
    push_str(&mut t, session_id);
    push_str(&mut t, "），正在运行…");
    Event::FunctionOutputDelta {
        id: event_id.clone(),
        call_id: call_id.clone(),
        name: name.clone(),
        text: string_of(&t),
    }
}

/// The session info a spawn result carries (an object's keys come in sorted order).
pub open spec fn session_info_json(session_id: Seq<char>, start: nat, end: Option<nat>) -> JsonModel {
    JsonModel::Object(
        seq![
            ("message_end_index"@, match end {
                Some(e) => JsonModel::Number(decimal(e)),
                None => JsonModel::Null,
            }),
            ("message_start_index"@, JsonModel::Number(decimal(start))),
            ("session_id"@, JsonModel::Str(session_id)),
        ],
    )
}

/// The block a `spawn_agent` call gives back, whether the sub-agent succeeded or not: its
/// final text (exit code 0) or `子代理执行失败: <error>` (exit code 1), annotated with the
/// session info under `_meta.subagent_session_info` and the exit code.
pub open spec fn spawn_result_spec(
    session_id: Seq<char>,
    start: nat,
    result: Result<(Seq<char>, nat), Seq<char>>,
) -> BlockModel {
    let (text, code, end) = match result {
        Ok((t, e)) => (t, 0int, Some(e)),
        Err(e) => ("子代理执行失败: "@ + e, 1int, None),
    };
    BlockModel::Text {
        text,
        annotations: Some(
            JsonModel::Object(
                seq![
                    ("_meta.subagent_session_info"@, session_info_json(session_id, start, end)),
                    ("exit_code"@, JsonModel::Number(signed_decimal(code))),
                ],
            ),
        ),
    }
}

/// The block a `spawn_agent` call gives back (see `spawn_result_spec`).
pub fn spawn_result_block(
    session_id: &String,
    message_start_index: usize,
    result: &Result<crate::subagent::SubagentOutput, String>,
) -> (r: ContentBlock)
    ensures
        r@ == spawn_result_spec(
            session_id@,
            message_start_index as nat,
            match result {
                Ok(o) => Ok((o.text@, o.message_end_index as nat)),
                Err(e) => Err(e@),
            },
        ),
{
    let (text, code, end): (Vec<char>, i64, Option<usize>) = match result {
        Ok(o) => (chars_of(o.text.as_str()), 0i64, Some(o.message_end_index)),
        Err(e) => {
            let mut t: Vec<char> = Vec::new();
            push_str(&mut t, "子代理执行失败: ");
            push_str(&mut t, e.as_str());
            (t, 1i64, None)
        },
    };
    let mut info = new_fields();
    let end_json = match end {
        Some(e) => json_u64(e as u64),
        None => JsonValue::Null,
    };
    push_field(&mut info, "message_end_index", end_json);
    push_field(&mut info, "message_start_index", json_u64(message_start_index as u64));
    push_field(&mut info, "session_id", json_str(session_id.as_str()));
    assert(json_fields_model(info@) =~= seq![
        ("message_end_index"@, match end {
            Some(e) => JsonModel::Number(decimal(e as nat)),
            None => JsonModel::Null,
        }),
        ("message_start_index"@, JsonModel::Number(decimal(message_start_index as nat))),
        ("session_id"@, JsonModel::Str(session_id@)),
    ]);
    let info_v = JsonValue::Object(info);
    let mut ann = new_fields();
    push_field(&mut ann, "_meta.subagent_session_info", info_v);
    push_field(&mut ann, "exit_code", json_i64(code));
    assert(json_fields_model(ann@) =~= seq![
        ("_meta.subagent_session_info"@, json_model(info_v)),
        ("exit_code"@, JsonModel::Number(signed_decimal(code as int))),
    ]);
    let ghost expect = spawn_result_spec(
        session_id@,
        message_start_index as nat,
        match result {
            Ok(o) => Ok((o.text@, o.message_end_index as nat)),
            Err(e) => Err(e@),
        },
    );
    let r = ContentBlock::text_of(&text).with_annotations(JsonValue::Object(ann));
    proof {
        let end_spec: Option<nat> = match end {
            Some(e) => Some(e as nat),
            None => None,
        };
        assert(json_fields_model(info@) =~= session_info_json(session_id@, message_start_index as nat, end_spec)->Object_0);
        assert(json_model(info_v) == session_info_json(session_id@, message_start_index as nat, end_spec));
        match result {
            Ok(o) => {
                assert(end_spec == Some(o.message_end_index as nat));
                assert(code == 0);
            },
            Err(e) => {
                assert(end_spec == None::<nat>);
                assert(code == 1);
            },
        }
    }
    r
}

// ── file tools ──────────────────────────────────────────────────────

/// The `read` tool's block: the file's text as a text resource, or `读取失败: <error>`.
pub fn read_result_block(path: &str, result: Result<String, String>) -> (r: ContentBlock)
    ensures
        r@ == match result {
            Ok(c) => resource_text_model(path@, "text/plain"@, c@),
            Err(e) => text_model("读取失败: "@ + e@),
        },
{
    match result {
        Ok(content) => ContentBlock::resource(Resource::text(path, "text/plain", content.as_str())),
        Err(e) => text_with_prefix("读取失败: ", e.as_str()),
    }
}

/// The `webfetch` tool's block: the page as a text resource under its URL with the media
/// type the fetch reported, or `获取网页失败: <error>`.
pub fn webfetch_result_block(url: &str, result: Result<(String, String), String>) -> (r: ContentBlock)
    ensures
        r@ == match result {
            Ok((mt, c)) => resource_text_model(url@, mt@, c@),
            Err(e) => text_model("获取网页失败: "@ + e@),
        },
{
    match result {
        Ok((mt, content)) => ContentBlock::resource(Resource::text(url, mt.as_str(), content.as_str())),
        Err(e) => text_with_prefix("获取网页失败: ", e.as_str()),
    }
}

/// The `move` tool's block: `删除成功` when the file was deleted, else `移动成功`; or
/// `移动/删除文件失败: <error>`.
pub fn move_result_block(result: Result<Option<bool>, String>) -> (r: ContentBlock)
    ensures
        r@ == match result {
            Ok(deleted) => if deleted == Some(true) {
                text_model("删除成功"@)
            } else {
                text_model("移动成功"@)
            },
            Err(e) => text_model("移动/删除文件失败: "@ + e@),
        },
{
    match result {
        Ok(deleted) => {
            if deleted == Some(true) {
                ContentBlock::text("删除成功")
            } else {
                ContentBlock::text("移动成功")
            }
        },
        Err(e) => text_with_prefix("移动/删除文件失败: ", e.as_str()),
    }
}

/// The `find` tool's block: the paths one per line as text on `/dev/stdout`, or
/// `搜索文件失败: <error>`.
pub fn find_result_block(result: Result<Vec<String>, String>) -> (r: ContentBlock)
    ensures
        r@ == match result {
            Ok(paths) => resource_text_model("/dev/stdout"@, "text/plain"@, join_spec(strings_model(paths@), "\n"@)),
            Err(e) => text_model("搜索文件失败: "@ + e@),
        },
{
    match result {
        Ok(paths) => {
            let j = join_strings(&paths, "\n");
            let s = string_of(&j);
            ContentBlock::resource(Resource::text("/dev/stdout", "text/plain", s.as_str()))
        },
        Err(e) => text_with_prefix("搜索文件失败: ", e.as_str()),
    }
}

/// A file with its matching contents, as the `grep` tool reports it.
#[derive(Clone, Debug)]
pub struct GrepMatch {
    pub path: String,
    pub contents: Vec<String>,
}

/// `<path>:\n<content>\n` for each matching content of each file, in order.
pub open spec fn grep_lines(ms: Seq<GrepMatch>) -> Seq<Seq<char>>
    decreases ms.len(),
{
    if ms.len() == 0 {
        Seq::empty()
    } else {
        grep_lines(ms.drop_last()) + strings_model(ms.last().contents@).map_values(
            |c: Seq<char>| ms.last().path@ + ":\n"@ + c + "\n"@,
        )
    }
}

/// The `grep` tool's block: the match lines joined by newlines as text on `/dev/stdout`;
/// `未找到匹配` when there are none; or `搜索失败: <error>`.
pub open spec fn grep_result_spec(result: Result<Seq<GrepMatch>, Seq<char>>) -> BlockModel {
    match result {
        Ok(ms) => {
            let lines = grep_lines(ms);
            if lines.len() == 0 {
                text_model("未找到匹配"@)
            } else {
                resource_text_model("/dev/stdout"@, "text/plain"@, join_spec(lines, "\n"@))
            }
        },
        Err(e) => text_model("搜索失败: "@ + e),
    }
}

/// The `grep` tool's block (see `grep_result_spec`).
pub fn grep_result_block(result: Result<Vec<GrepMatch>, String>) -> (r: ContentBlock)
    ensures
        r@ == grep_result_spec(
            match result {
                Ok(ms) => Ok(ms@),
                Err(e) => Err(e@),
            },
        ),
{
    match result {
        Ok(ms) => {
            let mut lines: Vec<String> = Vec::new();
            let mut i: usize = 0;
            while i < ms.len()
                invariant
                    i <= ms.len(),
                    strings_model(lines@) == grep_lines(ms@.take(i as int)),
                decreases ms.len() - i,
            {
                let m = &ms[i];
                let ghost base = strings_model(lines@);
                let mut j: usize = 0;
                while j < m.contents.len()
                    invariant
                        j <= m.contents.len(),
                        strings_model(lines@) == base + strings_model(m.contents@.take(j as int)).map_values(
                            |c: Seq<char>| m.path@ + ":\n"@ + c + "\n"@,
                        ),
                    decreases m.contents.len() - j,
                {
                    let mut t: Vec<char> = Vec::new();
                    push_str(&mut t, m.path.as_str());
                    push_str(&mut t, ":\n");
                    push_str(&mut t, m.contents[j].as_str());
                    push_str(&mut t, "\n");
                    let ghost before = lines@;
                    lines.push(string_of(&t));
                    j = j + 1;
                    proof {
                        let f = |c: Seq<char>| m.path@ + ":\n"@ + c + "\n"@;
                        assert(strings_model(m.contents@.take(j as int)) =~= strings_model(m.contents@.take(j - 1)).push(m.contents@[j - 1]@));
                        assert(strings_model(m.contents@.take(j as int)).map_values(f) =~= strings_model(m.contents@.take(j - 1)).map_values(f).push(f(m.contents@[j - 1]@)));
                        assert(strings_model(lines@) =~= strings_model(before).push(t@));
                    }
                }
                i = i + 1;
                proof {
                    let t = ms@.take(i as int);
                    assert(t.drop_last() =~= ms@.take(i - 1));
                    assert(m.contents@.take(m.contents.len() as int) =~= m.contents@);
                }
            }
            assert(ms@.take(ms.len() as int) =~= ms@);
            if lines.len() == 0 {
                ContentBlock::text("未找到匹配")
            } else {
                let j = join_strings(&lines, "\n");
                let s = string_of(&j);
                ContentBlock::resource(Resource::text("/dev/stdout", "text/plain", s.as_str()))
            }
        },
        Err(e) => text_with_prefix("搜索失败: ", e.as_str()),
    }
}

/// One replacement an edit made.
#[derive(Clone, Debug)]
pub struct EditDiff {
    pub old_text: String,
    pub new_text: String,
}

pub open spec fn diffs_json(ds: Seq<EditDiff>) -> Seq<JsonModel> {
    ds.map_values(
        |d: EditDiff|
            JsonModel::Object(
                seq![("new_text"@, JsonModel::Str(d.new_text@)), ("old_text"@, JsonModel::Str(d.old_text@))],
            ),
    )
}

/// The `edit` tool's block: `编辑成功，替换了 <n> 处` with the replacements and the path as
/// annotations; or `编辑失败: <error>`.
pub open spec fn edit_result_spec(result: Result<(Seq<char>, Seq<EditDiff>), Seq<char>>) -> BlockModel {
    match result {
        Ok((path, ds)) => BlockModel::Text {
            text: "编辑成功，替换了 "@ + decimal(ds.len()) + " 处"@,
            annotations: Some(
                JsonModel::Object(seq![("diffs"@, JsonModel::Array(diffs_json(ds))), ("path"@, JsonModel::Str(path))]),
            ),
        },
        Err(e) => text_model("编辑失败: "@ + e),
    }
}

/// The `edit` tool's block (see `edit_result_spec`).
pub fn edit_result_block(result: Result<(String, Vec<EditDiff>), String>) -> (r: ContentBlock)
    ensures
        r@ == edit_result_spec(
            match result {
                Ok((p, ds)) => Ok((p@, ds@)),
                Err(e) => Err(e@),
            },
        ),
{
    match result {
        Ok((path, ds)) => {
            let mut items: Vec<JsonValue> = Vec::new();
            let mut i: usize = 0;
            while i < ds.len()
                invariant
                    i <= ds.len(),
                    crate::json::json_items_model(items@) == diffs_json(ds@.take(i as int)),
                decreases ds.len() - i,
            {
                let mut f = new_fields();
                push_field(&mut f, "new_text", json_str(ds[i].new_text.as_str()));
                push_field(&mut f, "old_text", json_str(ds[i].old_text.as_str()));
                let v = JsonValue::Object(f);
                let ghost before = items@;
                items.push(v);
                i = i + 1;
                proof {
                    assert(items@.drop_last() =~= before);
                    assert(ds@.take(i as int) =~= ds@.take(i - 1).push(ds@[i - 1]));
                    assert(json_fields_model(f@) =~= seq![
                        ("new_text"@, JsonModel::Str(ds@[i - 1].new_text@)),
                        ("old_text"@, JsonModel::Str(ds@[i - 1].old_text@)),
                    ]);
                    assert(diffs_json(ds@.take(i as int)) =~= diffs_json(ds@.take(i - 1)).push(json_model(v)));
                }
            }
            assert(ds@.take(ds.len() as int) =~= ds@);
            let mut t: Vec<char> = Vec::new();
            push_str(&mut t, "编辑成功，替换了 ");
            let n = decimal_u64(ds.len() as u64);
            push_all(&mut t, &n);
            push_str(&mut t, " 处");
            let mut ann = new_fields();
            push_field(&mut ann, "diffs", JsonValue::Array(items));
            push_field(&mut ann, "path", JsonValue::Str(path));
            assert(json_fields_model(ann@) =~= seq![
                ("diffs"@, JsonModel::Array(diffs_json(ds@))),
                ("path"@, JsonModel::Str(path@)),
            ]);
            ContentBlock::text_of(&t).with_annotations(JsonValue::Object(ann))
        },
        Err(e) => text_with_prefix("编辑失败: ", e.as_str()),
    }
}

/// The `write` tool's block: `写入成功` annotated with the new text, the old text when the
/// file existed, and the path (keys in sorted order); or `写入文件失败: <error>`.
pub open spec fn write_result_spec(result: Result<(Seq<char>, Option<Seq<char>>, Seq<char>), Seq<char>>) -> BlockModel {
    match result {
        Ok((path, old, new)) => BlockModel::Text {
            text: "写入成功"@,
            annotations: Some(
                JsonModel::Object(
                    seq![("new_text"@, JsonModel::Str(new))] + match old {
                        Some(o) => seq![("old_text"@, JsonModel::Str(o))],
                        None => Seq::empty(),
                    } + seq![("path"@, JsonModel::Str(path))],
                ),
            ),
        },
        Err(e) => text_model("写入文件失败: "@ + e),
    }
}

/// The `write` tool's block (see `write_result_spec`).
pub fn write_result_block(result: Result<(String, Option<String>, String), String>) -> (r: ContentBlock)
    ensures
        r@ == write_result_spec(
            match result {
                Ok((p, o, n)) => Ok((p@, match o {
                    Some(x) => Some(x@),
                    None => None,
                }, n@)),
                Err(e) => Err(e@),
            },
        ),
{
    match result {
        Ok((path, old, new)) => {
            let mut ann = new_fields();
            push_field(&mut ann, "new_text", JsonValue::Str(new));
            match old {
                Some(o) => push_field(&mut ann, "old_text", JsonValue::Str(o)),
                None => {},
            }
            push_field(&mut ann, "path", JsonValue::Str(path));
            proof {
                let fm = json_fields_model(ann@);
                assert(fm =~= (seq![("new_text"@, JsonModel::Str(new@))] + match old {
                        Some(o) => seq![("old_text"@, JsonModel::Str(o@))],
                        None => Seq::<(Seq<char>, JsonModel)>::empty(),
                    } + seq![("path"@, JsonModel::Str(path@))]));
            }
            ContentBlock::text("写入成功").with_annotations(JsonValue::Object(ann))
        },
        Err(e) => text_with_prefix("写入文件失败: ", e.as_str()),
    }
}

// ── the spawn_agent tool's course ───────────────────────────────────

/// What happened in the step the caller performed for the `spawn_agent` tool.
#[derive(Debug)]
pub enum SpawnEvent {
    /// Creating or resuming the sub-agent's session: its id and the number of visible
    /// entries it held, or the error.
    Spawned(Result<(String, usize), String>),
    /// The sub-agent's run with the message ended with this result.
    RunFinished(Result<crate::subagent::SubagentOutput, String>),
}

/// What the caller does next.
#[derive(Debug)]
pub enum SpawnAction {
    /// Send this delta event, then run the sub-agent with the message (answered by
    /// `RunFinished`).
    AnnounceAndRun(Event),
    /// The tool fails with this error (the session could not be had).
    Fail(String),
    /// The tool's blocks: the result, with the session info and exit code.
    Reply(Vec<ContentBlock>),
    /// Nothing more.
    Finish,
}

pub enum SpawnActionModel {
    AnnounceAndRun(EventModel),
    Fail(Seq<char>),
    Reply(Seq<BlockModel>),
    Finish,
}

impl View for SpawnAction {
    type V = SpawnActionModel;

    open spec fn view(&self) -> SpawnActionModel {
        match *self {
            SpawnAction::AnnounceAndRun(e) => SpawnActionModel::AnnounceAndRun(e@),
            SpawnAction::Fail(e) => SpawnActionModel::Fail(e@),
            SpawnAction::Reply(bs) => SpawnActionModel::Reply(blocks_model(bs@)),
            SpawnAction::Finish => SpawnActionModel::Finish,
        }
    }
}

/// The course of one `spawn_agent` call: its label, its tool call's ids, and, once the
/// session is had, the session id and the entries it held at the start.
pub struct SpawnFlow {
    pub label: String,
    pub event_id: String,
    pub call_id: String,
    pub name: String,
    pub session: Option<(String, usize)>,
    pub done: bool,
}

/// One step: a session had is announced by a delta and the sub-agent runs; a session not
/// had fails the tool; the run's end replies with one block holding its text (or error)
/// and the session info; anything else, or anything after that, ends it.
pub open spec fn spawn_step_spec(
    label: Seq<char>,
    ids: (Seq<char>, Seq<char>, Seq<char>),
    session: Option<(Seq<char>, nat)>,
    done: bool,
    e: SpawnEvent,
) -> SpawnActionModel {
    if done {
        SpawnActionModel::Finish
    } else {
        match (session, e) {
            (None, SpawnEvent::Spawned(Ok((sid, _)))) => SpawnActionModel::AnnounceAndRun(
                EventModel::FunctionOutputDelta {
                    id: ids.0,
                    call_id: ids.1,
                    name: ids.2,
                    text: spawn_ready_text(label, sid@),
                },
            ),
            (None, SpawnEvent::Spawned(Err(err))) => SpawnActionModel::Fail(err@),
            (Some((sid, start)), SpawnEvent::RunFinished(r)) => SpawnActionModel::Reply(
                seq![
                    spawn_result_spec(
                        sid,
                        start,
                        match r {
                            Ok(o) => Ok((o.text@, o.message_end_index as nat)),
                            Err(err) => Err(err@),
                        },
                    ),
                ],
            ),
            _ => SpawnActionModel::Finish,
        }
    }
}

pub open spec fn spawn_session_model(s: Option<(String, usize)>) -> Option<(Seq<char>, nat)> {
    match s {
        Some((sid, start)) => Some((sid@, start as nat)),
        None => None,
    }
}

impl SpawnFlow {
    /// A call of the tool with this label, under these ids; no session yet.
    pub fn new(label: String, event_id: String, call_id: String, name: String) -> (r: SpawnFlow)
        ensures
            r.label@ == label@ && r.event_id@ == event_id@ && r.call_id@ == call_id@ && r.name@ == name@,
            r.session is None,
            !r.done,
    {
        SpawnFlow { label, event_id, call_id, name, session: None, done: false }
    }

    /// Takes what happened (see `spawn_step_spec`); a session had is kept, and the call is
    /// over after a failure, a reply or anything unexpected.
    pub fn step(&mut self, e: SpawnEvent) -> (r: SpawnAction)
        ensures
            r@ == spawn_step_spec(
                old(self).label@,
                (old(self).event_id@, old(self).call_id@, old(self).name@),
                spawn_session_model(old(self).session),
                old(self).done,
                e,
            ),
            final(self).label == old(self).label,
            final(self).event_id == old(self).event_id,
            final(self).call_id == old(self).call_id,
            final(self).name == old(self).name,
            final(self).done == !(r is AnnounceAndRun),
            r is AnnounceAndRun ==> final(self).session == (match e {
                SpawnEvent::Spawned(Ok(x)) => Some(x),
                _ => None,
            }),
    {
        if self.done {
            return SpawnAction::Finish;
        }
        match (&self.session, e) {
            (None, SpawnEvent::Spawned(Ok((sid, start)))) => {
                let delta = spawn_ready_delta(
                    self.label.as_str(),
                    sid.as_str(),
                    &self.event_id,
                    &self.call_id,
                    &self.name,
                );
                self.session = Some((sid, start));
                SpawnAction::AnnounceAndRun(delta)
            },
            (None, SpawnEvent::Spawned(Err(err))) => {
                self.done = true;
                SpawnAction::Fail(err)
            },
            (Some((sid, start)), SpawnEvent::RunFinished(r)) => {
                let b = spawn_result_block(sid, *start, &r);
                let mut v: Vec<ContentBlock> = Vec::new();
                v.push(b);
                assert(blocks_model(v@) =~= seq![b@]);
                self.done = true;
                SpawnAction::Reply(v)
            },
            _ => {
                self.done = true;
                SpawnAction::Finish
            },
        }
    }
}

} // verus!
