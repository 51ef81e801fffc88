//! Session events → chat messages for the completion API.
//!
//! Image blocks of user messages are sent as file references when an upload for them
//! succeeded (the uploads themselves are done by the caller and handed in); every other
//! block is sent as the text that `format_content_block` gives.
use vstd::prelude::*;
use crate::content::{
    BlockModel, ContentBlock, Resource, blocks_model, format_block_spec, format_content_block,
};
use crate::event::{Event, EventModel, event_model, events_model};
use crate::json::{JsonModel, JsonValue, json_model, json_quote, push_json_string};
use crate::path::{extension, file_name, path_extension, path_file_name};
use crate::text::{
    chars_eq, chars_of, eq_str, lowercase, push_all, push_str, replace_all, replace_chars,
    seq_starts_with, signed_decimal, starts_with_str, string_of, to_lowercase, decimal_i64,
};

verus! {

broadcast use vstd::string::group_string_axioms;

// ── chat messages ───────────────────────────────────────────────────

/// The outcome of a tool call as the model is told of it.
#[derive(Clone, Debug)]
pub struct ToolResultPart {
    pub call_id: String,
    pub name: String,
    /// The JSON text `{"exit_code":<code>,"result":<text>}` (no `exit_code` without a
    /// code), where the text is that of the result blocks.
    pub content: String,
}

/// A part of a user message.
#[derive(Clone, Debug)]
pub enum UserContent {
    Text(String),
    /// A reference to a file uploaded to the provider, by its file id.
    FileRef(String),
    ToolResult(ToolResultPart),
}

/// A part of an assistant message.
#[derive(Clone, Debug)]
pub enum AssistantContent {
    Text(String),
    Reasoning(String),
    ToolCall { call_id: String, name: String, args: JsonValue },
}

/// A message of the chat history sent to the model.
#[derive(Clone, Debug)]
pub enum ChatMessage {
    User { content: Vec<UserContent> },
    Assistant { content: Vec<AssistantContent> },
}

pub enum UserPartModel {
    Text(Seq<char>),
    FileRef(Seq<char>),
    ToolResult { call_id: Seq<char>, name: Seq<char>, content: Seq<char> },
}

pub enum AssistantPartModel {
    Text(Seq<char>),
    Reasoning(Seq<char>),
    ToolCall { call_id: Seq<char>, name: Seq<char>, args: JsonModel },
}

pub enum MessageModel {
    User(Seq<UserPartModel>),
    Assistant(Seq<AssistantPartModel>),
}

pub open spec fn user_part_model(u: UserContent) -> UserPartModel {
    match u {
        UserContent::Text(t) => UserPartModel::Text(t@),
        UserContent::FileRef(f) => UserPartModel::FileRef(f@),
        UserContent::ToolResult(r) => UserPartModel::ToolResult {
            call_id: r.call_id@,
            name: r.name@,
            content: r.content@,
        },
    }
}

pub open spec fn assistant_part_model(a: AssistantContent) -> AssistantPartModel {
    match a {
        AssistantContent::Text(t) => AssistantPartModel::Text(t@),
        AssistantContent::Reasoning(t) => AssistantPartModel::Reasoning(t@),
        AssistantContent::ToolCall { call_id, name, args } => AssistantPartModel::ToolCall {
            call_id: call_id@,
            name: name@,
            args: json_model(args),
        },
    }
}

pub open spec fn user_parts_model(s: Seq<UserContent>) -> Seq<UserPartModel> {
    s.map_values(|u: UserContent| user_part_model(u))
}

pub open spec fn assistant_parts_model(s: Seq<AssistantContent>) -> Seq<AssistantPartModel> {
    s.map_values(|a: AssistantContent| assistant_part_model(a))
}

pub open spec fn message_model(m: ChatMessage) -> MessageModel {
    match m {
        ChatMessage::User { content } => MessageModel::User(user_parts_model(content@)),
        ChatMessage::Assistant { content } => MessageModel::Assistant(
            assistant_parts_model(content@),
        ),
    }
}

pub open spec fn messages_model(s: Seq<ChatMessage>) -> Seq<MessageModel> {
    s.map_values(|m: ChatMessage| message_model(m))
}

// ── images ──────────────────────────────────────────────────────────

pub open spec fn is_image_media_type_spec(mt: Seq<char>) -> bool {
    seq_starts_with(mt, "image/"@)
}

/// The lowercase extension of a path is one of `jpg`, `jpeg`, `png`, `gif`, `webp`.
pub open spec fn is_image_uri_spec(uri: Seq<char>) -> bool {
    match path_extension(uri) {
        Some(e) => {
            let l = lowercase(e);
            l == "jpg"@ || l == "jpeg"@ || l == "png"@ || l == "gif"@ || l == "webp"@
        },
        None => {
            let l = lowercase(Seq::empty());
            l == "jpg"@ || l == "jpeg"@ || l == "png"@ || l == "gif"@ || l == "webp"@
        },
    }
}

/// A block that can be uploaded as an image: a blob with an `image/*` type, or a link
/// whose media type is `image/*` (or, without a media type, whose URI has an image
/// extension).
pub open spec fn is_image_block_spec(b: BlockModel) -> bool {
    match b {
        BlockModel::ResourceBlob { media_type, .. } => is_image_media_type_spec(media_type),
        BlockModel::ResourceLink { uri, media_type, .. } => match media_type {
            Some(mt) => is_image_media_type_spec(mt),
            None => is_image_uri_spec(uri),
        },
        _ => false,
    }
}

fn is_image_media_type(mt: &str) -> (r: bool)
    ensures
        r == is_image_media_type_spec(mt@),
{
    let m = chars_of(mt);
    starts_with_str(&m, "image/")
}

fn is_one_of_image_exts(l: &Vec<char>) -> (r: bool)
    ensures
        r == (l@ == "jpg"@ || l@ == "jpeg"@ || l@ == "png"@ || l@ == "gif"@ || l@ == "webp"@),
{
    eq_str(l, "jpg") || eq_str(l, "jpeg") || eq_str(l, "png") || eq_str(l, "gif") || eq_str(
        l,
        "webp",
    )
}

/// Whether the URI has an image file extension (case-insensitive).
pub fn is_image_uri(uri: &str) -> (r: bool)
    ensures
        r == is_image_uri_spec(uri@),
{
    let u = chars_of(uri);
    let e = match extension(&u) {
        Some(e) => e,
        None => Vec::new(),
    };
    let es = string_of(&e);
    let l = to_lowercase(es.as_str());
    let lc = chars_of(l.as_str());
    proof {
        match path_extension(uri@) {
            Some(x) => {},
            None => {
                assert(e@ =~= Seq::<char>::empty());
            },
        }
    }
    is_one_of_image_exts(&lc)
}

/// Whether a block is image content that can be uploaded.
pub fn is_image_block(block: &ContentBlock) -> (r: bool)
    ensures
        r == is_image_block_spec(block@),
{
    match block {
        ContentBlock::Resource(Resource::Blob { media_type, .. }) => is_image_media_type(
            media_type.as_str(),
        ),
        ContentBlock::Resource(Resource::Text { .. }) => false,
        ContentBlock::ResourceLink(link) => match &link.media_type {
            Some(mt) => is_image_media_type(mt.as_str()),
            None => is_image_uri(link.uri.as_str()),
        },
        ContentBlock::Text(_) => false,
    }
}

/// The image MIME type for a URI's extension (JPEG, PNG, GIF or WebP), else
/// `application/octet-stream`.
pub open spec fn media_type_from_uri_spec(uri: Seq<char>) -> Seq<char> {
    let l = lowercase(
        match path_extension(uri) {
            Some(e) => e,
            None => Seq::empty(),
        },
    );
    if l == "jpg"@ || l == "jpeg"@ {
        "image/jpeg"@
    } else if l == "png"@ {
        "image/png"@
    } else if l == "gif"@ {
        "image/gif"@
    } else if l == "webp"@ {
        "image/webp"@
    } else {
        "application/octet-stream"@
    }
}

/// The image MIME type for a URI's extension.
pub fn media_type_from_uri(uri: &str) -> (r: String)
    ensures
        r@ == media_type_from_uri_spec(uri@),
{
    let u = chars_of(uri);
    let e = match extension(&u) {
        Some(e) => e,
        None => Vec::new(),
    };
    let es = string_of(&e);
    let l = to_lowercase(es.as_str());
    let lc = chars_of(l.as_str());
    if eq_str(&lc, "jpg") || eq_str(&lc, "jpeg") {
        "image/jpeg".to_owned()
    } else if eq_str(&lc, "png") {
        "image/png".to_owned()
    } else if eq_str(&lc, "gif") {
        "image/gif".to_owned()
    } else if eq_str(&lc, "webp") {
        "image/webp".to_owned()
    } else {
        "application/octet-stream".to_owned()
    }
}

/// The upload file name for a URI: its file name, or `image.<ext>` when it has none,
/// where `<ext>` is the subtype of an `image/*` media type (`jpeg` written `jpg`) or `img`.
pub open spec fn file_name_from_spec(uri: Seq<char>, media_type: Seq<char>) -> Seq<char> {
    let name = match path_file_name(uri) {
        Some(n) => n,
        None => Seq::empty(),
    };
    if name.len() == 0 || name == "/"@ {
        let ext = if seq_starts_with(media_type, "image/"@) {
            replace_all(media_type.skip(6), "jpeg"@, "jpg"@)
        } else {
            "img"@
        };
        "image."@ + ext
    } else {
        name
    }
}

/// The upload file name for a URI.
pub fn file_name_from(uri: &str, media_type: &str) -> (r: String)
    ensures
        r@ == file_name_from_spec(uri@, media_type@),
{
    let u = chars_of(uri);
    let name = match file_name(&u) {
        Some(n) => n,
        None => Vec::new(),
    };
    if name.len() == 0 || eq_str(&name, "/") {
        let m = chars_of(media_type);
        let mut out: Vec<char> = Vec::new();
        push_str(&mut out, "image.");
        if starts_with_str(&m, "image/") {
            proof {
                reveal_strlit("image/");
            }
            let sub = crate::text::slice_chars(&m, 6, m.len());
            assert(sub@ =~= m@.skip(6));
            let pat = chars_of("jpeg");
            proof {
                reveal_strlit("jpeg");
            }
            let rep = chars_of("jpg");
            let ext = replace_chars(&sub, &pat, &rep);
            push_all(&mut out, &ext);
        } else {
            push_str(&mut out, "img");
        }
        string_of(&out)
    } else {
        string_of(&name)
    }
}

/// Where an image's bytes come from before it is uploaded.
#[derive(Debug)]
pub enum ImagePayload {
    /// The block carries them.
    Inline { name: String, media_type: String, data: Vec<u8> },
    /// They are read from the file a link names.
    Linked { uri: String, name: String, media_type: String },
}

pub enum ImagePayloadModel {
    Inline { name: Seq<char>, media_type: Seq<char>, data: Seq<u8> },
    Linked { uri: Seq<char>, name: Seq<char>, media_type: Seq<char> },
}

/// What an image upload needs of a block: a blob gives its bytes, named after its URI;
/// a link gives the file to read, its media type (from the URI where the link has none)
/// and a name; any other block gives nothing.
pub open spec fn image_payload_spec(b: BlockModel) -> Option<ImagePayloadModel> {
    match b {
        BlockModel::ResourceBlob { uri, media_type, blob, .. } => Some(
            ImagePayloadModel::Inline {
                name: file_name_from_spec(uri, media_type),
                media_type,
                data: blob,
            },
        ),
        BlockModel::ResourceLink { uri, media_type, .. } => {
            let mt = match media_type {
                Some(m) => m,
                None => media_type_from_uri_spec(uri),
            };
            Some(ImagePayloadModel::Linked { uri, name: file_name_from_spec(uri, mt), media_type: mt })
        },
        _ => None,
    }
}

/// What an image upload needs of a block (see `image_payload_spec`).
pub fn image_payload(block: &ContentBlock) -> (r: Option<ImagePayload>)
    ensures
        match (r, image_payload_spec(block@)) {
            (Some(ImagePayload::Inline { name, media_type, data }), Some(ImagePayloadModel::Inline {
                name: n,
                media_type: m,
                data: d,
            })) => name@ == n && media_type@ == m && data@ == d,
            (Some(ImagePayload::Linked { uri, name, media_type }), Some(ImagePayloadModel::Linked {
                uri: u,
                name: n,
                media_type: m,
            })) => uri@ == u && name@ == n && media_type@ == m,
            (None, None) => true,
            _ => false,
        },
{
    match block {
        ContentBlock::Resource(Resource::Blob { uri, media_type, blob, .. }) => {
            let mut data: Vec<u8> = Vec::new();
            let mut i: usize = 0;
            while i < blob.len()
                invariant
                    i <= blob.len(),
                    data@ == blob@.take(i as int),
                decreases blob.len() - i,
            {
                data.push(blob[i]);
                i = i + 1;
                assert(data@ =~= blob@.take(i as int));
            }
            assert(blob@.take(blob.len() as int) =~= blob@);
            Some(ImagePayload::Inline {
                name: file_name_from(uri.as_str(), media_type.as_str()),
                media_type: media_type.clone(),
                data,
            })
        },
        ContentBlock::ResourceLink(link) => {
            let mt = match &link.media_type {
                Some(m) => m.clone(),
                None => media_type_from_uri(link.uri.as_str()),
            };
            let name = file_name_from(link.uri.as_str(), mt.as_str());
            Some(ImagePayload::Linked { uri: link.uri.clone(), name, media_type: mt })
        },
        _ => None,
    }
}

// ── event → chat message ────────────────────────────────────────────

/// The concatenated text of the plain text blocks.
pub open spec fn text_blocks_concat(bs: Seq<BlockModel>) -> Seq<char>
    decreases bs.len(),
{
    if bs.len() == 0 {
        Seq::empty()
    } else {
        text_blocks_concat(bs.drop_last()) + match bs.last() {
            BlockModel::Text { text, .. } => text,
            _ => Seq::empty(),
        }
    }
}

/// The concatenated formatted text of all blocks except binary blobs.
pub open spec fn result_text(bs: Seq<BlockModel>) -> Seq<char>
    decreases bs.len(),
{
    if bs.len() == 0 {
        Seq::empty()
    } else {
        result_text(bs.drop_last()) + match bs.last() {
            BlockModel::ResourceBlob { .. } => Seq::empty(),
            other => format_block_spec(other),
        }
    }
}

/// The call id handed to the model: the event's own, or the freshly minted one when the
/// event's is empty.
pub open spec fn minted_id(id: Seq<char>, fresh: Seq<char>) -> Seq<char> {
    if id.len() == 0 {
        fresh
    } else {
        id
    }
}

/// The assistant part an event contributes: a model message's text (when not empty), a
/// thought, or a tool call (under a minted id when its call id is empty).
pub open spec fn assistant_part_spec(e: EventModel, fresh: Seq<char>) -> Option<AssistantPartModel> {
    match e {
        EventModel::ModelMessage { content, .. } => {
            let t = text_blocks_concat(content);
            if t.len() == 0 {
                None
            } else {
                Some(AssistantPartModel::Text(t))
            }
        },
        EventModel::ModelThought { text, .. } => Some(AssistantPartModel::Reasoning(text)),
        EventModel::FunctionCall { call_id, name, args, .. } => Some(
            AssistantPartModel::ToolCall { call_id: minted_id(call_id, fresh), name, args },
        ),
        _ => None,
    }
}

/// The JSON text a tool result is sent as: `{"exit_code":<code>,"result":<text>}`, the
/// keys in serde_json's order, and no `exit_code` when there is no code.
pub open spec fn tool_result_json(result: Seq<char>, code: Option<i32>) -> Seq<char> {
    "{"@ + match code {
        Some(c) => "\"exit_code\":"@ + signed_decimal(c as int) + ","@,
        None => Seq::empty(),
    } + "\"result\":"@ + json_quote(result) + "}"@
}

/// The tool-result message of a function result (under a minted id when its call id is
/// empty).
pub open spec fn tool_result_spec(e: EventModel, fresh: Seq<char>) -> Option<MessageModel> {
    match e {
        EventModel::FunctionResult { call_id, name, content, code, .. } => Some(
            MessageModel::User(
                seq![
                    UserPartModel::ToolResult {
                        call_id: minted_id(call_id, fresh),
                        name,
                        content: tool_result_json(
                            match content {
                                Some(bs) => result_text(bs),
                                None => Seq::empty(),
                            },
                            code,
                        ),
                    },
                ],
            ),
        ),
        _ => None,
    }
}

/// A user block: a file reference when it is an image whose upload gave a file id,
/// else its formatted text.
pub open spec fn user_part_spec(b: BlockModel, upload: Option<Seq<char>>) -> UserPartModel {
    match upload {
        Some(id) => if is_image_block_spec(b) {
            UserPartModel::FileRef(id)
        } else {
            UserPartModel::Text(format_block_spec(b))
        },
        None => UserPartModel::Text(format_block_spec(b)),
    }
}

pub open spec fn upload_at(uploads: Seq<Option<Seq<char>>>, i: int) -> Option<Seq<char>> {
    if 0 <= i < uploads.len() {
        uploads[i]
    } else {
        None
    }
}

pub open spec fn user_parts_spec(bs: Seq<BlockModel>, uploads: Seq<Option<Seq<char>>>) -> Seq<
    UserPartModel,
> {
    Seq::new(bs.len(), |i: int| user_part_spec(bs[i], upload_at(uploads, i)))
}

/// The user message of a user event; none when it has no blocks.
pub open spec fn user_message_spec(e: EventModel, uploads: Seq<Option<Seq<char>>>) -> Option<
    MessageModel,
> {
    match e {
        EventModel::UserMessage { content, .. } => if content.len() == 0 {
            None
        } else {
            Some(MessageModel::User(user_parts_spec(content, uploads)))
        },
        _ => None,
    }
}

pub open spec fn opt_uploads_model(u: Seq<Option<String>>) -> Seq<Option<Seq<char>>> {
    u.map_values(
        |o: Option<String>|
            match o {
                Some(s) => Some(s@),
                None => None,
            },
    )
}

fn clone_string(s: &String) -> (r: String)
    ensures
        r@ == s@,
{
    s.clone()
}

fn text_concat(bs: &Vec<ContentBlock>) -> (r: Vec<char>)
    ensures
        r@ == text_blocks_concat(blocks_model(bs@)),
{
    let mut out: Vec<char> = Vec::new();
    let mut i: usize = 0;
    while i < bs.len()
        invariant
            i <= bs.len(),
            out@ == text_blocks_concat(blocks_model(bs@.take(i as int))),
        decreases bs.len() - i,
    {
        let ghost before = out@;
        match &bs[i] {
            ContentBlock::Text(t) => push_str(&mut out, t.text.as_str()),
            _ => {},
        }
        i = i + 1;
        proof {
            let m = blocks_model(bs@.take(i as int));
            assert(m.drop_last() =~= blocks_model(bs@.take(i - 1)));
            assert(m.last() == bs@[i - 1]@);
            match bs@[i - 1] {
                ContentBlock::Text(_) => {},
                _ => {
                    assert(out@ =~= before + Seq::<char>::empty());
                },
            }
        }
    }
    assert(bs@.take(bs.len() as int) =~= bs@);
    out
}

fn result_text_of(bs: &Vec<ContentBlock>) -> (r: Vec<char>)
    ensures
        r@ == result_text(blocks_model(bs@)),
{
    let mut out: Vec<char> = Vec::new();
    let mut i: usize = 0;
    while i < bs.len()
        invariant
            i <= bs.len(),
            out@ == result_text(blocks_model(bs@.take(i as int))),
        decreases bs.len() - i,
    {
        let ghost before = out@;
        match &bs[i] {
            ContentBlock::Resource(Resource::Blob { .. }) => {},
            other => {
                let f = format_content_block(other);
                push_str(&mut out, f.as_str());
            },
        }
        i = i + 1;
        proof {
            let m = blocks_model(bs@.take(i as int));
            assert(m.drop_last() =~= blocks_model(bs@.take(i - 1)));
            assert(m.last() == bs@[i - 1]@);
            match bs@[i - 1] {
                ContentBlock::Resource(Resource::Blob { .. }) => {
                    assert(out@ =~= before + Seq::<char>::empty());
                },
                _ => {},
            }
        }
    }
    assert(bs@.take(bs.len() as int) =~= bs@);
    out
}

/// The id handed out for a call id: the call id itself, or `fresh` when it is empty.
fn mint_id(call_id: &String, fresh: &str) -> (r: String)
    ensures
        r@ == minted_id(call_id@, fresh@),
{
    if call_id.as_str().is_empty() {
        assert(call_id@ =~= Seq::<char>::empty());
        let v = crate::text::chars_of(fresh);
        string_of(&v)
    } else {
        clone_string(call_id)
    }
}

/// The assistant part of a model message (its text, when not empty), a thought or a
/// tool call; none for every other event. A call with an empty call id is handed out
/// under the freshly minted id `fresh`, so the id of a tool call is never empty.
pub fn event_to_assistant_content(event: &Event, fresh: &str) -> (r: Option<AssistantContent>)
    requires
        fresh@.len() > 0,
    ensures
        match r {
            Some(a) => assistant_part_spec(event@, fresh@) == Some(assistant_part_model(a)),
            None => assistant_part_spec(event@, fresh@) is None,
        },
        match r {
            Some(AssistantContent::ToolCall { call_id, .. }) => call_id@.len() > 0,
            _ => true,
        },
{
    match event {
        Event::ModelMessage { content, .. } => {
            let t = text_concat(content);
            if t.len() == 0 {
                None
            } else {
                Some(AssistantContent::Text(string_of(&t)))
            }
        },
        Event::ModelThought { text, .. } => Some(AssistantContent::Reasoning(clone_string(text))),
        Event::FunctionCall { call_id, name, args, .. } => Some(
            AssistantContent::ToolCall {
                call_id: mint_id(call_id, fresh),
                name: clone_string(name),
                args: args.deep_clone(),
            },
        ),
        _ => None,
    }
}

/// The JSON text of a tool result (see `tool_result_json`).
pub fn tool_result_text(result: &str, code: Option<i32>) -> (r: String)
    ensures
        r@ == tool_result_json(result@, code),
{
    let mut out: Vec<char> = Vec::new();
    push_str(&mut out, "{");
    match code {
        Some(c) => {
            push_str(&mut out, "\"exit_code\":");
            let d = decimal_i64(c as i64);
            push_all(&mut out, &d);
            push_str(&mut out, ",");
        },
        None => {},
    }
    push_str(&mut out, "\"result\":");
    push_json_string(&mut out, result);
    push_str(&mut out, "}");
    assert(out@ =~= tool_result_json(result@, code));
    string_of(&out)
}

/// The tool-result message of a function result: the JSON text of the formatted text of
/// its blocks (binary blobs left out) and its exit code; none for every other event. A
/// result with an empty call id is handed out under the freshly minted id `fresh`.
pub fn event_to_tool_result(event: &Event, fresh: &str) -> (r: Option<ChatMessage>)
    requires
        fresh@.len() > 0,
    ensures
        match r {
            Some(m) => tool_result_spec(event@, fresh@) == Some(message_model(m)),
            None => tool_result_spec(event@, fresh@) is None,
        },
        match r {
            Some(ChatMessage::User { content }) => content@.len() == 1 && (match content@[0] {
                UserContent::ToolResult(p) => p.call_id@.len() > 0,
                _ => false,
            }),
            _ => r is None,
        },
{
    match event {
        Event::FunctionResult { call_id, name, content, code, .. } => {
            let text = match content {
                Some(bs) => result_text_of(bs),
                None => Vec::new(),
            };
            let t = string_of(&text);
            let part = UserContent::ToolResult(
                ToolResultPart {
                    call_id: mint_id(call_id, fresh),
                    name: clone_string(name),
                    content: tool_result_text(t.as_str(), *code),
                },
            );
            let mut v: Vec<UserContent> = Vec::new();
            v.push(part);
            let m = ChatMessage::User { content: v };
            proof {
                assert(user_parts_model(v@) =~= seq![user_part_model(part)]);
            }
            Some(m)
        },
        _ => None,
    }
}

/// The user parts of some blocks: images with an upload become file references.
pub fn content_blocks_to_user_content(
    blocks: &Vec<ContentBlock>,
    uploads: &Vec<Option<String>>,
) -> (r: Vec<UserContent>)
    ensures
        r@.len() == blocks@.len(),
        user_parts_model(r@) == user_parts_spec(blocks_model(blocks@), opt_uploads_model(uploads@)),
{
    let mut out: Vec<UserContent> = Vec::new();
    let mut i: usize = 0;
    while i < blocks.len()
        invariant
            i <= blocks.len(),
            out@.len() == i,
            forall|k: int|
                0 <= k < i ==> user_part_model(#[trigger] out@[k]) == user_part_spec(
                    blocks@[k]@,
                    upload_at(opt_uploads_model(uploads@), k),
                ),
        decreases blocks.len() - i,
    {
        let block = &blocks[i];
        let up: Option<&String> = if i < uploads.len() {
            match &uploads[i] {
                Some(id) => Some(id),
                None => None,
            }
        } else {
            None
        };
        let part = match up {
            Some(id) => {
                if is_image_block(block) {
                    UserContent::FileRef(clone_string(id))
                } else {
                    UserContent::Text(format_content_block(block))
                }
            },
            None => UserContent::Text(format_content_block(block)),
        };
        out.push(part);
        i = i + 1;
    }
    proof {
        let a = user_parts_model(out@);
        let b = user_parts_spec(blocks_model(blocks@), opt_uploads_model(uploads@));
        assert forall|k: int| 0 <= k < a.len() implies a[k] == b[k] by {
            assert(blocks_model(blocks@)[k] == blocks@[k]@);
        }
        assert(a =~= b);
    }
    out
}

/// The user message of a user event (none when it has no blocks, or for any other event).
pub fn event_to_user_message(event: &Event, uploads: &Vec<Option<String>>) -> (r: Option<
    ChatMessage,
>)
    ensures
        match r {
            Some(m) => user_message_spec(event@, opt_uploads_model(uploads@)) == Some(
                message_model(m),
            ),
            None => user_message_spec(event@, opt_uploads_model(uploads@)) is None,
        },
{
    match event {
        Event::UserMessage { content, .. } => {
            let parts = content_blocks_to_user_content(content, uploads);
            if parts.len() == 0 {
                None
            } else {
                Some(ChatMessage::User { content: parts })
            }
        },
        _ => None,
    }
}

// ── history ─────────────────────────────────────────────────────────

/// The state of the history fold: the messages so far, the assistant parts not yet
/// flushed, and the call ids of the function calls seen.
pub struct HistoryState {
    pub out: Seq<MessageModel>,
    pub acc: Seq<AssistantPartModel>,
    pub calls: Set<Seq<char>>,
}

/// The pending assistant parts as one message, when there are any.
pub open spec fn flush_spec(acc: Seq<AssistantPartModel>) -> Seq<MessageModel> {
    if acc.len() == 0 {
        Seq::empty()
    } else {
        seq![MessageModel::Assistant(acc)]
    }
}

pub open spec fn opt_message_seq(m: Option<MessageModel>) -> Seq<MessageModel> {
    match m {
        Some(x) => seq![x],
        None => Seq::empty(),
    }
}

/// One event of the history fold:
/// - a user message flushes the pending assistant parts, then adds the user message;
/// - a function result whose call was seen flushes, then adds its tool result; a result
///   without a call before it is dropped;
/// - a function call records its id and adds a tool-call part;
/// - any other event adds its assistant part, if it has one.
pub open spec fn history_step(
    st: HistoryState,
    e: EventModel,
    uploads: Seq<Option<Seq<char>>>,
    fresh: Seq<char>,
) -> HistoryState {
    match e {
        EventModel::UserMessage { .. } => HistoryState {
            out: st.out + flush_spec(st.acc) + opt_message_seq(user_message_spec(e, uploads)),
            acc: Seq::empty(),
            calls: st.calls,
        },
        EventModel::FunctionResult { call_id, .. } => if st.calls.contains(call_id) {
            HistoryState {
                out: st.out + flush_spec(st.acc) + opt_message_seq(tool_result_spec(e, fresh)),
                acc: Seq::empty(),
                calls: st.calls,
            }
        } else {
            st
        },
        EventModel::FunctionCall { call_id, .. } => HistoryState {
            out: st.out,
            acc: match assistant_part_spec(e, fresh) {
                Some(p) => st.acc.push(p),
                None => st.acc,
            },
            calls: st.calls.insert(call_id),
        },
        _ => HistoryState {
            out: st.out,
            acc: match assistant_part_spec(e, fresh) {
                Some(p) => st.acc.push(p),
                None => st.acc,
            },
            calls: st.calls,
        },
    }
}

pub open spec fn uploads_at(uploads: Seq<Seq<Option<Seq<char>>>>, i: int) -> Seq<
    Option<Seq<char>>,
> {
    if 0 <= i < uploads.len() {
        uploads[i]
    } else {
        Seq::empty()
    }
}

/// The fresh id drawn for event `i`.
pub open spec fn fresh_at(fresh: Seq<Seq<char>>, i: int) -> Seq<char> {
    if 0 <= i < fresh.len() {
        fresh[i]
    } else {
        Seq::empty()
    }
}

/// The fold state after the first `n` events.
pub open spec fn history_after(
    es: Seq<EventModel>,
    uploads: Seq<Seq<Option<Seq<char>>>>,
    fresh: Seq<Seq<char>>,
    n: nat,
) -> HistoryState
    decreases n,
{
    if n == 0 || n > es.len() {
        HistoryState { out: Seq::empty(), acc: Seq::empty(), calls: Set::empty() }
    } else {
        history_step(
            history_after(es, uploads, fresh, (n - 1) as nat),
            es[n - 1],
            uploads_at(uploads, n - 1),
            fresh_at(fresh, n - 1),
        )
    }
}

/// The chat history of a sequence of events: the fold over all events, then a final
/// flush of the pending assistant parts. `fresh[i]` is the id minted for event `i`,
/// used when its call id is empty.
pub open spec fn chat_history_spec(
    es: Seq<EventModel>,
    uploads: Seq<Seq<Option<Seq<char>>>>,
    fresh: Seq<Seq<char>>,
) -> Seq<MessageModel> {
    let st = history_after(es, uploads, fresh, es.len());
    st.out + flush_spec(st.acc)
}

pub open spec fn strings_view(v: Seq<String>) -> Seq<Seq<char>> {
    v.map_values(|s: String| s@)
}

pub open spec fn nested_uploads_model(u: Seq<Vec<Option<String>>>) -> Seq<Seq<Option<Seq<char>>>> {
    u.map_values(|v: Vec<Option<String>>| opt_uploads_model(v@))
}

fn calls_contains(calls: &Vec<Vec<char>>, id: &Vec<char>) -> (r: bool)
    ensures
        r == exists|k: int| 0 <= k < calls@.len() && calls@[k]@ == id@,
{
    let mut i: usize = 0;
    while i < calls.len()
        invariant
            i <= calls.len(),
            forall|k: int| 0 <= k < i ==> calls@[k]@ != id@,
        decreases calls.len() - i,
    {
        if chars_eq(&calls[i], id) {
            return true;
        }
        i = i + 1;
    }
    false
}

pub open spec fn calls_set(calls: Seq<Vec<char>>) -> Set<Seq<char>> {
    Set::new(|k: Seq<char>| exists|i: int| 0 <= i < calls.len() && calls[i]@ == k)
}

fn flush(acc: &mut Vec<AssistantContent>, out: &mut Vec<ChatMessage>)
    ensures
        final(acc)@.len() == 0,
        messages_model(final(out)@) == messages_model(old(out)@) + flush_spec(
            assistant_parts_model(old(acc)@),
        ),
{
    if acc.len() > 0 {
        let mut content: Vec<AssistantContent> = Vec::new();
        std::mem::swap(&mut content, acc);
        let ghost before = out@;
        let m = ChatMessage::Assistant { content };
        out.push(m);
        assert(messages_model(out@) =~= messages_model(before) + seq![message_model(m)]);
    } else {
        assert(messages_model(out@) =~= messages_model(out@) + Seq::<MessageModel>::empty());
    }
}

fn push_opt_message(out: &mut Vec<ChatMessage>, m: Option<ChatMessage>)
    ensures
        messages_model(final(out)@) == messages_model(old(out)@) + opt_message_seq(
            match m {
                Some(x) => Some(message_model(x)),
                None => None,
            },
        ),
{
    let ghost before = out@;
    match m {
        Some(x) => {
            out.push(x);
            assert(messages_model(out@) =~= messages_model(before) + seq![message_model(x)]);
        },
        None => {
            assert(messages_model(out@) =~= messages_model(before) + Seq::<MessageModel>::empty());
        },
    }
}

/// The chat history of a session's events (see `history_step`). `uploads[i][j]` is the
/// file id that the upload of block `j` of event `i` gave, if any; `fresh_ids[i]` is the
/// id minted for event `i`, handed out when its call id is empty.
pub fn events_to_chat_history(
    events: &Vec<Event>,
    uploads: &Vec<Vec<Option<String>>>,
    fresh_ids: &Vec<String>,
) -> (r: Vec<ChatMessage>)
    requires
        fresh_ids@.len() >= events@.len(),
        forall|i: int| 0 <= i < events@.len() ==> (#[trigger] fresh_ids@[i])@.len() > 0,
    ensures
        messages_model(r@) == chat_history_spec(
            events_model(events@),
            nested_uploads_model(uploads@),
            strings_view(fresh_ids@),
        ),
{
    let ghost fr = strings_view(fresh_ids@);
    let ghost es = events_model(events@);
    let ghost ups = nested_uploads_model(uploads@);
    let mut out: Vec<ChatMessage> = Vec::new();
    let mut acc: Vec<AssistantContent> = Vec::new();
    let mut calls: Vec<Vec<char>> = Vec::new();
    let empty_uploads: Vec<Option<String>> = Vec::new();
    let mut i: usize = 0;
    proof {
        assert(messages_model(out@) =~= Seq::<MessageModel>::empty());
        assert(assistant_parts_model(acc@) =~= Seq::<AssistantPartModel>::empty());
        assert(calls_set(calls@) =~= Set::<Seq<char>>::empty());
    }
    while i < events.len()
        invariant
            i <= events.len(),
            es == events_model(events@),
            ups == nested_uploads_model(uploads@),
            fr == strings_view(fresh_ids@),
            fresh_ids@.len() >= events@.len(),
            forall|k: int| 0 <= k < events@.len() ==> (#[trigger] fresh_ids@[k])@.len() > 0,
            empty_uploads@.len() == 0,
            ({
                let st = history_after(es, ups, fr, i as nat);
                &&& st.out == messages_model(out@)
                &&& st.acc == assistant_parts_model(acc@)
                &&& st.calls == calls_set(calls@)
            }),
        decreases events.len() - i,
    {
        let ghost st = history_after(es, ups, fr, i as nat);
        let fresh = fresh_ids[i].as_str();
        assert(fresh@ == fresh_at(fr, i as int));
        let event = &events[i];
        let ev_uploads: &Vec<Option<String>> = if i < uploads.len() {
            &uploads[i]
        } else {
            &empty_uploads
        };
        assert(opt_uploads_model(ev_uploads@) == uploads_at(ups, i as int)) by {
            if i >= uploads.len() {
                assert(opt_uploads_model(ev_uploads@) =~= Seq::<Option<Seq<char>>>::empty());
            }
        }
        assert(es[i as int] == event@);
        match event {
            Event::UserMessage { .. } => {
                flush(&mut acc, &mut out);
                let m = event_to_user_message(event, ev_uploads);
                push_opt_message(&mut out, m);
                proof {
                    assert(assistant_parts_model(acc@) =~= Seq::<AssistantPartModel>::empty());
                }
            },
            Event::FunctionResult { call_id, .. } => {
                let cid = chars_of(call_id.as_str());
                if calls_contains(&calls, &cid) {
                    flush(&mut acc, &mut out);
                    let m = event_to_tool_result(event, fresh);
                    push_opt_message(&mut out, m);
                    proof {
                        assert(assistant_parts_model(acc@) =~= Seq::<AssistantPartModel>::empty());
                    }
                }
            },
            Event::FunctionCall { call_id, .. } => {
                let cid = chars_of(call_id.as_str());
                let ghost before = calls@;
                calls.push(cid);
                proof {
                    assert(calls_set(calls@) =~= calls_set(before).insert(call_id@)) by {
                        assert forall|k: Seq<char>| calls_set(calls@).contains(k) implies calls_set(
                            before,
                        ).insert(call_id@).contains(k) by {
                            let j = choose|j: int| 0 <= j < calls@.len() && calls@[j]@ == k;
                            if j < before.len() {
                                assert(before[j]@ == k);
                            }
                        }
                        assert forall|k: Seq<char>| calls_set(before).insert(call_id@).contains(
                            k,
                        ) implies calls_set(calls@).contains(k) by {
                            if k == call_id@ {
                                assert(calls@[before.len() as int]@ == k);
                            } else {
                                let j = choose|j: int| 0 <= j < before.len() && before[j]@ == k;
                                assert(calls@[j]@ == k);
                            }
                        }
                    }
                }
                match event_to_assistant_content(event, fresh) {
                    Some(p) => {
                        let ghost b = acc@;
                        acc.push(p);
                        assert(assistant_parts_model(acc@) =~= assistant_parts_model(b).push(
                            assistant_part_model(p),
                        ));
                    },
                    None => {},
                }
            },
            _ => {
                match event_to_assistant_content(event, fresh) {
                    Some(p) => {
                        let ghost b = acc@;
                        acc.push(p);
                        assert(assistant_parts_model(acc@) =~= assistant_parts_model(b).push(
                            assistant_part_model(p),
                        ));
                    },
                    None => {},
                }
            },
        }
        i = i + 1;
    }
    flush(&mut acc, &mut out);
    out
}

// ── laws of the history ─────────────────────────────────────────────

/// Event `i` (before `n`) is a function result answering the earlier function call `j`,
/// and `id` is the call id its tool result is handed out under.
pub open spec fn answers_call(es: Seq<EventModel>, fresh: Seq<Seq<char>>, n: int, i: int, j: int, id: Seq<char>) -> bool {
    &&& 0 <= j < i < n
    &&& i < es.len()
    &&& es[i] is FunctionResult
    &&& es[j] is FunctionCall
    &&& es[i]->FunctionResult_call_id == es[j]->FunctionCall_call_id
    &&& id == minted_id(es[i]->FunctionResult_call_id, fresh_at(fresh, i))
}

/// An assistant message has parts (other messages pass).
pub open spec fn assistant_nonempty(mm: MessageModel) -> bool {
    match mm {
        MessageModel::Assistant(ps) => ps.len() > 0,
        _ => true,
    }
}

/// The call id of part `p` of a message, when that part is a tool result.
pub open spec fn tool_result_at(mm: MessageModel, p: int) -> Option<Seq<char>> {
    match mm {
        MessageModel::User(ps) => if 0 <= p < ps.len() {
            match ps[p] {
                UserPartModel::ToolResult { call_id, .. } => Some(call_id),
                _ => None,
            }
        } else {
            None
        },
        _ => None,
    }
}

/// Every tool result among the messages answers an earlier function call, and every
/// assistant message has parts.
pub open spec fn history_well_paired(
    out: Seq<MessageModel>,
    es: Seq<EventModel>,
    fresh: Seq<Seq<char>>,
    n: int,
) -> bool {
    &&& forall|k: int| 0 <= k < out.len() ==> #[trigger] assistant_nonempty(out[k])
    &&& forall|k: int, p: int|
        0 <= k < out.len() && (#[trigger] tool_result_at(out[k], p)) is Some ==> exists|i: int, j: int|
            #[trigger] answers_call(es, fresh, n, i, j, tool_result_at(out[k], p)->0)
}

proof fn lemma_paired_concat(
    a: Seq<MessageModel>,
    b: Seq<MessageModel>,
    es: Seq<EventModel>,
    fresh: Seq<Seq<char>>,
    n: int,
)
    requires
        history_well_paired(a, es, fresh, n),
        history_well_paired(b, es, fresh, n),
    ensures
        history_well_paired(a + b, es, fresh, n),
{
    let o = a + b;
    assert forall|k: int| 0 <= k < o.len() implies #[trigger] assistant_nonempty(o[k]) by {
        if k < a.len() {
            assert(o[k] == a[k]);
        } else {
            assert(o[k] == b[k - a.len()]);
        }
    }
    assert forall|k: int, p: int|
        0 <= k < o.len() && (#[trigger] tool_result_at(o[k], p)) is Some implies exists|i: int, j: int|
            #[trigger] answers_call(es, fresh, n, i, j, tool_result_at(o[k], p)->0) by {
        if k < a.len() {
            assert(o[k] == a[k]);
            assert(tool_result_at(a[k], p) is Some);
        } else {
            assert(o[k] == b[k - a.len()]);
            assert(tool_result_at(b[k - a.len()], p) is Some);
        }
    }
}

proof fn lemma_paired_grow(out: Seq<MessageModel>, es: Seq<EventModel>, fresh: Seq<Seq<char>>, m: int, n: int)
    requires
        history_well_paired(out, es, fresh, m),
        m <= n,
    ensures
        history_well_paired(out, es, fresh, n),
{
    assert forall|k: int, p: int|
        0 <= k < out.len() && (#[trigger] tool_result_at(out[k], p)) is Some implies exists|i: int, j: int|
            #[trigger] answers_call(es, fresh, n, i, j, tool_result_at(out[k], p)->0) by {
        let id = tool_result_at(out[k], p)->0;
        let (i, j) = choose|i: int, j: int| #[trigger] answers_call(es, fresh, m, i, j, id);
        assert(answers_call(es, fresh, n, i, j, id));
    }
}

proof fn lemma_history_pairs(
    es: Seq<EventModel>,
    uploads: Seq<Seq<Option<Seq<char>>>>,
    fresh: Seq<Seq<char>>,
    n: nat,
)
    requires
        n <= es.len(),
    ensures
        history_well_paired(history_after(es, uploads, fresh, n).out, es, fresh, n as int),
        forall|x: Seq<char>|
            #[trigger] history_after(es, uploads, fresh, n).calls.contains(x) ==> exists|j: int|
                0 <= j < n && #[trigger] es[j] is FunctionCall && es[j]->FunctionCall_call_id == x,
    decreases n,
{
    if n == 0 {
        let st = history_after(es, uploads, fresh, n);
        assert(st.out.len() == 0);
    } else {
        let m = (n - 1) as nat;
        lemma_history_pairs(es, uploads, fresh, m);
        let st = history_after(es, uploads, fresh, m);
        let st2 = history_after(es, uploads, fresh, n);
        let e = es[m as int];
        let ups = uploads_at(uploads, m as int);
        let f = fresh_at(fresh, m as int);
        assert(st2 == history_step(st, e, ups, f));
        lemma_paired_grow(st.out, es, fresh, m as int, n as int);
        let fl = flush_spec(st.acc);
        assert(history_well_paired(fl, es, fresh, n as int)) by {
            assert forall|k: int, p: int|
                0 <= k < fl.len() && (#[trigger] tool_result_at(fl[k], p)) is Some implies false by {}
        }
        match e {
            EventModel::UserMessage { content, .. } => {
                let um = opt_message_seq(user_message_spec(e, ups));
                assert(history_well_paired(um, es, fresh, n as int)) by {
                    assert forall|k: int, p: int|
                        0 <= k < um.len() && (#[trigger] tool_result_at(um[k], p)) is Some implies false by {
                        let ps = user_parts_spec(content, ups);
                        assert(ps[p] == user_part_spec(content[p], upload_at(ups, p)));
                    }
                }
                lemma_paired_concat(st.out, fl, es, fresh, n as int);
                lemma_paired_concat(st.out + fl, um, es, fresh, n as int);
            },
            EventModel::FunctionResult { call_id, .. } => {
                if st.calls.contains(call_id) {
                    let tm = opt_message_seq(tool_result_spec(e, f));
                    let j = choose|j: int| 0 <= j < m && #[trigger] es[j] is FunctionCall && es[j]->FunctionCall_call_id == call_id;
                    let rid = minted_id(call_id, f);
                    assert(answers_call(es, fresh, n as int, m as int, j, rid));
                    assert(history_well_paired(tm, es, fresh, n as int)) by {
                        assert forall|k: int, p: int|
                            0 <= k < tm.len() && (#[trigger] tool_result_at(tm[k], p)) is Some implies exists|i: int, j: int|
                                #[trigger] answers_call(es, fresh, n as int, i, j, tool_result_at(tm[k], p)->0) by {
                            assert(tool_result_at(tm[k], p)->0 == rid);
                        }
                    }
                    lemma_paired_concat(st.out, fl, es, fresh, n as int);
                    lemma_paired_concat(st.out + fl, tm, es, fresh, n as int);
                }
            },
            EventModel::FunctionCall { call_id, .. } => {
                assert forall|x: Seq<char>| #[trigger] st2.calls.contains(x) implies exists|j: int|
                    0 <= j < n && #[trigger] es[j] is FunctionCall && es[j]->FunctionCall_call_id == x by {
                    if x == call_id {
                        assert(es[m as int] is FunctionCall);
                    } else {
                        let j = choose|j: int| 0 <= j < m && #[trigger] es[j] is FunctionCall && es[j]->FunctionCall_call_id == x;
                        assert(es[j] is FunctionCall);
                    }
                }
            },
            _ => {},
        }
    }
}

/// The history sent to the model pairs every tool result with a call before it: each
/// tool result answers an earlier function call (results without one are dropped), and
/// every assistant message holds at least one part.
pub proof fn law_tool_results_answer_calls(
    es: Seq<EventModel>,
    uploads: Seq<Seq<Option<Seq<char>>>>,
    fresh: Seq<Seq<char>>,
)
    ensures
        history_well_paired(chat_history_spec(es, uploads, fresh), es, fresh, es.len() as int),
{
    lemma_history_pairs(es, uploads, fresh, es.len());
    let st = history_after(es, uploads, fresh, es.len());
    let fl = flush_spec(st.acc);
    assert(history_well_paired(fl, es, fresh, es.len() as int)) by {
        assert forall|k: int, p: int|
            0 <= k < fl.len() && (#[trigger] tool_result_at(fl[k], p)) is Some implies false by {}
    }
    lemma_paired_concat(st.out, fl, es, fresh, es.len() as int);
}

/// The parts of the assistant messages, in order (user messages have none).
pub open spec fn assistant_parts_of(out: Seq<MessageModel>) -> Seq<AssistantPartModel>
    decreases out.len(),
{
    if out.len() == 0 {
        Seq::empty()
    } else {
        assistant_parts_of(out.drop_last()) + match out.last() {
            MessageModel::Assistant(ps) => ps,
            _ => Seq::empty(),
        }
    }
}

/// The assistant parts the model's events give, in order: the text of each model message
/// that has text, each thought, each tool call.
pub open spec fn model_parts(es: Seq<EventModel>, fresh: Seq<Seq<char>>, n: nat) -> Seq<AssistantPartModel>
    decreases n,
{
    if n == 0 || n > es.len() {
        Seq::empty()
    } else {
        model_parts(es, fresh, (n - 1) as nat) + match assistant_part_spec(es[n - 1], fresh_at(fresh, n - 1)) {
            Some(p) => seq![p],
            None => Seq::empty(),
        }
    }
}

proof fn lemma_parts_concat(a: Seq<MessageModel>, b: Seq<MessageModel>)
    ensures
        assistant_parts_of(a + b) == assistant_parts_of(a) + assistant_parts_of(b),
    decreases b.len(),
{
    if b.len() == 0 {
        assert(a + b =~= a);
        assert(assistant_parts_of(a) + Seq::<AssistantPartModel>::empty() =~= assistant_parts_of(a));
    } else {
        assert((a + b).drop_last() =~= a + b.drop_last());
        lemma_parts_concat(a, b.drop_last());
        assert((a + b).last() == b.last());
        let x = assistant_parts_of(a);
        let y = assistant_parts_of(b.drop_last());
        let z = match b.last() {
            MessageModel::Assistant(ps) => ps,
            _ => Seq::<AssistantPartModel>::empty(),
        };
        assert(x + y + z =~= x + (y + z));
    }
}

proof fn lemma_parts_flush(acc: Seq<AssistantPartModel>)
    ensures
        assistant_parts_of(flush_spec(acc)) == acc,
{
    let f = flush_spec(acc);
    if acc.len() > 0 {
        assert(f.drop_last() =~= Seq::<MessageModel>::empty());
        assert(assistant_parts_of(f.drop_last()) == Seq::<AssistantPartModel>::empty());
        assert(f.last() == MessageModel::Assistant(acc));
        assert(Seq::<AssistantPartModel>::empty() + acc =~= acc);
    } else {
        assert(f.len() == 0);
        assert(acc =~= Seq::<AssistantPartModel>::empty());
    }
}

proof fn lemma_parts_user(m: Seq<MessageModel>)
    requires
        m.len() <= 1,
        m.len() == 1 ==> m[0] is User,
    ensures
        assistant_parts_of(m) == Seq::<AssistantPartModel>::empty(),
{
    if m.len() == 1 {
        assert(m.drop_last() =~= Seq::<MessageModel>::empty());
        assert(assistant_parts_of(m.drop_last()) == Seq::<AssistantPartModel>::empty());
        assert(m.last() == m[0]);
        assert(Seq::<AssistantPartModel>::empty() + Seq::<AssistantPartModel>::empty() =~= Seq::<AssistantPartModel>::empty());
    }
}

proof fn lemma_history_parts(
    es: Seq<EventModel>,
    uploads: Seq<Seq<Option<Seq<char>>>>,
    fresh: Seq<Seq<char>>,
    n: nat,
)
    requires
        n <= es.len(),
    ensures
        assistant_parts_of(history_after(es, uploads, fresh, n).out) + history_after(es, uploads, fresh, n).acc
            == model_parts(es, fresh, n),
    decreases n,
{
    if n == 0 {
        let st = history_after(es, uploads, fresh, 0);
        assert(st.out.len() == 0);
        assert(assistant_parts_of(st.out) + st.acc =~= Seq::<AssistantPartModel>::empty());
    } else {
        let m = (n - 1) as nat;
        lemma_history_parts(es, uploads, fresh, m);
        let st = history_after(es, uploads, fresh, m);
        let e = es[m as int];
        let ups = uploads_at(uploads, m as int);
        let f = fresh_at(fresh, m as int);
        let st2 = history_after(es, uploads, fresh, n);
        assert(st2 == history_step(st, e, ups, f));
        let prev = model_parts(es, fresh, m);
        match e {
            EventModel::UserMessage { .. } => {
                let um = opt_message_seq(user_message_spec(e, ups));
                lemma_parts_concat(st.out, flush_spec(st.acc));
                lemma_parts_concat(st.out + flush_spec(st.acc), um);
                lemma_parts_flush(st.acc);
                lemma_parts_user(um);
                assert(assistant_part_spec(e, f) is None);
                assert(assistant_parts_of(st.out) + st.acc + Seq::<AssistantPartModel>::empty() + Seq::<AssistantPartModel>::empty()
                    =~= assistant_parts_of(st.out) + st.acc);
                assert(prev + Seq::<AssistantPartModel>::empty() =~= prev);
            },
            EventModel::FunctionResult { call_id, .. } => {
                assert(assistant_part_spec(e, f) is None);
                assert(prev + Seq::<AssistantPartModel>::empty() =~= prev);
                if st.calls.contains(call_id) {
                    let tm = opt_message_seq(tool_result_spec(e, f));
                    lemma_parts_concat(st.out, flush_spec(st.acc));
                    lemma_parts_concat(st.out + flush_spec(st.acc), tm);
                    lemma_parts_flush(st.acc);
                    lemma_parts_user(tm);
                    assert(assistant_parts_of(st.out) + st.acc + Seq::<AssistantPartModel>::empty() + Seq::<AssistantPartModel>::empty()
                        =~= assistant_parts_of(st.out) + st.acc);
                }
            },
            _ => {
                match assistant_part_spec(e, f) {
                    Some(p) => {
                        assert(assistant_parts_of(st.out) + st.acc.push(p) =~= assistant_parts_of(st.out) + st.acc + seq![p]);
                    },
                    None => {
                        assert(prev + Seq::<AssistantPartModel>::empty() =~= prev);
                    },
                }
            },
        }
    }
}

/// Nothing the model said is lost, repeated or reordered in the history: the parts of
/// the assistant messages, read in order, are the text of each model message that has
/// text, each thought and each tool call, in the order of the events.
pub proof fn law_assistant_parts_in_order(
    es: Seq<EventModel>,
    uploads: Seq<Seq<Option<Seq<char>>>>,
    fresh: Seq<Seq<char>>,
)
    ensures
        assistant_parts_of(chat_history_spec(es, uploads, fresh)) == model_parts(es, fresh, es.len()),
{
    lemma_history_parts(es, uploads, fresh, es.len());
    let st = history_after(es, uploads, fresh, es.len());
    lemma_parts_concat(st.out, flush_spec(st.acc));
    lemma_parts_flush(st.acc);
}

/// The contents of the assistant messages, in order.
pub open spec fn assistant_messages(out: Seq<MessageModel>) -> Seq<Seq<AssistantPartModel>>
    decreases out.len(),
{
    if out.len() == 0 {
        Seq::empty()
    } else {
        assistant_messages(out.drop_last()) + match out.last() {
            MessageModel::Assistant(ps) => seq![ps],
            _ => Seq::empty(),
        }
    }
}

/// The call ids of the function calls among the first `n` events.
pub open spec fn calls_before(es: Seq<EventModel>, n: nat) -> Set<Seq<char>>
    decreases n,
{
    if n == 0 || n > es.len() {
        Set::empty()
    } else {
        match es[n - 1] {
            EventModel::FunctionCall { call_id, .. } => calls_before(es, (n - 1) as nat).insert(call_id),
            _ => calls_before(es, (n - 1) as nat),
        }
    }
}

/// Whether event `i` ends a model turn: a user message, or a function result answering
/// a call before it.
pub open spec fn ends_turn(es: Seq<EventModel>, i: int) -> bool {
    match es[i] {
        EventModel::UserMessage { .. } => true,
        EventModel::FunctionResult { call_id, .. } => calls_before(es, i as nat).contains(call_id),
        _ => false,
    }
}

/// The model's turns among the first `n` events: the parts of each turn ended so far
/// (when it has any), and the parts of the turn still open.
pub open spec fn model_turns(es: Seq<EventModel>, fresh: Seq<Seq<char>>, n: nat) -> (
    Seq<Seq<AssistantPartModel>>,
    Seq<AssistantPartModel>,
)
    decreases n,
{
    if n == 0 || n > es.len() {
        (Seq::empty(), Seq::empty())
    } else {
        let (done, open) = model_turns(es, fresh, (n - 1) as nat);
        if ends_turn(es, n - 1) {
            (done + if open.len() > 0 {
                seq![open]
            } else {
                Seq::empty()
            }, Seq::empty())
        } else {
            (done, open + match assistant_part_spec(es[n - 1], fresh_at(fresh, n - 1)) {
                Some(p) => seq![p],
                None => Seq::empty(),
            })
        }
    }
}

proof fn lemma_messages_concat(a: Seq<MessageModel>, b: Seq<MessageModel>)
    ensures
        assistant_messages(a + b) == assistant_messages(a) + assistant_messages(b),
    decreases b.len(),
{
    if b.len() == 0 {
        assert(a + b =~= a);
        assert(assistant_messages(a) + Seq::<Seq<AssistantPartModel>>::empty() =~= assistant_messages(a));
    } else {
        assert((a + b).drop_last() =~= a + b.drop_last());
        lemma_messages_concat(a, b.drop_last());
        assert((a + b).last() == b.last());
        let x = assistant_messages(a);
        let y = assistant_messages(b.drop_last());
        let z = match b.last() {
            MessageModel::Assistant(ps) => seq![ps],
            _ => Seq::<Seq<AssistantPartModel>>::empty(),
        };
        assert(x + y + z =~= x + (y + z));
    }
}

proof fn lemma_messages_flush(acc: Seq<AssistantPartModel>)
    ensures
        assistant_messages(flush_spec(acc)) == if acc.len() > 0 {
            seq![acc]
        } else {
            Seq::<Seq<AssistantPartModel>>::empty()
        },
{
    let f = flush_spec(acc);
    if acc.len() > 0 {
        assert(f.drop_last() =~= Seq::<MessageModel>::empty());
        assert(assistant_messages(f.drop_last()) == Seq::<Seq<AssistantPartModel>>::empty());
        assert(f.last() == MessageModel::Assistant(acc));
        assert(Seq::<Seq<AssistantPartModel>>::empty() + seq![acc] =~= seq![acc]);
    } else {
        assert(f.len() == 0);
    }
}

proof fn lemma_messages_user(m: Seq<MessageModel>)
    requires
        m.len() <= 1,
        m.len() == 1 ==> m[0] is User,
    ensures
        assistant_messages(m) == Seq::<Seq<AssistantPartModel>>::empty(),
{
    if m.len() == 1 {
        assert(m.drop_last() =~= Seq::<MessageModel>::empty());
        assert(assistant_messages(m.drop_last()) == Seq::<Seq<AssistantPartModel>>::empty());
        assert(m.last() == m[0]);
        assert(Seq::<Seq<AssistantPartModel>>::empty() + Seq::<Seq<AssistantPartModel>>::empty()
            =~= Seq::<Seq<AssistantPartModel>>::empty());
    }
}

proof fn lemma_history_turns(
    es: Seq<EventModel>,
    uploads: Seq<Seq<Option<Seq<char>>>>,
    fresh: Seq<Seq<char>>,
    n: nat,
)
    requires
        n <= es.len(),
    ensures
        history_after(es, uploads, fresh, n).calls == calls_before(es, n),
        assistant_messages(history_after(es, uploads, fresh, n).out) == model_turns(es, fresh, n).0,
        history_after(es, uploads, fresh, n).acc == model_turns(es, fresh, n).1,
    decreases n,
{
    if n == 0 {
        let st = history_after(es, uploads, fresh, 0);
        assert(st.out.len() == 0);
        assert(st.calls =~= calls_before(es, 0));
    } else {
        let m = (n - 1) as nat;
        lemma_history_turns(es, uploads, fresh, m);
        let st = history_after(es, uploads, fresh, m);
        let e = es[m as int];
        let ups = uploads_at(uploads, m as int);
        let f = fresh_at(fresh, m as int);
        let st2 = history_after(es, uploads, fresh, n);
        assert(st2 == history_step(st, e, ups, f));
        let (done, open) = model_turns(es, fresh, m);
        match e {
            EventModel::UserMessage { .. } => {
                let um = opt_message_seq(user_message_spec(e, ups));
                lemma_messages_concat(st.out, flush_spec(st.acc));
                lemma_messages_concat(st.out + flush_spec(st.acc), um);
                lemma_messages_flush(st.acc);
                lemma_messages_user(um);
                let fl = if open.len() > 0 { seq![open] } else { Seq::<Seq<AssistantPartModel>>::empty() };
                assert(done + fl + Seq::<Seq<AssistantPartModel>>::empty() =~= done + fl);
            },
            EventModel::FunctionResult { call_id, .. } => {
                if st.calls.contains(call_id) {
                    let tm = opt_message_seq(tool_result_spec(e, f));
                    lemma_messages_concat(st.out, flush_spec(st.acc));
                    lemma_messages_concat(st.out + flush_spec(st.acc), tm);
                    lemma_messages_flush(st.acc);
                    lemma_messages_user(tm);
                    let fl = if open.len() > 0 { seq![open] } else { Seq::<Seq<AssistantPartModel>>::empty() };
                    assert(done + fl + Seq::<Seq<AssistantPartModel>>::empty() =~= done + fl);
                } else {
                    assert(open + Seq::<AssistantPartModel>::empty() =~= open);
                }
            },
            _ => {
                match assistant_part_spec(e, f) {
                    Some(p) => {
                        assert(st.acc.push(p) =~= open + seq![p]);
                    },
                    None => {
                        assert(open + Seq::<AssistantPartModel>::empty() =~= open);
                    },
                }
            },
        }
    }
}

/// Each assistant message of the history is one model turn: the parts of the model's
/// events between two events that end a turn (a user message, or a function result
/// answering an earlier call), in order; turns without parts give no message, and the
/// last turn, still open, gives one when it has parts.
pub proof fn law_assistant_message_per_turn(
    es: Seq<EventModel>,
    uploads: Seq<Seq<Option<Seq<char>>>>,
    fresh: Seq<Seq<char>>,
)
    ensures
        ({
            let (done, open) = model_turns(es, fresh, es.len());
            assistant_messages(chat_history_spec(es, uploads, fresh)) == done + if open.len() > 0 {
                seq![open]
            } else {
                Seq::<Seq<AssistantPartModel>>::empty()
            }
        }),
{
    lemma_history_turns(es, uploads, fresh, es.len());
    let st = history_after(es, uploads, fresh, es.len());
    lemma_messages_concat(st.out, flush_spec(st.acc));
    lemma_messages_flush(st.acc);
}

/// The result text of a tool result joins its blocks in order: the text of blocks `a`
/// followed by blocks `b` is the text of `a` followed by the text of `b`; one block gives
/// its formatted text, a binary blob nothing.
pub proof fn law_result_text_joins_blocks(a: Seq<BlockModel>, b: Seq<BlockModel>, x: BlockModel)
    ensures
        result_text(a + b) == result_text(a) + result_text(b),
        result_text(seq![x]) == match x {
            BlockModel::ResourceBlob { .. } => Seq::<char>::empty(),
            other => format_block_spec(other),
        },
    decreases b.len(),
{
    if b.len() == 0 {
        assert(a + b =~= a);
        assert(result_text(a) + Seq::<char>::empty() =~= result_text(a));
    } else {
        assert((a + b).drop_last() =~= a + b.drop_last());
        assert((a + b).last() == b.last());
        law_result_text_joins_blocks(a, b.drop_last(), x);
        let t = match b.last() {
            BlockModel::ResourceBlob { .. } => Seq::<char>::empty(),
            other => format_block_spec(other),
        };
        assert(result_text(a) + result_text(b.drop_last()) + t =~= result_text(a) + (result_text(
            b.drop_last(),
        ) + t));
    }
    let one = seq![x];
    assert(one.drop_last() =~= Seq::<BlockModel>::empty());
    assert(one.last() == x);
    assert(result_text(one.drop_last()) == Seq::<char>::empty());
    let t = match x {
        BlockModel::ResourceBlob { .. } => Seq::<char>::empty(),
        other => format_block_spec(other),
    };
    assert(Seq::<char>::empty() + t =~= t);
}

} // verus!
