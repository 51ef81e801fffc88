//! Content blocks: the text, resources and links that messages and tool results carry.
use vstd::prelude::*;
use crate::json::{JsonModel, JsonValue, json_model};
use crate::text::{chars_of, copy_chars, eq_str, ends_with, push_all, push_str, string_of};

verus! {

broadcast use vstd::string::group_string_axioms;

/// A plain text block.
#[derive(Clone, Debug)]
pub struct TextContent {
    pub text: String,
    pub annotations: Option<JsonValue>,
}

/// An embedded resource: text or binary data with its URI and media type.
#[derive(Clone, Debug)]
pub enum Resource {
    Text { uri: String, media_type: String, text: String, annotations: Option<JsonValue> },
    Blob { uri: String, media_type: String, blob: Vec<u8>, annotations: Option<JsonValue> },
}

/// A link to a resource by URI.
#[derive(Clone, Debug)]
pub struct ResourceLink {
    pub uri: String,
    pub name: String,
    pub media_type: Option<String>,
    pub size: Option<u64>,
    pub annotations: Option<JsonValue>,
}

/// A tool result or message block. Every variant can carry `annotations`.
#[derive(Clone, Debug)]
pub enum ContentBlock {
    Text(TextContent),
    Resource(Resource),
    ResourceLink(ResourceLink),
}

/// The mathematical model of a content block.
#[allow(inconsistent_fields)]
pub enum BlockModel {
    Text { text: Seq<char>, annotations: Option<JsonModel> },
    ResourceText {
        uri: Seq<char>,
        media_type: Seq<char>,
        text: Seq<char>,
        annotations: Option<JsonModel>,
    },
    ResourceBlob {
        uri: Seq<char>,
        media_type: Seq<char>,
        blob: Seq<u8>,
        annotations: Option<JsonModel>,
    },
    ResourceLink {
        uri: Seq<char>,
        name: Seq<char>,
        media_type: Option<Seq<char>>,
        size: Option<u64>,
        annotations: Option<JsonModel>,
    },
}

pub open spec fn opt_json_model(a: Option<JsonValue>) -> Option<JsonModel> {
    match a {
        Some(v) => Some(json_model(v)),
        None => None,
    }
}

pub open spec fn opt_str_model(a: Option<String>) -> Option<Seq<char>> {
    match a {
        Some(s) => Some(s@),
        None => None,
    }
}

pub open spec fn block_model(b: ContentBlock) -> BlockModel {
    match b {
        ContentBlock::Text(t) => BlockModel::Text {
            text: t.text@,
            annotations: opt_json_model(t.annotations),
        },
        ContentBlock::Resource(Resource::Text { uri, media_type, text, annotations }) =>
            BlockModel::ResourceText {
            uri: uri@,
            media_type: media_type@,
            text: text@,
            annotations: opt_json_model(annotations),
        },
        ContentBlock::Resource(Resource::Blob { uri, media_type, blob, annotations }) =>
            BlockModel::ResourceBlob {
            uri: uri@,
            media_type: media_type@,
            blob: blob@,
            annotations: opt_json_model(annotations),
        },
        ContentBlock::ResourceLink(l) => BlockModel::ResourceLink {
            uri: l.uri@,
            name: l.name@,
            media_type: opt_str_model(l.media_type),
            size: l.size,
            annotations: opt_json_model(l.annotations),
        },
    }
}

impl View for ContentBlock {
    type V = BlockModel;

    open spec fn view(&self) -> BlockModel {
        block_model(*self)
    }
}

/// The models of a sequence of blocks.
pub open spec fn blocks_model(bs: Seq<ContentBlock>) -> Seq<BlockModel> {
    bs.map_values(|b: ContentBlock| block_model(b))
}

/// The model of a plain text block without annotations.
pub open spec fn text_model(text: Seq<char>) -> BlockModel {
    BlockModel::Text { text, annotations: None }
}

/// A block model with its annotations replaced.
pub open spec fn with_annotations_model(m: BlockModel, a: JsonModel) -> BlockModel {
    match m {
        BlockModel::Text { text, .. } => BlockModel::Text { text, annotations: Some(a) },
        BlockModel::ResourceText { uri, media_type, text, .. } => BlockModel::ResourceText {
            uri,
            media_type,
            text,
            annotations: Some(a),
        },
        BlockModel::ResourceBlob { uri, media_type, blob, .. } => BlockModel::ResourceBlob {
            uri,
            media_type,
            blob,
            annotations: Some(a),
        },
        BlockModel::ResourceLink { uri, name, media_type, size, .. } => BlockModel::ResourceLink {
            uri,
            name,
            media_type,
            size,
            annotations: Some(a),
        },
    }
}

fn copy_bytes(v: &Vec<u8>) -> (r: Vec<u8>)
    ensures
        r@ == v@,
{
    let mut r: Vec<u8> = Vec::new();
    let mut i: usize = 0;
    while i < v.len()
        invariant
            i <= v.len(),
            r@ == v@.take(i as int),
        decreases v.len() - i,
    {
        r.push(v[i]);
        i = i + 1;
        assert(r@ =~= v@.take(i as int));
    }
    assert(v@.take(v.len() as int) =~= v@);
    r
}

fn clone_opt_json(a: &Option<JsonValue>) -> (r: Option<JsonValue>)
    ensures
        opt_json_model(r) == opt_json_model(*a),
{
    match a {
        Some(v) => Some(v.deep_clone()),
        None => None,
    }
}

impl TextContent {
    /// A text block holding `text`, without annotations.
    pub fn new(text: &str) -> (r: TextContent)
        ensures
            r.text@ == text@,
            r.annotations is None,
    {
        TextContent { text: text.to_owned(), annotations: None }
    }

    /// The same block with `annotations` attached.
    pub fn with_annotations(self, annotations: JsonValue) -> (r: TextContent)
        ensures
            r.text == self.text,
            r.annotations == Some(annotations),
    {
        TextContent { text: self.text, annotations: Some(annotations) }
    }
}

impl Resource {
    /// A text resource without annotations.
    pub fn text(uri: &str, media_type: &str, text: &str) -> (r: Resource)
        ensures
            block_model(ContentBlock::Resource(r)) == (BlockModel::ResourceText {
                uri: uri@,
                media_type: media_type@,
                text: text@,
                annotations: None,
            }),
    {
        Resource::Text {
            uri: uri.to_owned(),
            media_type: media_type.to_owned(),
            text: text.to_owned(),
            annotations: None,
        }
    }

    /// A binary resource without annotations.
    pub fn blob(uri: &str, media_type: &str, blob: Vec<u8>) -> (r: Resource)
        ensures
            block_model(ContentBlock::Resource(r)) == (BlockModel::ResourceBlob {
                uri: uri@,
                media_type: media_type@,
                blob: blob@,
                annotations: None,
            }),
    {
        Resource::Blob {
            uri: uri.to_owned(),
            media_type: media_type.to_owned(),
            blob,
            annotations: None,
        }
    }

    /// The same resource with `annotations` attached.
    pub fn with_annotations(self, annotations: JsonValue) -> (r: Resource)
        ensures
            block_model(ContentBlock::Resource(r)) == with_annotations_model(
                block_model(ContentBlock::Resource(self)),
                json_model(annotations),
            ),
    {
        match self {
            Resource::Text { uri, media_type, text, .. } => Resource::Text {
                uri,
                media_type,
                text,
                annotations: Some(annotations),
            },
            Resource::Blob { uri, media_type, blob, .. } => Resource::Blob {
                uri,
                media_type,
                blob,
                annotations: Some(annotations),
            },
        }
    }
}

impl ResourceLink {
    /// A link to `uri` named `name`, without media type, size or annotations.
    pub fn new(uri: &str, name: &str) -> (r: ResourceLink)
        ensures
            block_model(ContentBlock::ResourceLink(r)) == (BlockModel::ResourceLink {
                uri: uri@,
                name: name@,
                media_type: None,
                size: None,
                annotations: None,
            }),
    {
        ResourceLink {
            uri: uri.to_owned(),
            name: name.to_owned(),
            media_type: None,
            size: None,
            annotations: None,
        }
    }

    /// The same link with its media type set.
    pub fn with_media_type(self, media_type: &str) -> (r: ResourceLink)
        ensures
            r.uri == self.uri,
            r.name == self.name,
            r.size == self.size,
            r.annotations == self.annotations,
            opt_str_model(r.media_type) == Some(media_type@),
    {
        ResourceLink { media_type: Some(media_type.to_owned()), ..self }
    }

    /// The same link with `annotations` attached.
    pub fn with_annotations(self, annotations: JsonValue) -> (r: ResourceLink)
        ensures
            r.uri == self.uri,
            r.name == self.name,
            r.media_type == self.media_type,
            r.size == self.size,
            r.annotations == Some(annotations),
    {
        ResourceLink { annotations: Some(annotations), ..self }
    }
}

impl ContentBlock {
    /// A plain text block.
    pub fn text(text: &str) -> (r: ContentBlock)
        ensures
            r@ == text_model(text@),
    {
        ContentBlock::Text(TextContent::new(text))
    }

    /// A plain text block made of the given characters.
    pub fn text_of(text: &Vec<char>) -> (r: ContentBlock)
        ensures
            r@ == text_model(text@),
    {
        ContentBlock::Text(TextContent { text: string_of(text), annotations: None })
    }

    /// A resource block.
    pub fn resource(resource: Resource) -> (r: ContentBlock)
        ensures
            r == ContentBlock::Resource(resource),
    {
        ContentBlock::Resource(resource)
    }

    /// A resource link block.
    pub fn resource_link(link: ResourceLink) -> (r: ContentBlock)
        ensures
            r == ContentBlock::ResourceLink(link),
    {
        ContentBlock::ResourceLink(link)
    }

    /// The same block with `annotations` attached, whatever its variant.
    pub fn with_annotations(self, annotations: JsonValue) -> (r: ContentBlock)
        ensures
            r@ == with_annotations_model(self@, json_model(annotations)),
    {
        match self {
            ContentBlock::Text(t) => ContentBlock::Text(t.with_annotations(annotations)),
            ContentBlock::Resource(r) => ContentBlock::Resource(r.with_annotations(annotations)),
            ContentBlock::ResourceLink(l) => ContentBlock::ResourceLink(
                l.with_annotations(annotations),
            ),
        }
    }

    /// A copy of the block with the same model.
    pub fn deep_clone(&self) -> (r: ContentBlock)
        ensures
            r@ == self@,
    {
        match self {
            ContentBlock::Text(t) => ContentBlock::Text(
                TextContent { text: t.text.clone(), annotations: clone_opt_json(&t.annotations) },
            ),
            ContentBlock::Resource(Resource::Text { uri, media_type, text, annotations }) =>
                ContentBlock::Resource(
                Resource::Text {
                    uri: uri.clone(),
                    media_type: media_type.clone(),
                    text: text.clone(),
                    annotations: clone_opt_json(annotations),
                },
            ),
            ContentBlock::Resource(Resource::Blob { uri, media_type, blob, annotations }) =>
                ContentBlock::Resource(
                Resource::Blob {
                    uri: uri.clone(),
                    media_type: media_type.clone(),
                    blob: copy_bytes(blob),
                    annotations: clone_opt_json(annotations),
                },
            ),
            ContentBlock::ResourceLink(l) => ContentBlock::ResourceLink(
                ResourceLink {
                    uri: l.uri.clone(),
                    name: l.name.clone(),
                    media_type: match &l.media_type {
                        Some(m) => Some(m.clone()),
                        None => None,
                    },
                    size: l.size,
                    annotations: clone_opt_json(&l.annotations),
                },
            ),
        }
    }
}

/// Copies of the given blocks, with the same models.
pub fn clone_blocks(bs: &Vec<ContentBlock>) -> (r: Vec<ContentBlock>)
    ensures
        blocks_model(r@) == blocks_model(bs@),
{
    let mut r: Vec<ContentBlock> = Vec::new();
    let mut i: usize = 0;
    while i < bs.len()
        invariant
            i <= bs.len(),
            r@.len() == i,
            forall|k: int| 0 <= k < i ==> (#[trigger] r@[k])@ == bs@[k]@,
        decreases bs.len() - i,
    {
        let b = bs[i].deep_clone();
        r.push(b);
        i = i + 1;
    }
    assert(blocks_model(r@) =~= blocks_model(bs@));
    r
}

// ── formatting ──────────────────────────────────────────────────────

/// The first file extension that `mime_guess` registers for a MIME type.
pub uninterp spec fn mime_extension(mime: Seq<char>) -> Option<Seq<char>>;

/// The character of a 6-bit value in the standard base64 alphabet (`A-Z a-z 0-9 + /`).
pub open spec fn base64_char(v: int) -> char {
    if v < 26 {
        (v + 65) as char
    } else if v < 52 {
        (v - 26 + 97) as char
    } else if v < 62 {
        (v - 52 + 48) as char
    } else if v == 62 {
        '+'
    } else {
        '/'
    }
}

/// The standard (padded, `+/`) base64 encoding of some bytes: each group of three bytes
/// as four characters of six bits each, a last group of one or two bytes padded with `=`.
pub open spec fn base64_standard(data: Seq<u8>) -> Seq<char>
    decreases data.len(),
{
    if data.len() == 0 {
        Seq::empty()
    } else if data.len() == 1 {
        seq![base64_char((data[0] / 4) as int), base64_char((data[0] % 4) * 16), '=', '=']
    } else if data.len() == 2 {
        seq![
            base64_char((data[0] / 4) as int),
            base64_char((data[0] % 4) * 16 + data[1] / 16),
            base64_char((data[1] % 16) * 4),
            '=',
        ]
    } else {
        seq![
            base64_char((data[0] / 4) as int),
            base64_char((data[0] % 4) * 16 + data[1] / 16),
            base64_char((data[1] % 16) * 4 + data[2] / 64),
            base64_char((data[2] % 64) as int),
        ] + base64_standard(data.skip(3))
    }
}

/// A string as `{:?}` writes it: in double quotes, with escapes.
pub uninterp spec fn debug_str(s: Seq<char>) -> Seq<char>;

/// Characters that `{:?}` leaves as they are inside the quotes.
pub open spec fn debug_plain(s: Seq<char>) -> bool {
    forall|i: int|
        0 <= i < s.len() ==> 0x20 <= #[trigger] (s[i] as u32) <= 0x7e && s[i] != '"' && s[i]
            != '\\' && s[i] != '\''
}

/// `mime_guess::get_mime_extensions_str`: the first registered extension of a MIME type,
/// taken from the crate's static table. The contract only names the result.
#[verifier::external_body]
fn first_mime_extension(mime: &str) -> (r: Option<String>)
    ensures
        match r {
            Some(e) => mime_extension(mime@) == Some(e@),
            None => mime_extension(mime@) is None,
        },
{
    mime_guess::get_mime_extensions_str(mime).and_then(|exts| exts.first()).map(|e| e.to_string())
}

/// `base64::engine::general_purpose::STANDARD.encode`: the padded standard base64 text
/// of the bytes (see `base64_standard`).
#[verifier::external_body]
fn base64_encode(data: &Vec<u8>) -> (r: String)
    ensures
        r@ == base64_standard(data@),
{
    base64::Engine::encode(&base64::engine::general_purpose::STANDARD, data)
}

/// `std`'s `Debug` for `str`: the quoted, escaped form of a string. For printable ASCII
/// without quotes or backslashes the documentation shows the text kept between two `"`.
#[verifier::external_body]
fn debug_quoted(s: &str) -> (r: String)
    ensures
        r@ == debug_str(s@),
        debug_plain(s@) ==> r@ == seq!['"'] + s@ + seq!['"'],
{
    format!("{:?}", s)
}

/// A string as `{:?}` writes it: printable ASCII without quotes or backslashes kept
/// between two `"`; any other string as `debug_str` names it.
pub open spec fn debug_quote_spec(s: Seq<char>) -> Seq<char> {
    if debug_plain(s) {
        seq!['"'] + s + seq!['"']
    } else {
        debug_str(s)
    }
}

/// The file extension shown for a media type: none for `text/plain`, else the first
/// registered one, or none when the type is unknown.
pub open spec fn mime_to_ext(mime: Seq<char>) -> Seq<char> {
    if mime == "text/plain"@ {
        Seq::empty()
    } else {
        match mime_extension(mime) {
            Some(e) => e,
            None => Seq::empty(),
        }
    }
}

fn mime_ext(mime: &String) -> (r: Vec<char>)
    ensures
        r@ == mime_to_ext(mime@),
{
    let m = chars_of(mime.as_str());
    if eq_str(&m, "text/plain") {
        return Vec::new();
    }
    match first_mime_extension(mime.as_str()) {
        Some(e) => chars_of(e.as_str()),
        None => Vec::new(),
    }
}

/// The text an LLM sees for a block.
/// - Text: the text itself.
/// - Resource text: a fenced block ```` ```<ext> {uri="<uri>"} ```` with the text, ended
///   by a newline before the closing fence.
/// - Resource blob: a fenced block with `{uri=".." type=".." base64}` (no `type` when the
///   media type is empty) and the base64 of the data.
/// - Resource link: `[<name>](<uri>)`, followed by `{type=<media type>}` when one is set.
pub open spec fn format_block_spec(b: BlockModel) -> Seq<char> {
    match b {
        BlockModel::Text { text, .. } => text,
        BlockModel::ResourceText { uri, media_type, text, .. } => "```"@ + mime_to_ext(media_type)
            + " {uri="@ + debug_quote_spec(uri) + "}\n"@ + text + (if text.len() > 0 && text.last()
            == '\n' {
            Seq::empty()
        } else {
            "\n"@
        }) + "```"@,
        BlockModel::ResourceBlob { uri, media_type, blob, .. } => "```"@ + mime_to_ext(media_type)
            + " "@ + (if media_type.len() == 0 {
            "{uri="@ + debug_quote_spec(uri) + " base64}"@
        } else {
            "{uri="@ + debug_quote_spec(uri) + " type="@ + debug_quote_spec(media_type) + " base64}"@
        }) + "\n"@ + base64_standard(blob) + "\n```"@,
        BlockModel::ResourceLink { uri, name, media_type, .. } => match media_type {
            Some(mt) => "["@ + name + "]("@ + uri + "){type="@ + mt + "}"@,
            None => "["@ + name + "]("@ + uri + ")"@,
        },
    }
}

/// Formats a content block as the text an LLM sees (see `format_block_spec`).
pub fn format_content_block(block: &ContentBlock) -> (r: String)
    ensures
        r@ == format_block_spec(block@),
{
    let mut out: Vec<char> = Vec::new();
    match block {
        ContentBlock::Text(t) => {
            push_str(&mut out, t.text.as_str());
        },
        ContentBlock::Resource(Resource::Text { uri, media_type, text, .. }) => {
            let ext = mime_ext(media_type);
            push_str(&mut out, "```");
            push_all(&mut out, &ext);
            push_str(&mut out, " {uri=");
            let q = debug_quoted(uri.as_str());
            push_str(&mut out, q.as_str());
            push_str(&mut out, "}\n");
            push_str(&mut out, text.as_str());
            let tc = chars_of(text.as_str());
            if !(tc.len() > 0 && tc[tc.len() - 1] == '\n') {
                push_str(&mut out, "\n");
            }
            push_str(&mut out, "```");
            proof {
                let s = "```"@ + ext@ + " {uri="@ + q@ + "}\n"@ + text@;
                if text@.len() > 0 && text@.last() == '\n' {
                    assert(out@ =~= s + Seq::<char>::empty() + "```"@);
                } else {
                    assert(out@ =~= s + "\n"@ + "```"@);
                }
            }
        },
        ContentBlock::Resource(Resource::Blob { uri, media_type, blob, .. }) => {
            let ext = mime_ext(media_type);
            let data = base64_encode(blob);
            push_str(&mut out, "```");
            push_all(&mut out, &ext);
            push_str(&mut out, " ");
            let q = debug_quoted(uri.as_str());
            let mut header: Vec<char> = Vec::new();
            push_str(&mut header, "{uri=");
            push_str(&mut header, q.as_str());
            if media_type.as_str().is_empty() {
                push_str(&mut header, " base64}");
            } else {
                let mq = debug_quoted(media_type.as_str());
                push_str(&mut header, " type=");
                push_str(&mut header, mq.as_str());
                push_str(&mut header, " base64}");
            }
            push_all(&mut out, &header);
            push_str(&mut out, "\n");
            push_str(&mut out, data.as_str());
            push_str(&mut out, "\n```");
        },
        ContentBlock::ResourceLink(link) => {
            push_str(&mut out, "[");
            push_str(&mut out, link.name.as_str());
            push_str(&mut out, "](");
            push_str(&mut out, link.uri.as_str());
            match &link.media_type {
                Some(mt) => {
                    push_str(&mut out, "){type=");
                    push_str(&mut out, mt.as_str());
                    push_str(&mut out, "}");
                },
                None => {
                    push_str(&mut out, ")");
                },
            }
        },
    }
    string_of(&out)
}

} // verus!
