//! Uploading images to DeepSeek's Files API: where files are sent, where image files are
//! read from, and the cache that keeps one upload per image content.
use vstd::prelude::*;
use crate::event::{Event, EventModel};
use crate::json::{JsonModel, JsonValue};
use crate::path::{join, path_join};
use crate::strmap::StrMap;
use crate::text::{chars_of, push_str, seq_starts_with, slice_chars, starts_with_str, string_of};

verus! {

broadcast use vstd::string::group_string_axioms;

/// The SHA-256 digest of `data` in lowercase hexadecimal, as `sha2` computes it.
pub uninterp spec fn sha256_hex(data: Seq<u8>) -> Seq<char>;

/// A lowercase hexadecimal digit.
pub open spec fn is_lower_hex(c: char) -> bool {
    ('0' <= c <= '9') || ('a' <= c <= 'f')
}

/// Calls `sha2::Sha256::digest` and writes the 32 bytes of the digest in lowercase
/// hexadecimal (`{:x}`): 64 digits.
#[verifier::external_body]
fn sha256_lower_hex(data: &Vec<u8>) -> (r: String)
    ensures
        r@ == sha256_hex(data@),
        r@.len() == 64,
        forall|i: int| 0 <= i < r@.len() ==> is_lower_hex(#[trigger] r@[i]),
{
    let digest = <sha2::Sha256 as sha2::Digest>::digest(data.as_slice());
    format!("{digest:x}")
}

/// The key an image's content is cached under: the SHA-256 of its bytes.
pub fn content_hash(data: &Vec<u8>) -> (r: String)
    ensures
        r@ == sha256_hex(data@),
        r@.len() == 64,
        forall|i: int| 0 <= i < r@.len() ==> is_lower_hex(#[trigger] r@[i]),
{
    sha256_lower_hex(data)
}

/// The session state key a file id is kept under: `ds-file:<hash>`.
pub fn cache_key(hash: &str) -> (r: String)
    ensures
        r@ == "ds-file:"@ + hash@,
{
    let mut t: Vec<char> = Vec::new();
    push_str(&mut t, "ds-file:");
    push_str(&mut t, hash);
    string_of(&t)
}

/// Where an image a link names is read from: the path after `file://`; an absolute
/// path as it is; a relative one under the working directory.
pub open spec fn resolve_uri_spec(uri: Seq<char>, working_dir: Seq<char>) -> Seq<char> {
    if seq_starts_with(uri, "file://"@) {
        uri.skip(7)
    } else if uri.len() > 0 && uri[0] == '/' {
        uri
    } else {
        path_join(working_dir, uri)
    }
}

/// Where an image a link names is read from (see `resolve_uri_spec`).
pub fn resolve_uri(uri: &str, working_dir: &str) -> (r: String)
    ensures
        r@ == resolve_uri_spec(uri@, working_dir@),
{
    let u = chars_of(uri);
    if starts_with_str(&u, "file://") {
        proof {
            reveal_strlit("file://");
        }
        let rest = slice_chars(&u, 7, u.len());
        assert(rest@ =~= u@.skip(7));
        return string_of(&rest);
    }
    if u.len() > 0 && u[0] == '/' {
        return uri.to_owned();
    }
    string_of(&join(&chars_of(working_dir), &u))
}

/// `s` without the `/` characters at its end.
pub open spec fn without_trailing_slashes(s: Seq<char>) -> Seq<char>
    decreases s.len(),
{
    if s.len() > 0 && s.last() == '/' {
        without_trailing_slashes(s.drop_last())
    } else {
        s
    }
}

/// Where files are uploaded: `<base url without trailing />/files`.
pub fn files_upload_url(base_url: &str) -> (r: String)
    ensures
        r@ == without_trailing_slashes(base_url@) + "/files"@,
{
    let v = chars_of(base_url);
    let mut j: usize = v.len();
    assert(v@.take(v.len() as int) =~= v@);
    while j > 0 && v[j - 1] == '/'
        invariant
            j <= v.len(),
            without_trailing_slashes(v@) == without_trailing_slashes(v@.take(j as int)),
        decreases j,
    {
        assert(v@.take(j as int).drop_last() =~= v@.take(j - 1));
        j = j - 1;
    }
    let mut r = slice_chars(&v, 0, j);
    assert(r@ =~= v@.take(j as int));
    push_str(&mut r, "/files");
    string_of(&r)
}

/// The error of a refused upload: `DeepSeek files upload failed: HTTP <status>: <body>`.
pub fn upload_failure_message(status: &str, body: &str) -> (r: String)
    ensures
        r@ == "DeepSeek files upload failed: HTTP "@ + status@ + ": "@ + body@,
{
    let mut t: Vec<char> = Vec::new();
    push_str(&mut t, "DeepSeek files upload failed: HTTP ");
    push_str(&mut t, status);
    push_str(&mut t, ": ");
    push_str(&mut t, body);
    string_of(&t)
}

/// The file ids of the images uploaded so far, by content hash.
pub struct ImageCache {
    ids: StrMap<String>,
}

impl View for ImageCache {
    type V = Map<Seq<char>, String>;

    closed spec fn view(&self) -> Map<Seq<char>, String> {
        self.ids@
    }
}

/// The file id a session's saved state gives, where it is a string.
pub open spec fn saved_id(value: Option<JsonModel>) -> Option<Seq<char>> {
    match value {
        Some(JsonModel::Str(s)) => Some(s),
        _ => None,
    }
}

impl ImageCache {
    /// Nothing uploaded yet.
    pub fn new() -> (r: ImageCache)
        ensures
            r@ == Map::<Seq<char>, String>::empty(),
    {
        ImageCache { ids: StrMap::new() }
    }

    /// The file id of an image uploaded before, by its content hash.
    pub fn lookup(&self, hash: &str) -> (r: Option<String>)
        ensures
            match r {
                Some(id) => self@.contains_key(hash@) && id == self@[hash@],
                None => !self@.contains_key(hash@),
            },
    {
        match self.ids.get(hash) {
            Some(id) => Some(id.clone()),
            None => None,
        }
    }

    /// Takes the file id a session saved under the image's key, where it is a string, and
    /// remembers it.
    pub fn adopt_saved(&mut self, hash: &str, value: Option<&JsonValue>) -> (r: Option<String>)
        ensures
            match saved_id(
                match value {
                    Some(v) => Some(v@),
                    None => None,
                },
            ) {
                Some(id) => r matches Some(x) && x@ == id && final(self)@ == old(self)@.insert(hash@, x),
                None => r is None && final(self)@ == old(self)@,
            },
    {
        match value {
            Some(JsonValue::Str(id)) => {
                let x = id.clone();
                self.ids.insert(hash.to_owned(), id.clone());
                Some(x)
            },
            _ => None,
        }
    }

    /// Remembers a new upload; the event that saves its file id in the session under the
    /// image's key comes back.
    pub fn record_upload(&mut self, hash: &str, file_id: &String) -> (r: Event)
        ensures
            final(self)@ == old(self)@.insert(hash@, *file_id),
            r@ == (EventModel::StateUpdate {
                id: Seq::empty(),
                name: "ds-file:"@ + hash@,
                data: JsonModel::Str(file_id@),
            }),
    {
        self.ids.insert(hash.to_owned(), file_id.clone());
        Event::StateUpdate {
            id: String::new(),
            name: cache_key(hash),
            data: JsonValue::Str(file_id.clone()),
        }
    }
}

/// An image looked up again after it was recorded gives the same file id.
pub proof fn law_recorded_upload_is_reused(cache: Map<Seq<char>, String>, hash: Seq<char>, id: String)
    ensures
        cache.insert(hash, id).contains_key(hash),
        cache.insert(hash, id)[hash] == id,
{
}

} // verus!
