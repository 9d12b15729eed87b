//! `compression`: compresses a buffered response body as `Accept-Encoding`
//! allows (brotli, then gzip), and sets `Content-Encoding` and `Vary`.
//!
//! A response that already carries a `Content-Encoding` is left alone, so nothing
//! is ever encoded twice. So are bodies below `min_size`, statuses without a body
//! or with a part of one, `Content-Range` responses, `Cache-Control:
//! no-transform`, content types outside the configured set, and bodies that do
//! not get smaller. The request phase does nothing.
//!
//! | key | default | meaning |
//! |-----|---------|---------|
//! | `brotli` (bool) | `true` | offer brotli, preferred where the client accepts it |
//! | `gzip` (bool) | `true` | offer gzip |
//! | `level` (integer 1 to 9) | `5` | gzip level and brotli quality |
//! | `min_size` (integer) | `1024` | bodies below this many bytes are left alone |
//! | `types` (array of strings) | text, JSON, JS, XML, SVG | a content type that contains one of these is compressed |
use vstd::prelude::*;
use vstd::string::*;

use std::io::{Read, Write};

use crate::http::{
    EditsModel, ReplyModel, Request, RequestModel, Response, ResponseModel, ResponseView,
};
use crate::json::{Json, JsonModel, NodeModel};
use crate::{config, http, text, weight};

verus! {

/// Size of the brotli encoder's buffer.
pub const BROTLI_BUF: usize = 4096;

/// Brotli window, as a power of two: 4 MiB.
pub const BROTLI_LGWIN: u32 = 22;

/// The encoding to apply.
#[derive(Clone, Copy, Debug, PartialEq, Eq, Structural)]
pub enum Encoding {
    Brotli,
    Gzip,
}

/// Compression policy, built once by [`Compress::init`].
#[derive(Debug)]
pub struct Compress {
    pub brotli: bool,
    pub gzip: bool,
    pub level: u32,
    pub min_size: usize,
    /// Parts of content types, in lower case.
    pub types: Vec<String>,
}

/// The mathematical reading of [`Compress`].
pub struct CompressModel {
    pub brotli: bool,
    pub gzip: bool,
    pub level: u32,
    pub min_size: usize,
    pub types: Seq<Seq<char>>,
}

impl View for Compress {
    type V = CompressModel;

    open spec fn view(&self) -> CompressModel {
        CompressModel {
            brotli: self.brotli,
            gzip: self.gzip,
            level: self.level,
            min_size: self.min_size,
            types: config::texts(self.types@),
        }
    }
}

// ---------------------------------------------------------------------------
// The encoders and decoders
// ---------------------------------------------------------------------------

/// The gzip stream that `flate2::write::GzEncoder` writes for some data at a
/// compression level; nothing where it reports an error.
pub uninterp spec fn gzip_stream(data: Seq<u8>, level: u32) -> Option<Seq<u8>>;

/// What `flate2::read::GzDecoder` reads from a gzip stream; nothing where it
/// reports an error.
pub uninterp spec fn gunzipped(stream: Seq<u8>) -> Option<Seq<u8>>;

/// What `brotli::CompressorWriter` may come to for some data with this quality,
/// buffer size and window: a stream, or nothing where it reports an error. The
/// encoder estimates costs with `f32::log2`, whose precision std leaves open, so
/// the stream may vary from machine to machine and from call to call.
pub uninterp spec fn brotli_writes(
    data: Seq<u8>,
    quality: u32,
    buffer: usize,
    window: u32,
    out: Option<Seq<u8>>,
) -> bool;

/// What `brotli::Decompressor`, with a buffer of this size, reads from a brotli
/// stream; nothing where it reports an error.
pub uninterp spec fn unbrotlied(stream: Seq<u8>, buffer: usize) -> Option<Seq<u8>>;

/// `flate2::write::GzEncoder` over a `Vec`: `new`, `write_all` and `finish`. The
/// stream depends on the data and the level alone, and the decoder reads the
/// data back from it. Levels go from 0 to 9.
#[verifier::external_body]
fn encode_gzip(data: &[u8], level: u32) -> (r: Option<Vec<u8>>)
    requires
        level <= 9,
    ensures
        match r {
            Some(stream) => {
                &&& gzip_stream(data@, level) == Some(stream@)
                &&& gunzipped(stream@) == Some(data@)
            },
            None => gzip_stream(data@, level) is None,
        },
{
    let mut encoder = flate2::write::GzEncoder::new(Vec::new(), flate2::Compression::new(level));
    encoder.write_all(data).ok()?;
    encoder.finish().ok()
}

/// `flate2::read::GzDecoder`, read to its end.
#[verifier::external_body]
fn decode_gzip(stream: &[u8]) -> (r: Option<Vec<u8>>)
    ensures
        match r {
            Some(data) => gunzipped(stream@) == Some(data@),
            None => gunzipped(stream@) is None,
        },
{
    let mut out = Vec::new();
    flate2::read::GzDecoder::new(stream).read_to_end(&mut out).ok()?;
    Some(out)
}

/// `brotli::CompressorWriter` over a `Vec`: `new` and `write_all`, with the end
/// of the stream written when the writer is dropped. The decoder, with a buffer
/// of the same size, reads the data back from the stream. Qualities go from 0 to 11, windows from 10 to 24.
#[verifier::external_body]
fn encode_brotli(data: &[u8], quality: u32, buffer: usize, window: u32) -> (r: Option<Vec<u8>>)
    requires
        quality <= 11,
        0 < buffer,
        10 <= window <= 24,
    ensures
        match r {
            Some(stream) => {
                &&& brotli_writes(data@, quality, buffer, window, Some(stream@))
                &&& unbrotlied(stream@, buffer) == Some(data@)
            },
            None => brotli_writes(data@, quality, buffer, window, None),
        },
{
    let mut out = Vec::new();
    {
        let mut encoder = brotli::CompressorWriter::new(&mut out, buffer, quality, window);
        encoder.write_all(data).ok()?;
    }
    Some(out)
}

/// `brotli::Decompressor`, read to its end.
#[verifier::external_body]
fn decode_brotli(stream: &[u8], buffer: usize) -> (r: Option<Vec<u8>>)
    requires
        0 < buffer,
    ensures
        match r {
            Some(data) => unbrotlied(stream@, buffer) == Some(data@),
            None => unbrotlied(stream@, buffer) is None,
        },
{
    let mut out = Vec::new();
    brotli::Decompressor::new(stream, buffer).read_to_end(&mut out).ok()?;
    Some(out)
}

/// The level that gzip takes: between 1 and 9.
pub open spec fn gzip_level(level: u32) -> u32 {
    if level < 1 {
        1
    } else if level > 9 {
        9
    } else {
        level
    }
}

/// The quality that brotli takes: at most 11.
pub open spec fn brotli_quality(level: u32) -> u32 {
    if level > 11 {
        11
    } else {
        level
    }
}

/// Compresses data with gzip, at a level clamped to 1 to 9.
pub fn gzip(data: &[u8], level: u32) -> (r: Option<Vec<u8>>)
    ensures
        match r {
            Some(stream) => {
                &&& gzip_stream(data@, gzip_level(level)) == Some(stream@)
                &&& gunzipped(stream@) == Some(data@)
            },
            None => gzip_stream(data@, gzip_level(level)) is None,
        },
{
    let level: u32 = if level < 1 {
        1
    } else if level > 9 {
        9
    } else {
        level
    };
    encode_gzip(data, level)
}

/// Compresses data with brotli, at a quality clamped to 11.
pub fn brotli(data: &[u8], level: u32) -> (r: Option<Vec<u8>>)
    ensures
        match r {
            Some(stream) => {
                &&& brotli_writes(
                    data@,
                    brotli_quality(level),
                    BROTLI_BUF,
                    BROTLI_LGWIN,
                    Some(stream@),
                )
                &&& unbrotlied(stream@, BROTLI_BUF) == Some(data@)
            },
            None => brotli_writes(
                data@,
                brotli_quality(level),
                BROTLI_BUF,
                BROTLI_LGWIN,
                None,
            ),
        },
{
    let quality: u32 = if level > 11 {
        11
    } else {
        level
    };
    encode_brotli(data, quality, BROTLI_BUF, BROTLI_LGWIN)
}

impl Encoding {
    /// The name of the encoding in HTTP.
    pub open spec fn name(self) -> Seq<char> {
        match self {
            Encoding::Brotli => "br"@,
            Encoding::Gzip => "gzip"@,
        }
    }

    /// What a client reads from a stream in this encoding.
    pub open spec fn decoded(self, stream: Seq<u8>) -> Option<Seq<u8>> {
        match self {
            Encoding::Brotli => unbrotlied(stream, BROTLI_BUF),
            Encoding::Gzip => gunzipped(stream),
        }
    }

    /// What compressing a body at a level may yield: a stream that the client
    /// reads the body back from, or nothing.
    pub open spec fn may_yield(self, body: Seq<u8>, level: u32, out: Option<Seq<u8>>) -> bool {
        &&& (match self {
            Encoding::Brotli => brotli_writes(
                body,
                brotli_quality(level),
                BROTLI_BUF,
                BROTLI_LGWIN,
                out,
            ),
            Encoding::Gzip => out == gzip_stream(body, gzip_level(level)),
        })
        &&& (out is Some ==> self.decoded(out->0) == Some(body))
    }

    /// Compressing a body at a level may make it smaller.
    pub open spec fn may_shrink(self, body: Seq<u8>, level: u32) -> bool {
        exists|out: Option<Seq<u8>>| #[trigger]
            self.may_yield(body, level, out) && out is Some && out->0.len() < body.len()
    }

    /// Compressing a body at a level always comes to the same.
    pub open spec fn is_steady(self, body: Seq<u8>, level: u32) -> bool {
        forall|a: Option<Seq<u8>>, b: Option<Seq<u8>>| #[trigger]
            self.may_yield(body, level, a) && #[trigger] self.may_yield(body, level, b) ==> a == b
    }

    /// The name of the encoding in HTTP.
    pub fn token(self) -> (r: &'static str)
        ensures
            r@ == self.name(),
    {
        match self {
            Encoding::Brotli => "br",
            Encoding::Gzip => "gzip",
        }
    }

    /// Reads a stream in this encoding, as a client does.
    pub fn decode(self, stream: &[u8]) -> (r: Option<Vec<u8>>)
        ensures
            match r {
                Some(data) => self.decoded(stream@) == Some(data@),
                None => self.decoded(stream@) is None,
            },
    {
        match self {
            Encoding::Brotli => decode_brotli(stream, BROTLI_BUF),
            Encoding::Gzip => decode_gzip(stream),
        }
    }

    /// Compresses a body.
    fn encode(self, body: &[u8], level: u32) -> (r: Option<Vec<u8>>)
        ensures
            self.may_yield(
                body@,
                level,
                match r {
                    Some(b) => Some(b@),
                    None => None,
                },
            ),
    {
        match self {
            Encoding::Brotli => brotli(body, level),
            Encoding::Gzip => gzip(body, level),
        }
    }
}

// ---------------------------------------------------------------------------
// Negotiation
// ---------------------------------------------------------------------------

/// The weight of an offer: its last `q` parameter decides whether the offer
/// stands; without one it does. The first field is the offer's name.
pub open spec fn offer_stands(fields: Seq<Seq<char>>) -> bool
    decreases fields.len(),
{
    if fields.len() <= 1 {
        true
    } else {
        let param = text::trimmed(fields.last());
        if "q="@.is_prefix_of(param) {
            weight::is_positive(text::trimmed(param.skip(2)))
        } else {
            offer_stands(fields.drop_last())
        }
    }
}

/// The name of an offer.
pub open spec fn offer_name(part: Seq<char>) -> Seq<char> {
    text::trimmed(text::pieces(part, ';')[0])
}

/// Whether the last offer that is picked stands.
pub open spec fn last_offer(
    parts: Seq<Seq<char>>,
    pick: spec_fn(Seq<char>) -> bool,
) -> Option<bool>
    decreases parts.len(),
{
    if parts.len() == 0 {
        None
    } else if pick(offer_name(parts.last())) {
        Some(offer_stands(text::pieces(parts.last(), ';')))
    } else {
        last_offer(parts.drop_last(), pick)
    }
}

/// Offers of an encoding by its name.
pub open spec fn by_name(token: Seq<char>) -> spec_fn(Seq<char>) -> bool {
    |name: Seq<char>| text::same_ignoring_case(name, token)
}

/// Offers of every other encoding.
pub open spec fn by_wildcard(token: Seq<char>) -> spec_fn(Seq<char>) -> bool {
    |name: Seq<char>| name == "*"@ && !text::same_ignoring_case(name, token)
}

/// The `Accept-Encoding` value accepts an encoding: an offer by name decides,
/// else a wildcard, else it does not.
pub open spec fn accepted(accept_encoding: Seq<char>, token: Seq<char>) -> bool {
    let parts = text::pieces(accept_encoding, ',');
    match last_offer(parts, by_name(token)) {
        Some(stands) => stands,
        None => match last_offer(parts, by_wildcard(token)) {
            Some(stands) => stands,
            None => false,
        },
    }
}

/// Whether an offer, given as its fields, stands.
fn stands(fields: &Vec<&str>) -> (r: bool)
    requires
        fields.len() > 0,
    ensures
        r == offer_stands(fields@.map_values(|p: &str| p@)),
{
    let ghost all = fields@.map_values(|p: &str| p@);
    let mut n: usize = fields.len();
    assert(all.take(n as int) =~= all);
    while n > 1
        invariant
            1 <= n <= fields.len(),
            all == fields@.map_values(|p: &str| p@),
            offer_stands(all) == offer_stands(all.take(n as int)),
        decreases n,
    {
        let param: &str = text::trim(fields[n - 1]);
        assert(all.take(n as int).last() == fields@[n - 1]@);
        if text::starts_with(param, "q=") {
            proof {
                reveal_strlit("q=");
            }
            let len: usize = param.unicode_len();
            return weight::positive(text::trim(param.substring_char(2, len)));
        }
        assert(all.take(n as int).drop_last() =~= all.take(n - 1));
        n -= 1;
    }
    true
}

/// Whether an `Accept-Encoding` value accepts an encoding.
pub fn accepts(accept_encoding: &str, token: &str) -> (r: bool)
    ensures
        r == accepted(accept_encoding@, token@),
{
    let parts: Vec<&str> = text::split(accept_encoding, ',');
    let ghost all = text::pieces(accept_encoding@, ',');
    let mut explicit: Option<bool> = None;
    let mut wildcard: Option<bool> = None;
    let mut i: usize = 0;
    assert(all.take(0) =~= Seq::empty());
    while i < parts.len()
        invariant
            i <= parts.len(),
            all =~= parts@.map_values(|p: &str| p@),
            explicit == last_offer(all.take(i as int), by_name(token@)),
            wildcard == last_offer(all.take(i as int), by_wildcard(token@)),
        decreases parts.len() - i,
    {
        let fields: Vec<&str> = text::split(parts[i], ';');
        let ghost named = text::pieces(all[i as int], ';');
        assert(all[i as int] == parts@[i as int]@);
        assert(named[0] == fields@[0]@);
        let name: &str = text::trim(fields[0]);
        let acceptable: bool = stands(&fields);
        assert(all.take(i + 1).drop_last() =~= all.take(i as int));
        assert(all.take(i + 1).last() == all[i as int]);
        if text::eq_ignore_case(name, token) {
            explicit = Some(acceptable);
        } else if text::same(name, "*") {
            wildcard = Some(acceptable);
        }
        i += 1;
    }
    assert(all.take(i as int) =~= all);
    match explicit {
        Some(stands) => stands,
        None => match wildcard {
            Some(stands) => stands,
            None => false,
        },
    }
}

// ---------------------------------------------------------------------------
// Which responses are compressed
// ---------------------------------------------------------------------------

/// The content type contains one of the configured parts.
pub open spec fn compressible(content_type: Seq<char>, types: Seq<Seq<char>>) -> bool {
    exists|i: int|
        0 <= i < types.len() && text::occurs(text::lower(content_type), #[trigger] types[i])
}

/// The status has no body, or a part of one.
pub open spec fn status_forbids(status: u16) -> bool {
    status < 200 || status == 204 || status == 304 || status == 206
}

/// True when the content type contains one of the configured parts.
pub fn is_compressible(content_type: &str, types: &[String]) -> (r: bool)
    ensures
        r == compressible(content_type@, config::texts(types@)),
{
    let ghost all = config::texts(types@);
    let ct: String = text::to_lower(content_type);
    let mut i: usize = 0;
    while i < types.len()
        invariant
            i <= types.len(),
            all == config::texts(types@),
            ct@ == text::lower(content_type@),
            forall|j: int| 0 <= j < i ==> !text::occurs(ct@, #[trigger] all[j]),
        decreases types.len() - i,
    {
        assert(all[i as int] == types@[i as int]@);
        if text::contains(ct.as_str(), types[i].as_str()) {
            return true;
        }
        i += 1;
    }
    false
}

/// True when the status carries no body or a partial body.
pub fn status_forbids_compression(status: u16) -> (r: bool)
    ensures
        r == status_forbids(status),
{
    status < 200 || status == 204 || status == 304 || status == 206
}

/// A `Vary` value that names `Accept-Encoding`.
pub open spec fn names_accept_encoding(vary: Seq<char>) -> bool {
    exists|i: int|
        0 <= i < text::pieces(vary, ',').len() && text::same_ignoring_case(
            text::trimmed(#[trigger] text::pieces(vary, ',')[i]),
            "accept-encoding"@,
        )
}

/// The edits that add `Accept-Encoding` to `Vary`, unless it is there or `Vary`
/// is `*`.
pub open spec fn vary_added(edits: EditsModel) -> EditsModel {
    match edits.reply.header("Vary"@) {
        Some(existing) => if names_accept_encoding(existing) || text::same_ignoring_case(
            text::trimmed(existing),
            "*"@,
        ) {
            edits
        } else {
            edits.set_header("Vary"@, text::trimmed(existing) + ", Accept-Encoding"@)
        },
        None => edits.set_header("Vary"@, "Accept-Encoding"@),
    }
}

/// The edits once the body was compressed: made only where it got smaller.
pub open spec fn finished(
    edits: EditsModel,
    encoding: Encoding,
    compressed: Option<Seq<u8>>,
) -> EditsModel {
    match compressed {
        Some(stream) => if stream.len() < edits.reply.body.len() {
            vary_added(edits.set_header("Content-Encoding"@, encoding.name())).set_body(stream)
        } else {
            edits
        },
        None => edits,
    }
}

impl CompressModel {
    /// The encoding that the client accepts and the policy offers, brotli first.
    pub open spec fn negotiated(self, accept_encoding: Seq<char>) -> Option<Encoding> {
        if self.brotli && accepted(accept_encoding, "br"@) {
            Some(Encoding::Brotli)
        } else if self.gzip && accepted(accept_encoding, "gzip"@) {
            Some(Encoding::Gzip)
        } else {
            None
        }
    }

    /// The encoding for a response to a request; `None` where the response is
    /// left alone.
    pub open spec fn encoding_for(self, req: RequestModel, reply: ReplyModel) -> Option<Encoding> {
        let fixed = match reply.header("Cache-Control"@) {
            Some(v) => text::occurs(text::lower(v), "no-transform"@),
            None => false,
        };
        let content_type = match reply.header("Content-Type"@) {
            Some(v) => v,
            None => ""@,
        };
        let accept = match req.header("Accept-Encoding"@) {
            Some(v) => v,
            None => ""@,
        };
        if reply.header("Content-Encoding"@) is Some || status_forbids(reply.status) || reply.header("Content-Range"@) is Some
            || fixed || !compressible(content_type, self.types) || reply.body.len()
            < self.min_size {
            None
        } else {
            self.negotiated(accept)
        }
    }

    /// What the response phase may leave of a response: the response as it was
    /// where no encoding is for it, else the edits for what the encoder came to.
    pub open spec fn may_leave(
        self,
        req: RequestModel,
        before: EditsModel,
        after: EditsModel,
    ) -> bool {
        match self.encoding_for(req, before.reply) {
            None => after == before,
            Some(encoding) => exists|out: Option<Seq<u8>>| #[trigger]
                encoding.may_yield(before.reply.body, self.level, out) && after == finished(
                    before,
                    encoding,
                    out,
                ),
        }
    }

    /// The `level` setting.
    pub open spec fn level_setting(config: JsonModel) -> Result<u32, Seq<char>> {
        match config::u64_or(config, "level"@, 5) {
            Ok(n) => if 1 <= n <= 9 {
                Ok(n as u32)
            } else {
                Err(config::must_be("level"@, "between 1 and 9"@, text::decimal(n as nat)))
            },
            Err(e) => Err(e),
        }
    }

    /// The `min_size` setting.
    pub open spec fn min_size_setting(config: JsonModel) -> Result<usize, Seq<char>> {
        match config::u64_or(config, "min_size"@, 1024) {
            Ok(n) => if n <= usize::MAX {
                Ok(n as usize)
            } else {
                Err("`min_size` is too large"@)
            },
            Err(e) => Err(e),
        }
    }

    /// The entries of a list that are not empty, in lower case.
    pub open spec fn filled_lower(list: Seq<Seq<char>>) -> Seq<Seq<char>>
        decreases list.len(),
    {
        if list.len() == 0 {
            Seq::empty()
        } else {
            let before = Self::filled_lower(list.drop_last());
            if list.last().len() == 0 {
                before
            } else {
                before.push(text::lower(list.last()))
            }
        }
    }

    /// The `types` setting.
    pub open spec fn types_setting(config: JsonModel) -> Result<Seq<Seq<char>>, Seq<char>> {
        match config.setting("types"@) {
            None => Ok(seq!["text/"@, "javascript"@, "json"@, "xml"@, "svg"@]),
            Some(v) => match v.node {
                NodeModel::Array(items) => match config::collect(
                    items,
                    config::text_entry("types"@),
                ) {
                    Ok(list) => Ok(Self::filled_lower(list)),
                    Err(e) => Err(e),
                },
                _ => Err(config::must_be("types"@, "an array"@, v.text)),
            },
        }
    }

    /// The policy that a configuration describes, or the first setting that is
    /// refused.
    pub open spec fn configured(config: JsonModel) -> Result<CompressModel, Seq<char>> {
        match (
            Self::level_setting(config),
            Self::min_size_setting(config),
            Self::types_setting(config),
            config::bool_or(config, "brotli"@, true),
            config::bool_or(config, "gzip"@, true),
        ) {
            (Err(e), _, _, _, _) => Err(e),
            (_, Err(e), _, _, _) => Err(e),
            (_, _, Err(e), _, _) => Err(e),
            (_, _, _, Err(e), _) => Err(e),
            (_, _, _, _, Err(e)) => Err(e),
            (Ok(level), Ok(min_size), Ok(types), Ok(brotli), Ok(gzip)) => if !brotli && !gzip {
                Err("at least one of `brotli` / `gzip` must be enabled"@)
            } else {
                Ok(CompressModel { brotli, gzip, level, min_size, types })
            },
        }
    }

    /// What every configured policy keeps: a level between 1 and 9, and an
    /// encoding to offer.
    pub open spec fn well_formed(self) -> bool {
        &&& 1 <= self.level <= 9
        &&& self.brotli || self.gzip
    }
}

fn read_types(config: &Json) -> (r: Result<Vec<String>, String>)
    ensures
        match r {
            Ok(list) => CompressModel::types_setting(config@) == Ok::<_, Seq<char>>(
                config::texts(list@),
            ),
            Err(e) => CompressModel::types_setting(config@) == Err::<Seq<Seq<char>>, _>(e@),
        },
{
    let v: &Json = match config.setting("types") {
        None => {
            let list: Vec<String> = vec![
                "text/".to_owned(),
                "javascript".to_owned(),
                "json".to_owned(),
                "xml".to_owned(),
                "svg".to_owned(),
            ];
            assert(config::texts(list@) =~= seq!["text/"@, "javascript"@, "json"@, "xml"@, "svg"@]);
            return Ok(list);
        },
        Some(v) => v,
    };
    let items: &Vec<Json> = match v.as_array() {
        Some(items) => items,
        None => return Err(config::say_must_be("types", "an array", v.text.as_str())),
    };
    let list: Vec<String> = match config::read_strings(items, "types") {
        Ok(list) => list,
        Err(e) => return Err(e),
    };
    let ghost all = config::texts(list@);
    let mut out: Vec<String> = Vec::new();
    let mut i: usize = 0;
    assert(all.take(0) =~= Seq::empty());
    assert(config::texts(out@) =~= Seq::empty());
    while i < list.len()
        invariant
            i <= list.len(),
            all == config::texts(list@),
            config::texts(out@) == CompressModel::filled_lower(all.take(i as int)),
        decreases list.len() - i,
    {
        assert(all.take(i + 1).drop_last() =~= all.take(i as int));
        if !list[i].as_str().is_empty() {
            let low: String = text::to_lower(list[i].as_str());
            proof {
                config::lemma_texts_push(out@, low);
            }
            out.push(low);
        }
        i += 1;
    }
    assert(all.take(i as int) =~= all);
    Ok(out)
}

impl Compress {
    /// Reads the policy from a module's configuration.
    pub fn init(config: &Json) -> (r: Result<Compress, String>)
        ensures
            match r {
                Ok(m) => {
                    &&& CompressModel::configured(config@) == Ok::<_, Seq<char>>(m@)
                    &&& m@.well_formed()
                },
                Err(e) => CompressModel::configured(config@) == Err::<CompressModel, _>(e@),
            },
    {
        let level: u32 = match config::opt_u64(config, "level", 5) {
            Ok(n) => if 1 <= n && n <= 9 {
                n as u32
            } else {
                return Err(
                    config::say_must_be("level", "between 1 and 9", text::number(n).as_str()),
                );
            },
            Err(e) => return Err(e),
        };
        let min_size: usize = match config::opt_u64(config, "min_size", 1024) {
            Ok(n) => if n <= usize::MAX as u64 {
                n as usize
            } else {
                return Err("`min_size` is too large".to_owned());
            },
            Err(e) => return Err(e),
        };
        let types: Vec<String> = match read_types(config) {
            Ok(list) => list,
            Err(e) => return Err(e),
        };
        let brotli: bool = match config::opt_bool(config, "brotli", true) {
            Ok(b) => b,
            Err(e) => return Err(e),
        };
        let gzip: bool = match config::opt_bool(config, "gzip", true) {
            Ok(b) => b,
            Err(e) => return Err(e),
        };
        if !brotli && !gzip {
            return Err("at least one of `brotli` / `gzip` must be enabled".to_owned());
        }
        Ok(Compress { brotli, gzip, level, min_size, types })
    }

    /// The request phase lets every request pass.
    pub fn invoke(&self, _req: &Request) -> (r: Response)
        ensures
            r@ == ResponseModel::cont(),
    {
        Response::cont()
    }

    /// The encoding that the client accepts and the policy offers.
    pub fn negotiate(&self, accept_encoding: &str) -> (r: Option<Encoding>)
        ensures
            r == self@.negotiated(accept_encoding@),
    {
        if self.brotli && accepts(accept_encoding, "br") {
            return Some(Encoding::Brotli);
        }
        if self.gzip && accepts(accept_encoding, "gzip") {
            return Some(Encoding::Gzip);
        }
        None
    }

    /// Adds `Accept-Encoding` to `Vary`, keeping what is there.
    pub fn apply_vary(resp: &mut ResponseView)
        ensures
            final(resp)@ == vary_added(old(resp)@),
    {
        let value: String = match resp.header("Vary") {
            Some(existing) => {
                let parts: Vec<&str> = text::split(existing, ',');
                let ghost all = text::pieces(existing@, ',');
                let mut i: usize = 0;
                while i < parts.len()
                    invariant
                        i <= parts.len(),
                        all =~= parts@.map_values(|p: &str| p@),
                        all == text::pieces(existing@, ','),
                        resp@ == old(resp)@,
                        resp@.reply.header("Vary"@) == Some(existing@),
                        forall|j: int|
                            0 <= j < i ==> !text::same_ignoring_case(
                                text::trimmed(#[trigger] all[j]),
                                "accept-encoding"@,
                            ),
                    decreases parts.len() - i,
                {
                    assert(all[i as int] == parts@[i as int]@);
                    if text::eq_ignore_case(text::trim(parts[i]), "accept-encoding") {
                        return ;
                    }
                    i += 1;
                }
                let kept: &str = text::trim(existing);
                if text::eq_ignore_case(kept, "*") {
                    return ;
                }
                kept.to_owned().concat(", Accept-Encoding")
            },
            None => "Accept-Encoding".to_owned(),
        };
        resp.set_header("Vary", value.as_str());
    }

    /// The encoding for a response; `None` where the response is left alone.
    pub fn choose_encoding(&self, req: &Request, resp: &ResponseView) -> (r: Option<Encoding>)
        ensures
            r == self@.encoding_for(req@, resp@.reply),
    {
        if resp.header("Content-Encoding").is_some() {
            return None;
        }
        if status_forbids_compression(resp.reply.status) {
            return None;
        }
        if resp.header("Content-Range").is_some() {
            return None;
        }
        if let Some(v) = resp.header("Cache-Control") {
            if text::contains(text::to_lower(v).as_str(), "no-transform") {
                return None;
            }
        }
        let content_type: &str = match resp.header("Content-Type") {
            Some(v) => v,
            None => "",
        };
        if !is_compressible(content_type, self.types.as_slice()) {
            return None;
        }
        if resp.reply.body.len() < self.min_size {
            return None;
        }
        let accept: &str = match req.header("Accept-Encoding") {
            Some(v) => v,
            None => "",
        };
        self.negotiate(accept)
    }

    /// Makes the edits once the body was compressed, where it got smaller.
    pub fn finish(resp: &mut ResponseView, encoding: Encoding, compressed: Option<Vec<u8>>)
        ensures
            final(resp)@ == finished(
                old(resp)@,
                encoding,
                match compressed {
                    Some(stream) => Some(stream@),
                    None => None,
                },
            ),
    {
        if let Some(stream) = compressed {
            if stream.len() < resp.reply.body.len() {
                resp.set_header("Content-Encoding", encoding.token());
                Self::apply_vary(resp);
                resp.set_body(stream);
            }
        }
    }

    /// The response phase: compresses the body where the response, the client
    /// and the policy allow it and where that makes it smaller.
    pub fn invoke_response(&self, req: &Request, resp: &mut ResponseView)
        ensures
            self@.may_leave(req@, old(resp)@, final(resp)@),
    {
        let encoding: Encoding = match self.choose_encoding(req, resp) {
            Some(encoding) => encoding,
            None => return ,
        };
        let compressed: Option<Vec<u8>> = encoding.encode(resp.reply.body.as_slice(), self.level);
        let ghost out = match &compressed {
            Some(stream) => Some(stream@),
            None => None,
        };
        assert(encoding.may_yield(resp@.reply.body, self@.level, out));
        Self::finish(resp, encoding, compressed);
    }
}

// ---------------------------------------------------------------------------
// What the client gets
// ---------------------------------------------------------------------------

/// A `Vary` value under which caches keep the encodings apart.
pub open spec fn varies(vary: Option<Seq<char>>) -> bool {
    match vary {
        Some(v) => names_accept_encoding(v) || text::same_ignoring_case(text::trimmed(v), "*"@),
        None => false,
    }
}

/// Every token of one `Vary` value stands in another.
pub open spec fn keeps_tokens(before: Seq<char>, after: Seq<char>) -> bool {
    forall|i: int|
        0 <= i < text::pieces(before, ',').len() ==> exists|j: int|
            0 <= j < text::pieces(after, ',').len() && text::trimmed(
                #[trigger] text::pieces(after, ',')[j],
            ) == text::trimmed(#[trigger] text::pieces(before, ',')[i])
}

/// The reply after compression is the reply as it came, or one in the encoding
/// that its `Content-Encoding` names, with a smaller body that the client reads
/// the uncompressed body back from, under the same status.
pub proof fn law_client_reads_the_body_back(
    reply: ReplyModel,
    encoding: Encoding,
    level: u32,
    out: Option<Seq<u8>>,
)
    requires
        encoding.may_yield(reply.body, level, out),
    ensures
        ({
            let sent = finished(EditsModel::of(reply), encoding, out).applied();
            ||| sent == reply
            ||| {
                &&& sent.status == reply.status
                &&& sent.header("Content-Encoding"@) == Some(encoding.name())
                &&& encoding.decoded(sent.body) == Some(reply.body)
                &&& sent.body.len() < reply.body.len()
            }
        }),
{
    let edits = EditsModel::of(reply);
    lemma_edited_headers(reply, encoding);
    if out is Some && out->0.len() < reply.body.len() {
        let coded = edits.set_header("Content-Encoding"@, encoding.name());
        assert(vary_added(coded).set_body(out->0).applied().headers == vary_added(
            coded,
        ).applied().headers);
    } else {
        assert(edits.applied() == reply);
    }
}

/// A compressed reply varies by `Accept-Encoding`, and no token of its `Vary`
/// header is lost.
pub proof fn law_vary_is_extended(reply: ReplyModel, encoding: Encoding, stream: Seq<u8>)
    requires
        stream.len() < reply.body.len(),
    ensures
        ({
            let sent = finished(EditsModel::of(reply), encoding, Some(stream)).applied();
            &&& varies(sent.header("Vary"@))
            &&& reply.header("Vary"@) is Some ==> keeps_tokens(
                reply.header("Vary"@)->0,
                sent.header("Vary"@)->0,
            )
        }),
{
    let edits = EditsModel::of(reply);
    let coded = edits.set_header("Content-Encoding"@, encoding.name());
    assert(vary_added(coded).set_body(stream).applied().headers == vary_added(
        coded,
    ).applied().headers);
    lemma_edited_headers(reply, encoding);
    lemma_names_accept_encoding();
    match reply.header("Vary"@) {
        Some(existing) => {
            if coded == vary_added(coded) {
                assert forall|i: int| 0 <= i < text::pieces(existing, ',').len() implies exists|
                    j: int,
                |
                    0 <= j < text::pieces(existing, ',').len() && text::trimmed(
                        #[trigger] text::pieces(existing, ',')[j],
                    ) == text::trimmed(#[trigger] text::pieces(existing, ',')[i]) by {
                    assert(text::trimmed(text::pieces(existing, ',')[i]) == text::trimmed(
                        text::pieces(existing, ',')[i],
                    ));
                }
            } else {
                lemma_vary_appended(existing);
            }
        },
        None => {},
    }
}

/// The headers of a compressed reply.
proof fn lemma_edited_headers(reply: ReplyModel, encoding: Encoding)
    ensures
        ({
            let coded = EditsModel::of(reply).set_header("Content-Encoding"@, encoding.name());
            let sent = vary_added(coded).applied();
            &&& sent.header("Content-Encoding"@) == Some(encoding.name())
            &&& sent.header("Vary"@) == (if vary_added(coded) == coded {
                reply.header("Vary"@)
            } else {
                Some(vary_added(coded).set.last().1)
            })
        }),
{
    reveal_strlit("Content-Encoding");
    reveal_strlit("Vary");
    let (ce, vary) = ("Content-Encoding"@, "Vary"@);
    assert(text::lower(ce).len() != text::lower(vary).len());
    let coded = EditsModel::of(reply).set_header(ce, encoding.name());
    let h = reply.headers;
    let name = encoding.name();
    assert(coded.set.drop_last() =~= Seq::empty());
    http::law_set_header_is_read(h, ce, name, ce);
    http::law_set_header_is_read(h, ce, name, vary);
    assert(coded.applied().headers == http::with_header(h, ce, name)) by {
        assert(http::with_all(h, coded.set.drop_last()) == h);
    }
    if vary_added(coded) != coded {
        let value = vary_added(coded).set.last().1;
        assert(vary_added(coded).set.drop_last() =~= coded.set);
        http::law_set_header_is_read(coded.applied().headers, vary, value, ce);
        http::law_set_header_is_read(coded.applied().headers, vary, value, vary);
    }
}

proof fn lemma_names_accept_encoding()
    ensures
        names_accept_encoding("Accept-Encoding"@),
        text::same_ignoring_case(text::trimmed(" Accept-Encoding"@), "accept-encoding"@),
        !" Accept-Encoding"@.contains(','),
{
    reveal_strlit("Accept-Encoding");
    reveal_strlit(" Accept-Encoding");
    reveal_strlit("accept-encoding");
    let s = "Accept-Encoding"@;
    text::lemma_one_piece(s, ',');
    assert(text::trimmed(s) == s);
    assert(text::lower(s) =~= text::lower("accept-encoding"@));
    assert(text::same_ignoring_case(
        text::trimmed(text::pieces(s, ',')[0]),
        "accept-encoding"@,
    ));
    assert(" Accept-Encoding"@.drop_first() =~= s);
    assert(text::trimmed_start(" Accept-Encoding"@) == text::trimmed_start(s));
}

proof fn lemma_vary_appended(existing: Seq<char>)
    ensures
        names_accept_encoding(text::trimmed(existing) + ", Accept-Encoding"@),
        keeps_tokens(existing, text::trimmed(existing) + ", Accept-Encoding"@),
{
    reveal_strlit(", Accept-Encoding");
    reveal_strlit(" Accept-Encoding");
    lemma_names_accept_encoding();
    let kept = text::trimmed(existing);
    let after = kept + ", Accept-Encoding"@;
    let tail = " Accept-Encoding"@;
    assert(after =~= kept.push(',') + tail);
    text::lemma_pieces_join(kept, ',', tail);
    text::lemma_one_piece(tail, ',');
    text::lemma_trimmed_pieces(existing, ',');
    let n = text::pieces(kept, ',').len() as int;
    assert(text::pieces(after, ',')[n] == tail);
    assert forall|i: int| 0 <= i < text::pieces(existing, ',').len() implies exists|j: int|
        0 <= j < text::pieces(after, ',').len() && text::trimmed(
            #[trigger] text::pieces(after, ',')[j],
        ) == text::trimmed(#[trigger] text::pieces(existing, ',')[i]) by {
        assert(text::pieces(after, ',')[i] == text::pieces(kept, ',')[i]);
    }
}

/// A compressed reply is never compressed again, under any policy and for any
/// client.
pub proof fn law_never_encoded_twice(
    reply: ReplyModel,
    encoding: Encoding,
    stream: Seq<u8>,
    p: CompressModel,
    req: RequestModel,
)
    requires
        stream.len() < reply.body.len(),
    ensures
        p.encoding_for(
            req,
            finished(EditsModel::of(reply), encoding, Some(stream)).applied(),
        ) is None,
{
    let coded = EditsModel::of(reply).set_header("Content-Encoding"@, encoding.name());
    assert(vary_added(coded).set_body(stream).applied().headers == vary_added(
        coded,
    ).applied().headers);
    lemma_edited_headers(reply, encoding);
}

/// The response phase makes no edit to a reply that it has been over before: one
/// that it skipped, one that it compressed, and one that did not get smaller.
///
/// Only a reply that brotli did not make smaller, though it may, is left out: the
/// encoder may write another stream the next time.
pub proof fn law_second_pass_changes_nothing(
    p: CompressModel,
    req: RequestModel,
    reply: ReplyModel,
    first: EditsModel,
    second: EditsModel,
)
    requires
        p.may_leave(req, EditsModel::of(reply), first),
        p.may_leave(req, EditsModel::of(first.applied()), second),
        p.encoding_for(req, reply) == Some(Encoding::Brotli) && first == EditsModel::of(reply)
            ==> !Encoding::Brotli.may_shrink(reply.body, p.level),
    ensures
        second == EditsModel::of(first.applied()),
        second.applied() == first.applied(),
{
    lemma_no_edits(reply);
    lemma_no_edits(first.applied());
    match p.encoding_for(req, reply) {
        None => {},
        Some(encoding) => {
            let out = choose|out: Option<Seq<u8>>| #[trigger]
                encoding.may_yield(reply.body, p.level, out) && first == finished(
                    EditsModel::of(reply),
                    encoding,
                    out,
                );
            if first != EditsModel::of(reply) {
                law_never_encoded_twice(reply, encoding, out->0, p, req);
            }
        },
    }
}

/// Where the encoder comes to the same for a body each time, the response phase
/// applied twice is the response phase applied once, for every reply. Gzip always
/// does.
pub proof fn law_steady_phase_is_idempotent(
    p: CompressModel,
    req: RequestModel,
    reply: ReplyModel,
    first: EditsModel,
    second: EditsModel,
)
    requires
        p.may_leave(req, EditsModel::of(reply), first),
        p.may_leave(req, EditsModel::of(first.applied()), second),
        p.encoding_for(req, reply) == Some(Encoding::Brotli) ==> Encoding::Brotli.is_steady(
            reply.body,
            p.level,
        ),
    ensures
        Encoding::Gzip.is_steady(reply.body, p.level),
        second == EditsModel::of(first.applied()),
        second.applied() == first.applied(),
{
    let encoding = Encoding::Brotli;
    if p.encoding_for(req, reply) == Some(encoding) && first == EditsModel::of(reply) {
        let out = choose|out: Option<Seq<u8>>| #[trigger]
            encoding.may_yield(reply.body, p.level, out) && first == finished(
                EditsModel::of(reply),
                encoding,
                out,
            );
        if out is Some && out->0.len() < reply.body.len() {
            assert(first.body == Some(out->0));
        }
    }
    law_second_pass_changes_nothing(p, req, reply, first, second);
}

/// However often the response phase goes over a reply, its body is encoded once
/// at most: after two passes the client has the reply as it came, or reads the
/// body back by the one encoding that `Content-Encoding` names.
pub proof fn law_body_is_encoded_once(
    p: CompressModel,
    req: RequestModel,
    reply: ReplyModel,
    first: EditsModel,
    second: EditsModel,
)
    requires
        p.may_leave(req, EditsModel::of(reply), first),
        p.may_leave(req, EditsModel::of(first.applied()), second),
    ensures
        ({
            let sent = second.applied();
            ||| sent == reply
            ||| exists|encoding: Encoding|
                sent.header("Content-Encoding"@) == Some(encoding.name()) && (
                #[trigger] encoding.decoded(sent.body)) == Some(reply.body) && sent.status
                    == reply.status
        }),
{
    lemma_no_edits(reply);
    lemma_no_edits(first.applied());
    match p.encoding_for(req, reply) {
        None => {},
        Some(encoding) => {
            if first == EditsModel::of(reply) {
                let out = choose|out: Option<Seq<u8>>| #[trigger]
                    encoding.may_yield(reply.body, p.level, out) && second == finished(
                        EditsModel::of(reply),
                        encoding,
                        out,
                    );
                law_client_reads_the_body_back(reply, encoding, p.level, out);
                assert(second.applied() == reply || encoding.decoded(second.applied().body)
                    == Some(reply.body));
            } else {
                let out = choose|out: Option<Seq<u8>>| #[trigger]
                    encoding.may_yield(reply.body, p.level, out) && first == finished(
                        EditsModel::of(reply),
                        encoding,
                        out,
                    );
                law_second_pass_changes_nothing(p, req, reply, first, second);
                law_client_reads_the_body_back(reply, encoding, p.level, out);
                assert(second.applied() == reply || encoding.decoded(second.applied().body)
                    == Some(reply.body));
            }
        },
    }
}

/// A reply without edits is sent as it came.
proof fn lemma_no_edits(reply: ReplyModel)
    ensures
        EditsModel::of(reply).applied() == reply,
{
}

// ---------------------------------------------------------------------------
// Which replies are compressed, and how
// ---------------------------------------------------------------------------

/// A reply that nothing else excludes: of a status with a whole body, without an
/// encoding, a range or a word against changes, and large enough.
pub open spec fn may_be_changed(p: CompressModel, reply: ReplyModel) -> bool {
    &&& reply.status >= 200 && reply.status != 204 && reply.status != 206 && reply.status != 304
    &&& reply.header("Content-Encoding"@) is None
    &&& reply.header("Content-Range"@) is None
    &&& reply.header("Cache-Control"@) is Some ==> !text::occurs(
        text::lower(reply.header("Cache-Control"@)->0),
        "no-transform"@,
    )
    &&& reply.body.len() >= p.min_size
}

/// A content type may be compressed as soon as one of the configured parts, at
/// whatever place it is configured, occurs in it in any case; the reply then gets
/// the encoding that was negotiated. A type in which no part occurs is left alone.
pub proof fn law_any_configured_part_counts(
    p: CompressModel,
    req: RequestModel,
    reply: ReplyModel,
    content_type: Seq<char>,
    accept: Seq<char>,
    i: int,
)
    requires
        may_be_changed(p, reply),
        reply.header("Content-Type"@) == Some(content_type),
        req.header("Accept-Encoding"@) == Some(accept),
    ensures
        0 <= i < p.types.len() && text::occurs(text::lower(content_type), p.types[i])
            ==> p.encoding_for(req, reply) == p.negotiated(accept),
        (forall|j: int|
            0 <= j < p.types.len() ==> !text::occurs(
                text::lower(content_type),
                #[trigger] p.types[j],
            )) ==> p.encoding_for(req, reply) is None,
        0 <= i < p.types.len() && text::occurs(text::lower(content_type), p.types[i])
            ==> compressible(content_type, p.types),
{
}

/// Without any types in the configuration texts, scripts, JSON, XML and SVG are
/// compressed, in whatever case the type is written and whatever stands around
/// the word: such a reply gets the encoding that was negotiated.
pub proof fn law_default_types(
    config: JsonModel,
    p: CompressModel,
    req: RequestModel,
    reply: ReplyModel,
    before: Seq<char>,
    word: Seq<char>,
    after: Seq<char>,
    accept: Seq<char>,
)
    requires
        CompressModel::configured(config) == Ok::<_, Seq<char>>(p),
        config.setting("types"@) is None,
        may_be_changed(p, reply),
        reply.header("Content-Type"@) == Some(before + word + after),
        req.header("Accept-Encoding"@) == Some(accept),
        ({
            ||| text::same_ignoring_case(word, "text/"@)
            ||| text::same_ignoring_case(word, "javascript"@)
            ||| text::same_ignoring_case(word, "json"@)
            ||| text::same_ignoring_case(word, "xml"@)
            ||| text::same_ignoring_case(word, "svg"@)
        }),
    ensures
        p.encoding_for(req, reply) == p.negotiated(accept),
{
    reveal_strlit("text/");
    reveal_strlit("javascript");
    reveal_strlit("json");
    reveal_strlit("xml");
    reveal_strlit("svg");
    let parts = seq!["text/"@, "javascript"@, "json"@, "xml"@, "svg"@];
    assert(p.types == parts);
    assert(text::lower(parts[0]) =~= parts[0]);
    assert(text::lower(parts[1]) =~= parts[1]);
    assert(text::lower(parts[2]) =~= parts[2]);
    assert(text::lower(parts[3]) =~= parts[3]);
    assert(text::lower(parts[4]) =~= parts[4]);
    let i = if text::same_ignoring_case(word, parts[0]) {
        0int
    } else if text::same_ignoring_case(word, parts[1]) {
        1
    } else if text::same_ignoring_case(word, parts[2]) {
        2
    } else if text::same_ignoring_case(word, parts[3]) {
        3
    } else {
        4
    };
    let ct = before + word + after;
    assert(text::lower(ct) =~= text::lower(before) + text::lower(word) + text::lower(after));
    text::law_occurs(text::lower(ct), parts[i]);
    assert(text::lower(ct) == text::lower(before) + parts[i] + text::lower(after));
    law_any_configured_part_counts(p, req, reply, ct, accept, i);
}

/// A reply that something excludes is left alone, whatever the client accepts and
/// whatever its type.
pub proof fn law_excluded_replies_are_left_alone(
    p: CompressModel,
    req: RequestModel,
    reply: ReplyModel,
)
    ensures
        !may_be_changed(p, reply) ==> p.encoding_for(req, reply) is None,
        p.encoding_for(req, reply) is Some ==> reply.header("Content-Type"@) is Some || (exists|
            i: int,
        |
            0 <= i < p.types.len() && (#[trigger] p.types[i]).len() == 0),
        req.header("Accept-Encoding"@) is None ==> p.encoding_for(req, reply) is None,
{
    reveal_strlit("");
    assert(text::lower(""@) =~= ""@);
    if p.encoding_for(req, reply) is Some && reply.header("Content-Type"@) is None {
        let i = choose|i: int|
            0 <= i < p.types.len() && text::occurs(text::lower(""@), #[trigger] p.types[i]);
        let at = choose|at: int| text::occurs_at(text::lower(""@), p.types[i], at);
        assert(p.types[i].len() == 0);
    }
    if req.header("Accept-Encoding"@) is None {
        lemma_nothing_accepted("br"@);
        lemma_nothing_accepted("gzip"@);
    }
}

proof fn lemma_nothing_accepted(token: Seq<char>)
    requires
        token == "br"@ || token == "gzip"@,
    ensures
        !accepted(""@, token),
{
    reveal_strlit("");
    reveal_strlit("*");
    reveal_strlit("br");
    reveal_strlit("gzip");
    let parts = text::pieces(""@, ',');
    assert(""@ =~= Seq::<char>::empty());
    assert(parts =~= seq![Seq::<char>::empty()]);
    assert(parts.drop_last() =~= Seq::empty());
    assert(text::pieces(parts.last(), ';') =~= seq![Seq::<char>::empty()]);
    assert(offer_name(parts.last()).len() == 0);
    assert(text::lower(offer_name(parts.last())).len() == 0);
    assert(text::lower(token).len() == token.len());
    reveal_with_fuel(last_offer, 2);
}

/// Of the offers that name an encoding, in any case and with white space around
/// the name, the last decides; where none does, the last `*`; without either the
/// encoding is not accepted.
pub proof fn law_last_offer_decides(parts: Seq<Seq<char>>, token: Seq<char>, i: int)
    requires
        parts.len() > 0,
        forall|j: int| 0 <= j < parts.len() ==> !(#[trigger] parts[j]).contains(','),
    ensures
        0 <= i < parts.len() && text::same_ignoring_case(offer_name(parts[i]), token) && (forall|
            j: int,
        |
            i < j < parts.len() ==> !text::same_ignoring_case(
                offer_name(#[trigger] parts[j]),
                token,
            )) ==> accepted(text::joined(parts, ','), token) == offer_stands(
            text::pieces(parts[i], ';'),
        ),
        (forall|j: int|
            0 <= j < parts.len() ==> !text::same_ignoring_case(
                offer_name(#[trigger] parts[j]),
                token,
            )) && 0 <= i < parts.len() && offer_name(parts[i]) == "*"@ && (forall|j: int|
            i < j < parts.len() ==> offer_name(#[trigger] parts[j]) != "*"@) ==> accepted(
            text::joined(parts, ','),
            token,
        ) == offer_stands(text::pieces(parts[i], ';')),
        (forall|j: int|
            0 <= j < parts.len() ==> !text::same_ignoring_case(
                offer_name(#[trigger] parts[j]),
                token,
            ) && offer_name(parts[j]) != "*"@) ==> !accepted(text::joined(parts, ','), token),
{
    text::law_joined_texts_come_apart(parts, ',');
    lemma_last_offer(parts, by_name(token), i);
    lemma_last_offer(parts, by_wildcard(token), i);
    if forall|j: int|
        0 <= j < parts.len() ==> !text::same_ignoring_case(
            offer_name(#[trigger] parts[j]),
            token,
        ) {
        assert forall|j: int| 0 <= j < parts.len() implies !by_name(token)(
            offer_name(#[trigger] parts[j]),
        ) by {}
    }
}

proof fn lemma_last_offer(parts: Seq<Seq<char>>, pick: spec_fn(Seq<char>) -> bool, i: int)
    ensures
        0 <= i < parts.len() && pick(offer_name(parts[i])) && (forall|j: int|
            i < j < parts.len() ==> !pick(offer_name(#[trigger] parts[j]))) ==> last_offer(
            parts,
            pick,
        ) == Some(offer_stands(text::pieces(parts[i], ';'))),
        (forall|j: int| 0 <= j < parts.len() ==> !pick(offer_name(#[trigger] parts[j])))
            ==> last_offer(parts, pick) is None,
    decreases parts.len(),
{
    if parts.len() > 0 {
        let before = parts.drop_last();
        lemma_last_offer(before, pick, i);
        assert(parts.last() == parts[parts.len() - 1]);
        assert(forall|j: int| 0 <= j < before.len() ==> #[trigger] before[j] == parts[j]);
        if !pick(offer_name(parts.last())) {
            if 0 <= i < parts.len() && pick(offer_name(parts[i])) && (forall|j: int|
                i < j < parts.len() ==> !pick(offer_name(#[trigger] parts[j]))) {
                assert(before[i] == parts[i]);
                assert forall|j: int| i < j < before.len() implies !pick(
                    offer_name(#[trigger] before[j]),
                ) by {
                    assert(before[j] == parts[j]);
                }
            }
            if forall|j: int| 0 <= j < parts.len() ==> !pick(offer_name(#[trigger] parts[j])) {
                assert forall|j: int| 0 <= j < before.len() implies !pick(
                    offer_name(#[trigger] before[j]),
                ) by {
                    assert(before[j] == parts[j]);
                }
            }
        }
    }
}

/// An offer is made by its name, before the first `;`, and without a weight it
/// stands.
pub proof fn law_bare_offers_stand(name: Seq<char>)
    requires
        !name.contains(';'),
    ensures
        offer_name(name) == text::trimmed(name),
        offer_stands(text::pieces(name, ';')),
{
    text::lemma_one_piece(name, ';');
}

/// Of the weights of an offer the last decides, and an offer stands exactly where
/// that weight is a positive number; other parameters make no difference.
pub proof fn law_last_weight_decides(fields: Seq<Seq<char>>, weight: Seq<char>, i: int)
    requires
        fields.len() > 0,
        forall|j: int| 0 <= j < fields.len() ==> !(#[trigger] fields[j]).contains(';'),
        forall|j: int|
            i < j < fields.len() && j > 0 ==> !"q="@.is_prefix_of(
                text::trimmed(#[trigger] fields[j]),
            ),
    ensures
        offer_name(text::joined(fields, ';')) == text::trimmed(fields[0]),
        1 <= i < fields.len() && text::trimmed(fields[i]) == "q="@ + weight ==> offer_stands(
            text::pieces(text::joined(fields, ';'), ';'),
        ) == weight::is_positive(text::trimmed(weight)),
        i <= 0 ==> offer_stands(text::pieces(text::joined(fields, ';'), ';')),
    decreases fields.len(),
{
    text::law_joined_texts_come_apart(fields, ';');
    lemma_last_weight(fields, weight, i);
}

proof fn lemma_last_weight(fields: Seq<Seq<char>>, weight: Seq<char>, i: int)
    requires
        forall|j: int|
            i < j < fields.len() && j > 0 ==> !"q="@.is_prefix_of(
                text::trimmed(#[trigger] fields[j]),
            ),
    ensures
        1 <= i < fields.len() && text::trimmed(fields[i]) == "q="@ + weight ==> offer_stands(fields)
            == weight::is_positive(text::trimmed(weight)),
        i <= 0 ==> offer_stands(fields),
    decreases fields.len(),
{
    reveal_strlit("q=");
    if fields.len() > 1 {
        assert(fields.last() == fields[fields.len() - 1]);
        if i == fields.len() - 1 {
            if text::trimmed(fields[i]) == "q="@ + weight {
                let param = text::trimmed(fields[i]);
                assert(param.take(2) =~= "q="@);
                assert("q="@.is_prefix_of(param));
                assert(param.skip(2) =~= weight);
            }
        } else if i < fields.len() - 1 {
            let before = fields.drop_last();
            assert forall|j: int| i < j < before.len() && j > 0 implies !"q="@.is_prefix_of(
                text::trimmed(#[trigger] before[j]),
            ) by {
                assert(before[j] == fields[j]);
            }
            lemma_last_weight(before, weight, i);
        }
    }
}

/// Brotli is used wherever it is on offer and accepted; gzip where it is on offer
/// and accepted and brotli is not used; nothing else is.
pub proof fn law_brotli_goes_first(p: CompressModel, accept: Seq<char>)
    ensures
        p.brotli && accepted(accept, "br"@) <==> p.negotiated(accept) == Some(Encoding::Brotli),
        p.gzip && accepted(accept, "gzip"@) && !(p.brotli && accepted(accept, "br"@))
            <==> p.negotiated(accept) == Some(Encoding::Gzip),
        Encoding::Brotli.name() == "br"@,
        Encoding::Gzip.name() == "gzip"@,
{
}

/// A smaller stream is always sent, under its name; a stream that is not smaller,
/// or none, leaves the reply as it came.
pub proof fn law_smaller_streams_are_sent(
    reply: ReplyModel,
    encoding: Encoding,
    out: Option<Seq<u8>>,
)
    ensures
        ({
            let sent = finished(EditsModel::of(reply), encoding, out).applied();
            &&& out is Some && out->0.len() < reply.body.len() ==> sent.body == out->0
                && sent.header("Content-Encoding"@) == Some(encoding.name()) && http::occurrences(
                sent.headers,
                "Content-Encoding"@,
            ) == 1
            &&& out is None || out->0.len() >= reply.body.len() ==> sent == reply
        }),
{
    let edits = EditsModel::of(reply);
    lemma_no_edits(reply);
    if out is Some && out->0.len() < reply.body.len() {
        let coded = edits.set_header("Content-Encoding"@, encoding.name());
        let done = vary_added(coded).set_body(out->0);
        lemma_edited_headers(reply, encoding);
        assert(done.applied().headers == vary_added(coded).applied().headers);
        http::law_edited_reply(done, "Content-Encoding"@);
        lemma_assignments(reply, encoding, "Content-Encoding"@);
    }
}

/// Compression changes no header but `Content-Encoding` and `Vary`, and a `Vary`
/// that needs no change keeps its value.
pub proof fn law_other_headers_stay(
    reply: ReplyModel,
    encoding: Encoding,
    out: Option<Seq<u8>>,
    name: Seq<char>,
)
    requires
        !text::same_ignoring_case(name, "Content-Encoding"@),
        !text::same_ignoring_case(name, "Vary"@) || varies(reply.header("Vary"@)),
    ensures
        ({
            let sent = finished(EditsModel::of(reply), encoding, out).applied();
            &&& sent.status == reply.status
            &&& sent.header(name) == reply.header(name)
            &&& http::occurrences(sent.headers, name) == http::occurrences(reply.headers, name)
        }),
{
    let edits = EditsModel::of(reply);
    lemma_no_edits(reply);
    let done = finished(edits, encoding, out);
    http::law_edited_reply(done, name);
    lemma_assignments(reply, encoding, name);
}

proof fn lemma_assignments(reply: ReplyModel, encoding: Encoding, name: Seq<char>)
    ensures
        ({
            let coded = EditsModel::of(reply).set_header("Content-Encoding"@, encoding.name());
            let set = vary_added(coded).set;
            &&& vary_added(coded).remove.len() == 0
            &&& text::same_ignoring_case(name, "Content-Encoding"@) ==> http::assigned(set, name)
                == Some(encoding.name())
            &&& !text::same_ignoring_case(name, "Content-Encoding"@) && (!text::same_ignoring_case(
                name,
                "Vary"@,
            ) || varies(reply.header("Vary"@))) ==> http::assigned(set, name) is None
        }),
{
    reveal_strlit("Content-Encoding");
    reveal_strlit("Vary");
    let (ce, vary) = ("Content-Encoding"@, "Vary"@);
    assert(text::lower(ce).len() != text::lower(vary).len());
    let coded = EditsModel::of(reply).set_header(ce, encoding.name());
    assert(coded.set.drop_last() =~= Seq::empty());
    assert(http::assigned(coded.set.drop_last(), name) is None);
    assert(coded.set.last() == (ce, encoding.name()));
    assert(http::assigned(coded.set, name) == (if text::same_ignoring_case(name, ce) {
        Some(encoding.name())
    } else {
        None
    }));
    let done = vary_added(coded);
    if done.set.len() > coded.set.len() {
        assert(done.set.drop_last() =~= coded.set);
        assert(done.set.last().0 == vary);
        assert(!varies(reply.header(vary)));
    } else {
        assert(done == coded);
    }
}

/// A reply without a `Vary` gets one that names `Accept-Encoding`.
pub proof fn law_vary_is_added(reply: ReplyModel, encoding: Encoding, stream: Seq<u8>)
    requires
        stream.len() < reply.body.len(),
        reply.header("Vary"@) is None,
    ensures
        finished(EditsModel::of(reply), encoding, Some(stream)).applied().header("Vary"@) == Some(
            "Accept-Encoding"@,
        ),
{
    let coded = EditsModel::of(reply).set_header("Content-Encoding"@, encoding.name());
    assert(vary_added(coded).set_body(stream).applied().headers == vary_added(
        coded,
    ).applied().headers);
    lemma_edited_headers(reply, encoding);
    assert(vary_added(coded).set.last() == ("Vary"@, "Accept-Encoding"@));
    assert(vary_added(coded).set.len() == coded.set.len() + 1);
}

/// Under a configured policy the encoders work at the configured level; other
/// levels are taken to the nearest that an encoder has.
pub proof fn law_configured_level_is_used(body: Seq<u8>, level: u32, out: Option<Seq<u8>>)
    ensures
        1 <= level <= 9 && Encoding::Gzip.may_yield(body, level, out) ==> out == gzip_stream(
            body,
            level,
        ),
        level <= 11 && Encoding::Brotli.may_yield(body, level, out) ==> brotli_writes(
            body,
            level,
            4096,
            22,
            out,
        ),
        gzip_level(0) == 1,
        level > 9 ==> gzip_level(level) == 9,
        level > 11 ==> brotli_quality(level) == 11,
{
}

/// Every setting is read from its own key with its default; the types in order,
/// in lower case and without the empty ones.
pub proof fn law_settings(config: JsonModel, p: CompressModel, i: int)
    requires
        CompressModel::configured(config) == Ok::<_, Seq<char>>(p),
    ensures
        config::u64_or(config, "level"@, 5) == Ok::<_, Seq<char>>(p.level as u64),
        1 <= p.level <= 9,
        config::u64_or(config, "min_size"@, 1024) == Ok::<_, Seq<char>>(p.min_size as u64),
        config::bool_or(config, "brotli"@, true) == Ok::<_, Seq<char>>(p.brotli),
        config::bool_or(config, "gzip"@, true) == Ok::<_, Seq<char>>(p.gzip),
        p.brotli || p.gzip,
        config.setting("types"@) is Some ==> config.setting("types"@)->0.node is Array && ({
            let items = config.setting("types"@)->0.node->Array_0;
            &&& 0 <= i < items.len() ==> items[i].node is Text && (items[i].node->Text_0.len() > 0
                ==> p.types.contains(text::lower(items[i].node->Text_0)))
            &&& 0 <= i < p.types.len() ==> p.types[i].len() > 0 && exists|j: int|
                0 <= j < items.len() && (#[trigger] items[j]).node is Text && p.types[i]
                    == text::lower(items[j].node->Text_0)
            &&& (forall|j: int|
                0 <= j < items.len() ==> (#[trigger] items[j]).node is Text
                    && items[j].node->Text_0.len() > 0) ==> p.types.len() == items.len() && (0 <= i
                < items.len() ==> p.types[i] == text::lower(items[i].node->Text_0))
        }),
{
    if config.setting("types"@) is Some {
        let items = config.setting("types"@)->0.node->Array_0;
        let read = config::text_entry("types"@);
        let list = config::collect(items, read)->Ok_0;
        config::law_lists_are_read_whole(items, read, i);
        assert forall|j: int| 0 <= j < items.len() implies (#[trigger] items[j]).node
            == NodeModel::Text(list[j]) by {
            config::law_lists_are_read_whole(items, read, j);
            config::law_text_entries("types"@, items[j]);
        }
        lemma_filled_lower(list, i);
        if 0 <= i < p.types.len() {
            let j = choose|j: int|
                0 <= j < list.len() && p.types[i] == text::lower(#[trigger] list[j]);
            assert(items[j].node == NodeModel::Text(list[j]));
        }
        if forall|j: int|
            0 <= j < items.len() ==> (#[trigger] items[j]).node is Text
                && items[j].node->Text_0.len() > 0 {
            assert forall|j: int| 0 <= j < list.len() implies (#[trigger] list[j]).len() > 0 by {
                assert(items[j].node->Text_0.len() > 0);
            }
        }
    }
}

proof fn lemma_filled_lower(list: Seq<Seq<char>>, i: int)
    ensures
        ({
            let out = CompressModel::filled_lower(list);
            &&& 0 <= i < list.len() && list[i].len() > 0 ==> out.contains(text::lower(list[i]))
            &&& 0 <= i < out.len() ==> out[i].len() > 0 && exists|j: int|
                0 <= j < list.len() && out[i] == text::lower(#[trigger] list[j])
            &&& (forall|j: int| 0 <= j < list.len() ==> (#[trigger] list[j]).len() > 0)
                ==> out.len() == list.len() && (0 <= i < list.len() ==> out[i] == text::lower(
                list[i],
            ))
        }),
    decreases list.len(),
{
    if list.len() > 0 {
        let before = list.drop_last();
        let done = CompressModel::filled_lower(before);
        let out = CompressModel::filled_lower(list);
        lemma_filled_lower(before, i);
        assert(list.last() == list[list.len() - 1]);
        assert(forall|j: int| 0 <= j < before.len() ==> #[trigger] before[j] == list[j]);
        if 0 <= i < list.len() && list[i].len() > 0 {
            if i < before.len() {
                let k = choose|k: int| 0 <= k < done.len() && done[k] == text::lower(before[i]);
                assert(out[k] == done[k]);
            } else {
                assert(out[out.len() - 1] == text::lower(list[i]));
            }
        }
        if 0 <= i < out.len() {
            if i < done.len() {
                let j = choose|j: int|
                    0 <= j < before.len() && done[i] == text::lower(#[trigger] before[j]);
                assert(out[i] == text::lower(list[j]));
            } else {
                assert(out[i] == text::lower(list[list.len() - 1]));
            }
        }
        if forall|j: int| 0 <= j < list.len() ==> (#[trigger] list[j]).len() > 0 {
            assert forall|j: int| 0 <= j < before.len() implies (#[trigger] before[j]).len() > 0 by {
                assert(before[j] == list[j]);
            }
            assert(list.last().len() > 0);
        }
    }
}

/// A configuration is taken exactly where the level is between 1 and 9, the size
/// fits, the types are texts, and one encoding at least is on; of several refused
/// settings the first is named.
pub proof fn law_taken_configurations(config: JsonModel)
    ensures
        ({
            let r = CompressModel::configured(config);
            let l = config::u64_or(config, "level"@, 5);
            let s = config::u64_or(config, "min_size"@, 1024);
            let b = config::bool_or(config, "brotli"@, true);
            let g = config::bool_or(config, "gzip"@, true);
            let t = CompressModel::types_setting(config);
            let level = l is Ok && 1 <= l->Ok_0 <= 9;
            let size = s is Ok && s->Ok_0 <= usize::MAX;
            let typed = config.setting("types"@) is None || (config.setting("types"@)->0.node is Array
                && (forall|j: int|
                0 <= j < config.setting("types"@)->0.node->Array_0.len() ==> (
                #[trigger] config.setting("types"@)->0.node->Array_0[j]).node is Text));
            &&& t is Ok <==> typed
            &&& r is Ok <==> level && size && typed && b is Ok && g is Ok && (b->Ok_0 || g->Ok_0)
            &&& l is Err ==> r->Err_0 == l->Err_0
            &&& level && s is Err ==> r->Err_0 == s->Err_0
            &&& level && size && t is Err ==> r->Err_0 == t->Err_0
            &&& level && size && t is Ok && b is Err ==> r->Err_0 == b->Err_0
            &&& level && size && t is Ok && b is Ok && g is Err ==> r->Err_0 == g->Err_0
        }),
{
    if config.setting("types"@) is Some && config.setting("types"@)->0.node is Array {
        config::law_lists_of_texts(config.setting("types"@)->0.node->Array_0, "types"@);
    }
}

} // verus!
