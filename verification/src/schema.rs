//! The storyboard document: its shape, its validation rules, and its JSON
//! form.

use vstd::prelude::*;
use vstd::string::StrSliceExecFns;
use vstd::string::StringExecFns;
use crate::error::SdkError;
use crate::json::Json;
use crate::json::JsonNum;
use crate::json::Jv;
use crate::json::is_digit;
use crate::json::is_num_lit;
use crate::json::jv_lookup;
use crate::json::lemma_jv_lookup_at;
use crate::json::lemma_num_state_snoc;
use crate::json::num_state;
use crate::json::num_step;
use crate::json::jv_wf;
use crate::json::jv_wf_seq;
use crate::json::jv_wf_entries;
use crate::json::str_eq;

verus! {

/// Video genre: a closed enumeration.
#[derive(Debug, Clone, Copy, PartialEq, Eq, Structural)]
pub enum Genre {
    Anime,
    Horror,
    Scifi,
    Commercial,
    Brainrot,
}

/// Kind of layer.
#[derive(Debug, Clone, Copy, PartialEq, Eq, Structural)]
pub enum LayerType {
    Video,
    Audio,
    Text,
}

/// Payload attached to a layer.
#[derive(Debug, Clone)]
pub struct Asset {
    /// URL of the asset file, for media layers.
    pub url: Option<String>,
    /// Textual content, for text layers.
    pub content: Option<String>,
    /// Prompt used to generate this asset.
    pub generation_prompt: Option<String>,
    /// Registration identifier, once the asset is registered.
    pub ip_id: Option<String>,
    /// Content fingerprint supplied by the caller.
    pub sha256_hash: Option<String>,
}

/// One timed visual/audio/text element.
#[derive(Debug, Clone)]
pub struct Layer {
    /// Opaque identifier.
    pub id: String,
    /// Kind of layer.
    pub layer_type: LayerType,
    /// Stacking order, 0 = bottom.
    pub position: u32,
    /// Start time in seconds, as a decimal literal.
    pub start_time: JsonNum,
    /// Duration in seconds, as a decimal literal.
    pub duration: JsonNum,
    /// The attached payload.
    pub asset: Asset,
}

/// Descriptive metadata of a storyboard.
#[derive(Debug, Clone)]
pub struct StoryboardMetadata {
    /// Author or creator name.
    pub author: Option<String>,
    /// Creation timestamp, ISO-8601 text; not validated here.
    pub created_at: Option<String>,
    /// Tags, ordered, duplicates permitted.
    pub tags: Vec<String>,
    /// License name.
    pub license: Option<String>,
    /// Registration identifier for the whole storyboard, once registered.
    pub ip_id: Option<String>,
}

/// The root document of a video project.
#[derive(Debug, Clone)]
pub struct Storyboard {
    /// Opaque identifier, caller-assigned.
    pub id: String,
    /// Project title; must be non-empty to validate.
    pub title: String,
    /// Optional description.
    pub description: Option<String>,
    /// Video genre.
    pub genre: Genre,
    /// Total duration in seconds, as a decimal literal; must be strictly
    /// positive to validate.
    pub duration: JsonNum,
    /// Aspect ratio, free-form text such as `16:9`.
    pub aspect_ratio: String,
    /// Ordered layers; order is meaningful and kept.
    pub layers: Vec<Layer>,
    /// Additional metadata.
    pub metadata: StoryboardMetadata,
}

// ---------------------------------------------------------------------------
// Models
// ---------------------------------------------------------------------------

/// Model of an asset.
pub struct AssetV {
    pub url: Option<Seq<char>>,
    pub content: Option<Seq<char>>,
    pub generation_prompt: Option<Seq<char>>,
    pub ip_id: Option<Seq<char>>,
    pub sha256_hash: Option<Seq<char>>,
}

/// Model of a layer.
pub struct LayerV {
    pub id: Seq<char>,
    pub layer_type: LayerType,
    pub position: u32,
    pub start_time: Seq<char>,
    pub duration: Seq<char>,
    pub asset: AssetV,
}

/// Model of storyboard metadata.
pub struct MetadataV {
    pub author: Option<Seq<char>>,
    pub created_at: Option<Seq<char>>,
    pub tags: Seq<Seq<char>>,
    pub license: Option<Seq<char>>,
    pub ip_id: Option<Seq<char>>,
}

/// Model of a storyboard.
pub struct StoryboardV {
    pub id: Seq<char>,
    pub title: Seq<char>,
    pub description: Option<Seq<char>>,
    pub genre: Genre,
    pub duration: Seq<char>,
    pub aspect_ratio: Seq<char>,
    pub layers: Seq<LayerV>,
    pub metadata: MetadataV,
}

impl DeepView for Asset {
    type V = AssetV;

    open spec fn deep_view(&self) -> AssetV {
        AssetV {
            url: self.url.deep_view(),
            content: self.content.deep_view(),
            generation_prompt: self.generation_prompt.deep_view(),
            ip_id: self.ip_id.deep_view(),
            sha256_hash: self.sha256_hash.deep_view(),
        }
    }
}

impl DeepView for Layer {
    type V = LayerV;

    open spec fn deep_view(&self) -> LayerV {
        LayerV {
            id: self.id@,
            layer_type: self.layer_type,
            position: self.position,
            start_time: self.start_time.text@,
            duration: self.duration.text@,
            asset: self.asset.deep_view(),
        }
    }
}

impl DeepView for StoryboardMetadata {
    type V = MetadataV;

    open spec fn deep_view(&self) -> MetadataV {
        MetadataV {
            author: self.author.deep_view(),
            created_at: self.created_at.deep_view(),
            tags: self.tags.deep_view(),
            license: self.license.deep_view(),
            ip_id: self.ip_id.deep_view(),
        }
    }
}

impl DeepView for Storyboard {
    type V = StoryboardV;

    open spec fn deep_view(&self) -> StoryboardV {
        StoryboardV {
            id: self.id@,
            title: self.title@,
            description: self.description.deep_view(),
            genre: self.genre,
            duration: self.duration.text@,
            aspect_ratio: self.aspect_ratio@,
            layers: self.layers.deep_view(),
            metadata: self.metadata.deep_view(),
        }
    }
}

/// Well-formedness of a layer model: its times are number literals.
pub open spec fn layer_wf(l: LayerV) -> bool {
    is_num_lit(l.start_time) && is_num_lit(l.duration)
}

/// Well-formedness of a storyboard model: every number field holds a
/// well-formed decimal literal.
pub open spec fn sb_wf(s: StoryboardV) -> bool {
    is_num_lit(s.duration) && forall|i: int|
        0 <= i < s.layers.len() ==> layer_wf(#[trigger] s.layers[i])
}

// ---------------------------------------------------------------------------
// Validation
// ---------------------------------------------------------------------------

/// Scans for a digit 1..9 before any exponent marker, from position `i`.
pub open spec fn nonzero_before_exp(t: Seq<char>, i: int) -> bool
    decreases t.len() - i,
{
    if i < 0 || i >= t.len() {
        false
    } else if t[i] == 'e' || t[i] == 'E' {
        false
    } else if '1' <= t[i] && t[i] <= '9' {
        true
    } else {
        nonzero_before_exp(t, i + 1)
    }
}

/// Whether a number literal denotes a strictly positive value: no leading
/// minus, and some non-zero digit in its mantissa.
pub open spec fn num_positive(t: Seq<char>) -> bool {
    t.len() > 0 && t[0] != '-' && nonzero_before_exp(t, 0)
}

impl JsonNum {
    /// Whether the literal denotes a strictly positive value.
    pub fn is_positive(&self) -> (r: bool)
        ensures
            r == num_positive(self.text@),
    {
        let n = self.text.as_str().unicode_len();
        if n == 0 {
            return false;
        }
        if self.text.as_str().get_char(0) == '-' {
            return false;
        }
        let mut i: usize = 0;
        while i < n
            invariant
                0 <= i <= n,
                n == self.text@.len(),
                n > 0,
                self.text@[0] != '-',
                nonzero_before_exp(self.text@, 0) == nonzero_before_exp(self.text@, i as int),
            decreases n - i,
        {
            let c = self.text.as_str().get_char(i);
            if c == 'e' || c == 'E' {
                return false;
            }
            if '1' <= c && c <= '9' {
                return true;
            }
            i = i + 1;
        }
        false
    }
}

/// Whether a storyboard model passes validation: non-empty title and
/// strictly positive duration.
pub open spec fn sb_valid(s: StoryboardV) -> bool {
    s.title.len() > 0 && num_positive(s.duration)
}

impl Storyboard {
    /// Validates the storyboard: the title must be non-empty and the
    /// duration strictly positive. Nothing else is checked.
    pub fn validate(&self) -> (r: Result<(), SdkError>)
        ensures
            r is Ok <==> sb_valid(self.deep_view()),
            self.title@.len() == 0 ==> (r matches Err(e) && e matches SdkError::Validation(m)
                && m@ == "Title is required"@),
            self.title@.len() > 0 && !num_positive(self.duration.text@) ==> (r matches Err(e)
                && e matches SdkError::Validation(m) && m@ == "Duration must be positive"@),
    {
        if self.title.as_str().unicode_len() == 0 {
            return Err(SdkError::Validation(String::from_str("Title is required")));
        }
        if !self.duration.is_positive() {
            return Err(SdkError::Validation(String::from_str("Duration must be positive")));
        }
        Ok(())
    }
}


// ---------------------------------------------------------------------------
// The JSON form: spec side
// ---------------------------------------------------------------------------

/// An optional string as JSON: the string, or null.
pub open spec fn opt_str_jv(o: Option<Seq<char>>) -> Jv {
    match o {
        Some(s) => Jv::Str(s),
        None => Jv::Null,
    }
}

/// The wire name of a genre.
pub open spec fn genre_text(g: Genre) -> Seq<char> {
    match g {
        Genre::Anime => "anime"@,
        Genre::Horror => "horror"@,
        Genre::Scifi => "scifi"@,
        Genre::Commercial => "commercial"@,
        Genre::Brainrot => "brainrot"@,
    }
}

/// The wire name of a layer type.
pub open spec fn layer_type_text(t: LayerType) -> Seq<char> {
    match t {
        LayerType::Video => "video"@,
        LayerType::Audio => "audio"@,
        LayerType::Text => "text"@,
    }
}

/// The decimal digit character for `d` in 0..10.
pub open spec fn digit_char(d: int) -> char {
    if d == 0 { '0' } else if d == 1 { '1' } else if d == 2 { '2' } else if d == 3 { '3' }
    else if d == 4 { '4' } else if d == 5 { '5' } else if d == 6 { '6' } else if d == 7 { '7' }
    else if d == 8 { '8' } else { '9' }
}

/// Decimal digits of `n`, most significant first, no leading zeros.
pub open spec fn dec_digits(n: nat) -> Seq<char>
    decreases n,
{
    if n < 10 {
        seq![digit_char(n as int)]
    } else {
        dec_digits(n / 10) + seq![digit_char((n % 10) as int)]
    }
}

/// A non-empty run of decimal digits.
pub open spec fn is_digits(t: Seq<char>) -> bool
    decreases t.len(),
{
    if t.len() == 0 {
        false
    } else if t.len() == 1 {
        is_digit(t[0])
    } else {
        is_digit(t[0]) && is_digits(t.drop_first())
    }
}

/// Value of a digit run, most significant first.
pub open spec fn digits_val(t: Seq<char>) -> int
    decreases t.len(),
{
    if t.len() == 0 {
        0
    } else {
        digits_val(t.drop_last()) * 10 + (t.last() as int - 48)
    }
}

/// A stacking position read from a number literal: a plain digit run whose
/// value fits in 32 bits.
pub open spec fn pos_from_lit(t: Seq<char>) -> Option<u32> {
    if is_digits(t) && t.len() <= 10 && digits_val(t) <= 0xffff_ffff {
        Some(digits_val(t) as u32)
    } else {
        None
    }
}

/// The JSON form of an asset.
pub open spec fn asset_jv(a: AssetV) -> Jv {
    Jv::Obj(
        seq![
            ("url"@, opt_str_jv(a.url)),
            ("content"@, opt_str_jv(a.content)),
            ("generation_prompt"@, opt_str_jv(a.generation_prompt)),
            ("ip_id"@, opt_str_jv(a.ip_id)),
            ("sha256_hash"@, opt_str_jv(a.sha256_hash)),
        ],
    )
}

/// The JSON form of a layer.
pub open spec fn layer_jv(l: LayerV) -> Jv {
    Jv::Obj(
        seq![
            ("id"@, Jv::Str(l.id)),
            ("layer_type"@, Jv::Str(layer_type_text(l.layer_type))),
            ("position"@, Jv::Num(dec_digits(l.position as nat))),
            ("start_time"@, Jv::Num(l.start_time)),
            ("duration"@, Jv::Num(l.duration)),
            ("asset"@, asset_jv(l.asset)),
        ],
    )
}

/// The JSON form of the metadata.
pub open spec fn meta_jv(m: MetadataV) -> Jv {
    Jv::Obj(
        seq![
            ("author"@, opt_str_jv(m.author)),
            ("created_at"@, opt_str_jv(m.created_at)),
            ("tags"@, Jv::Arr(Seq::new(m.tags.len(), |i: int| Jv::Str(m.tags[i])))),
            ("license"@, opt_str_jv(m.license)),
            ("ip_id"@, opt_str_jv(m.ip_id)),
        ],
    )
}

/// The JSON form of a storyboard: all fields, in declared order; absent
/// optional strings are written as null.
pub open spec fn sb_jv(s: StoryboardV) -> Jv {
    Jv::Obj(
        seq![
            ("id"@, Jv::Str(s.id)),
            ("title"@, Jv::Str(s.title)),
            ("description"@, opt_str_jv(s.description)),
            ("genre"@, Jv::Str(genre_text(s.genre))),
            ("duration"@, Jv::Num(s.duration)),
            ("aspect_ratio"@, Jv::Str(s.aspect_ratio)),
            ("layers"@, Jv::Arr(Seq::new(s.layers.len(), |i: int| layer_jv(s.layers[i])))),
            ("metadata"@, meta_jv(s.metadata)),
        ],
    )
}

// ---------------------------------------------------------------------------
// Reading the JSON form back: spec side
// ---------------------------------------------------------------------------

/// The genre named by `t`, if any.
pub open spec fn genre_from_text(t: Seq<char>) -> Option<Genre> {
    if t == "anime"@ { Some(Genre::Anime) } else if t == "horror"@ { Some(Genre::Horror) }
    else if t == "scifi"@ { Some(Genre::Scifi) } else if t == "commercial"@ {
        Some(Genre::Commercial)
    } else if t == "brainrot"@ { Some(Genre::Brainrot) } else { None }
}

/// The layer type named by `t`, if any.
pub open spec fn layer_type_from_text(t: Seq<char>) -> Option<LayerType> {
    if t == "video"@ { Some(LayerType::Video) } else if t == "audio"@ { Some(LayerType::Audio) }
    else if t == "text"@ { Some(LayerType::Text) } else { None }
}

/// An optional string field: absent and null both mean `None`; any value
/// other than a string is a shape error (the outer `None`).
pub open spec fn opt_str_from(kvs: Seq<(Seq<char>, Jv)>, key: Seq<char>) -> Option<
    Option<Seq<char>>,
> {
    match jv_lookup(kvs, key) {
        None => Some(None),
        Some(Jv::Null) => Some(None),
        Some(Jv::Str(s)) => Some(Some(s)),
        Some(_) => None,
    }
}

/// A required string field.
pub open spec fn req_str_from(kvs: Seq<(Seq<char>, Jv)>, key: Seq<char>) -> Option<Seq<char>> {
    match jv_lookup(kvs, key) {
        Some(Jv::Str(s)) => Some(s),
        _ => None,
    }
}

/// A required number field, kept as its literal.
pub open spec fn req_num_from(kvs: Seq<(Seq<char>, Jv)>, key: Seq<char>) -> Option<Seq<char>> {
    match jv_lookup(kvs, key) {
        Some(Jv::Num(t)) => Some(t),
        _ => None,
    }
}

/// An asset read from its JSON form.
pub open spec fn asset_from_jv(v: Jv) -> Option<AssetV> {
    match v {
        Jv::Obj(kvs) => match (
            opt_str_from(kvs, "url"@),
            opt_str_from(kvs, "content"@),
            opt_str_from(kvs, "generation_prompt"@),
            opt_str_from(kvs, "ip_id"@),
            opt_str_from(kvs, "sha256_hash"@),
        ) {
            (Some(url), Some(content), Some(gp), Some(ip), Some(sh)) => Some(
                AssetV {
                    url: url,
                    content: content,
                    generation_prompt: gp,
                    ip_id: ip,
                    sha256_hash: sh,
                },
            ),
            _ => None,
        },
        _ => None,
    }
}

/// A layer read from its JSON form.
pub open spec fn layer_from_jv(v: Jv) -> Option<LayerV> {
    match v {
        Jv::Obj(kvs) => {
            let lt = match req_str_from(kvs, "layer_type"@) {
                Some(t) => layer_type_from_text(t),
                None => None,
            };
            let pos = match req_num_from(kvs, "position"@) {
                Some(t) => pos_from_lit(t),
                None => None,
            };
            let asset = match jv_lookup(kvs, "asset"@) {
                Some(av) => asset_from_jv(av),
                None => None,
            };
            match (
                req_str_from(kvs, "id"@),
                lt,
                pos,
                req_num_from(kvs, "start_time"@),
                req_num_from(kvs, "duration"@),
                asset,
            ) {
                (Some(id), Some(t), Some(p), Some(st), Some(du), Some(a)) => Some(
                    LayerV {
                        id: id,
                        layer_type: t,
                        position: p,
                        start_time: st,
                        duration: du,
                        asset: a,
                    },
                ),
                _ => None,
            }
        },
        _ => None,
    }
}

/// A sequence of layers read from JSON values.
pub open spec fn layers_from_jv(es: Seq<Jv>) -> Option<Seq<LayerV>>
    decreases es.len(),
{
    if es.len() == 0 {
        Some(Seq::empty())
    } else {
        match (layer_from_jv(es[0]), layers_from_jv(es.drop_first())) {
            (Some(l), Some(rest)) => Some(seq![l] + rest),
            _ => None,
        }
    }
}

/// A sequence of tag strings read from JSON values.
pub open spec fn tags_from_jv(es: Seq<Jv>) -> Option<Seq<Seq<char>>>
    decreases es.len(),
{
    if es.len() == 0 {
        Some(Seq::empty())
    } else {
        match es[0] {
            Jv::Str(t) => match tags_from_jv(es.drop_first()) {
                Some(rest) => Some(seq![t] + rest),
                None => None,
            },
            _ => None,
        }
    }
}

/// The all-empty metadata used when the field is absent.
pub open spec fn meta_empty() -> MetadataV {
    MetadataV { author: None, created_at: None, tags: Seq::empty(), license: None, ip_id: None }
}

/// Metadata read from its JSON form; absent tags mean an empty list.
pub open spec fn meta_from_jv(v: Jv) -> Option<MetadataV> {
    match v {
        Jv::Obj(kvs) => {
            let tags = match jv_lookup(kvs, "tags"@) {
                None => Some(Seq::<Seq<char>>::empty()),
                Some(Jv::Null) => Some(Seq::<Seq<char>>::empty()),
                Some(Jv::Arr(es)) => tags_from_jv(es),
                Some(_) => None,
            };
            match (
                opt_str_from(kvs, "author"@),
                opt_str_from(kvs, "created_at"@),
                tags,
                opt_str_from(kvs, "license"@),
                opt_str_from(kvs, "ip_id"@),
            ) {
                (Some(author), Some(created), Some(tg), Some(license), Some(ip)) => Some(
                    MetadataV {
                        author: author,
                        created_at: created,
                        tags: tg,
                        license: license,
                        ip_id: ip,
                    },
                ),
                _ => None,
            }
        },
        _ => None,
    }
}

/// A storyboard read from its JSON form.
///
/// Required fields (`id`, `title`, `genre`, `duration`, `aspect_ratio`,
/// `layers`) must be present with the right shape; `description` may be
/// absent or null; `metadata` defaults to all-empty when absent; unknown
/// fields are ignored.
pub open spec fn sb_from_jv(v: Jv) -> Option<StoryboardV> {
    match v {
        Jv::Obj(kvs) => {
            let genre = match req_str_from(kvs, "genre"@) {
                Some(t) => genre_from_text(t),
                None => None,
            };
            let layers = match jv_lookup(kvs, "layers"@) {
                Some(Jv::Arr(es)) => layers_from_jv(es),
                _ => None,
            };
            let meta = match jv_lookup(kvs, "metadata"@) {
                None => Some(meta_empty()),
                Some(mv) => meta_from_jv(mv),
            };
            match (
                req_str_from(kvs, "id"@),
                req_str_from(kvs, "title"@),
                opt_str_from(kvs, "description"@),
                genre,
                req_num_from(kvs, "duration"@),
                req_str_from(kvs, "aspect_ratio"@),
                layers,
                meta,
            ) {
                (
                    Some(id),
                    Some(title),
                    Some(descr),
                    Some(g),
                    Some(dur),
                    Some(ar),
                    Some(ls),
                    Some(m),
                ) => Some(
                    StoryboardV {
                        id: id,
                        title: title,
                        description: descr,
                        genre: g,
                        duration: dur,
                        aspect_ratio: ar,
                        layers: ls,
                        metadata: m,
                    },
                ),
                _ => None,
            }
        },
        _ => None,
    }
}


// ---------------------------------------------------------------------------
// Round trip: reading back the JSON form of a storyboard recovers it.
// ---------------------------------------------------------------------------

/// Powers of ten.
pub open spec fn pow10(k: nat) -> int
    decreases k,
{
    if k == 0 {
        1
    } else {
        10 * pow10((k - 1) as nat)
    }
}

proof fn lemma_digit_char(n: int)
    requires
        0 <= n < 10,
    ensures
        digit_char(n) as int == 48 + n,
        is_digit(digit_char(n)),
{
    if n == 0 { assert('0' as int == 48); } else if n == 1 { assert('1' as int == 49); }
    else if n == 2 { assert('2' as int == 50); } else if n == 3 { assert('3' as int == 51); }
    else if n == 4 { assert('4' as int == 52); } else if n == 5 { assert('5' as int == 53); }
    else if n == 6 { assert('6' as int == 54); } else if n == 7 { assert('7' as int == 55); }
    else if n == 8 { assert('8' as int == 56); } else { assert('9' as int == 57); }
}

proof fn lemma_is_digits_push(t: Seq<char>, c: char)
    requires
        is_digits(t),
        is_digit(c),
    ensures
        is_digits(t.push(c)),
    decreases t.len(),
{
    if t.len() > 0 {
        assert(t.push(c)[0] == t[0]);
        assert(t.push(c).drop_first() =~= t.drop_first().push(c));
        if t.len() == 1 {
            assert(t.drop_first().push(c) =~= seq![c]);
            assert(is_digits(seq![c]));
        } else {
            lemma_is_digits_push(t.drop_first(), c);
        }
    }
}

proof fn lemma_dec_digits_ok(n: nat)
    ensures
        is_digits(dec_digits(n)),
        digits_val(dec_digits(n)) == n,
        dec_digits(n).len() >= 1,
    decreases n,
{
    if n < 10 {
        let t = dec_digits(n);
        assert(t =~= seq![digit_char(n as int)]);
        assert(is_digit(digit_char(n as int)));
        assert(t.drop_last() =~= Seq::<char>::empty());
        lemma_digit_char(n as int);
        assert(t.last() == digit_char(n as int));
        assert(digits_val(Seq::<char>::empty()) == 0);
        assert(digits_val(t) == digit_char(n as int) as int - 48);
    } else {
        lemma_dec_digits_ok(n / 10);
        let a = dec_digits(n / 10);
        let c = digit_char((n % 10) as int);
        lemma_digit_char((n % 10) as int);
        assert(a + seq![c] =~= a.push(c));
        lemma_is_digits_push(a, c);
        assert((a + seq![c]).drop_last() =~= a);
        assert((a + seq![c]).last() == c);
        assert(digits_val(a + seq![c]) == (n / 10) * 10 + (n % 10));
    }
}

proof fn lemma_dec_digits_len(n: nat, k: nat)
    requires
        n < pow10(k),
        k >= 1,
    ensures
        dec_digits(n).len() <= k,
    decreases n,
{
    if n < 10 {
    } else {
        assert(pow10(k) == 10 * pow10((k - 1) as nat));
        assert(n / 10 < pow10((k - 1) as nat));
        assert(k - 1 >= 1) by {
            if k == 1 {
                assert(pow10(1int as nat) == 10);
                assert(false);
            }
        }
        lemma_dec_digits_len(n / 10, (k - 1) as nat);
    }
}

proof fn lemma_pos_round(p: u32)
    ensures
        pos_from_lit(dec_digits(p as nat)) == Some(p),
{
    lemma_dec_digits_ok(p as nat);
    assert(pow10(10) == 10000000000) by {
        reveal_with_fuel(pow10, 11);
    }
    lemma_dec_digits_len(p as nat, 10);
}

proof fn lemma_genre_round(g: Genre)
    ensures
        genre_from_text(genre_text(g)) == Some(g),
{
    reveal_strlit("anime");
    reveal_strlit("horror");
    reveal_strlit("scifi");
    reveal_strlit("commercial");
    reveal_strlit("brainrot");
    assert("anime"@.len() == 5 && "horror"@.len() == 6 && "scifi"@.len() == 5
        && "commercial"@.len() == 10 && "brainrot"@.len() == 8);
    assert("anime"@[0] == 'a' && "scifi"@[0] == 's');
}

proof fn lemma_layer_type_round(t: LayerType)
    ensures
        layer_type_from_text(layer_type_text(t)) == Some(t),
{
    reveal_strlit("video");
    reveal_strlit("audio");
    reveal_strlit("text");
    assert("video"@.len() == 5 && "audio"@.len() == 5 && "text"@.len() == 4);
    assert("video"@[0] == 'v' && "audio"@[0] == 'a');
}

proof fn lemma_asset_round(a: AssetV)
    ensures
        asset_from_jv(asset_jv(a)) == Some(a),
{
    reveal_strlit("url");
    reveal_strlit("content");
    reveal_strlit("generation_prompt");
    reveal_strlit("ip_id");
    reveal_strlit("sha256_hash");
    assert("url"@.len() == 3 && "content"@.len() == 7 && "generation_prompt"@.len() == 17
        && "ip_id"@.len() == 5 && "sha256_hash"@.len() == 11);
    let kvs = asset_jv(a)->Obj_0;
    lemma_jv_lookup_at(kvs, "url"@, 0);
    lemma_jv_lookup_at(kvs, "content"@, 1);
    lemma_jv_lookup_at(kvs, "generation_prompt"@, 2);
    lemma_jv_lookup_at(kvs, "ip_id"@, 3);
    lemma_jv_lookup_at(kvs, "sha256_hash"@, 4);
}

proof fn lemma_layer_round(l: LayerV)
    ensures
        layer_from_jv(layer_jv(l)) == Some(l),
{
    reveal_strlit("id");
    reveal_strlit("layer_type");
    reveal_strlit("position");
    reveal_strlit("start_time");
    reveal_strlit("duration");
    reveal_strlit("asset");
    assert("id"@.len() == 2 && "layer_type"@.len() == 10 && "position"@.len() == 8
        && "start_time"@.len() == 10 && "duration"@.len() == 8 && "asset"@.len() == 5);
    assert("layer_type"@[0] == 'l' && "start_time"@[0] == 's' && "position"@[0] == 'p'
        && "duration"@[0] == 'd');
    let kvs = layer_jv(l)->Obj_0;
    lemma_jv_lookup_at(kvs, "id"@, 0);
    lemma_jv_lookup_at(kvs, "layer_type"@, 1);
    lemma_jv_lookup_at(kvs, "position"@, 2);
    lemma_jv_lookup_at(kvs, "start_time"@, 3);
    lemma_jv_lookup_at(kvs, "duration"@, 4);
    lemma_jv_lookup_at(kvs, "asset"@, 5);
    lemma_layer_type_round(l.layer_type);
    lemma_pos_round(l.position);
    lemma_asset_round(l.asset);
}

proof fn lemma_layers_round(ls: Seq<LayerV>)
    ensures
        layers_from_jv(Seq::new(ls.len(), |i: int| layer_jv(ls[i]))) == Some(ls),
    decreases ls.len(),
{
    let es = Seq::new(ls.len(), |i: int| layer_jv(ls[i]));
    if ls.len() == 0 {
        assert(layers_from_jv(es) == Some(Seq::<LayerV>::empty()));
        assert(Seq::<LayerV>::empty() =~= ls);
    } else {
        assert(es[0] == layer_jv(ls[0]));
        lemma_layer_round(ls[0]);
        let tail = ls.drop_first();
        lemma_layers_round(tail);
        assert(es.drop_first() =~= Seq::new(tail.len(), |i: int| layer_jv(tail[i])));
        assert(seq![ls[0]] + tail =~= ls);
    }
}

proof fn lemma_tags_round(ts: Seq<Seq<char>>)
    ensures
        tags_from_jv(Seq::new(ts.len(), |i: int| Jv::Str(ts[i]))) == Some(ts),
    decreases ts.len(),
{
    let es = Seq::new(ts.len(), |i: int| Jv::Str(ts[i]));
    if ts.len() == 0 {
        assert(tags_from_jv(es) == Some(Seq::<Seq<char>>::empty()));
        assert(Seq::<Seq<char>>::empty() =~= ts);
    } else {
        assert(es[0] == Jv::Str(ts[0]));
        let tail = ts.drop_first();
        lemma_tags_round(tail);
        assert(es.drop_first() =~= Seq::new(tail.len(), |i: int| Jv::Str(tail[i])));
        assert(seq![ts[0]] + tail =~= ts);
    }
}

proof fn lemma_meta_round(m: MetadataV)
    ensures
        meta_from_jv(meta_jv(m)) == Some(m),
{
    reveal_strlit("author");
    reveal_strlit("created_at");
    reveal_strlit("tags");
    reveal_strlit("license");
    reveal_strlit("ip_id");
    assert("author"@.len() == 6 && "created_at"@.len() == 10 && "tags"@.len() == 4
        && "license"@.len() == 7 && "ip_id"@.len() == 5);
    let kvs = meta_jv(m)->Obj_0;
    lemma_jv_lookup_at(kvs, "author"@, 0);
    lemma_jv_lookup_at(kvs, "created_at"@, 1);
    lemma_jv_lookup_at(kvs, "tags"@, 2);
    lemma_jv_lookup_at(kvs, "license"@, 3);
    lemma_jv_lookup_at(kvs, "ip_id"@, 4);
    lemma_tags_round(m.tags);
}

/// Reading back the JSON form of any storyboard yields the same storyboard:
/// field for field, layer order and option presence included.
pub proof fn lemma_storyboard_round_trip(s: StoryboardV)
    ensures
        sb_from_jv(sb_jv(s)) == Some(s),
{
    reveal_strlit("id");
    reveal_strlit("title");
    reveal_strlit("description");
    reveal_strlit("genre");
    reveal_strlit("duration");
    reveal_strlit("aspect_ratio");
    reveal_strlit("layers");
    reveal_strlit("metadata");
    assert("id"@.len() == 2 && "title"@.len() == 5 && "description"@.len() == 11
        && "genre"@.len() == 5 && "duration"@.len() == 8 && "aspect_ratio"@.len() == 12
        && "layers"@.len() == 6 && "metadata"@.len() == 8);
    assert("title"@[0] == 't' && "genre"@[0] == 'g' && "duration"@[0] == 'd'
        && "metadata"@[0] == 'm');
    let kvs = sb_jv(s)->Obj_0;
    lemma_jv_lookup_at(kvs, "id"@, 0);
    lemma_jv_lookup_at(kvs, "title"@, 1);
    lemma_jv_lookup_at(kvs, "description"@, 2);
    lemma_jv_lookup_at(kvs, "genre"@, 3);
    lemma_jv_lookup_at(kvs, "duration"@, 4);
    lemma_jv_lookup_at(kvs, "aspect_ratio"@, 5);
    lemma_jv_lookup_at(kvs, "layers"@, 6);
    lemma_jv_lookup_at(kvs, "metadata"@, 7);
    lemma_genre_round(s.genre);
    lemma_layers_round(s.layers);
    lemma_meta_round(s.metadata);
}


// ---------------------------------------------------------------------------
// Building the JSON form
// ---------------------------------------------------------------------------

/// An optional string as a JSON value.
fn opt_str_json(o: &Option<String>) -> (r: Json)
    ensures
        r.deep_view() == opt_str_jv(o.deep_view()),
{
    match o {
        Some(s) => Json::Str(s.clone()),
        None => Json::Null,
    }
}

/// The decimal digit character for `d` in 0..10.
fn digit_char_exec(d: u32) -> (c: char)
    requires
        d < 10,
    ensures
        c == digit_char(d as int),
{
    if d == 0 { '0' } else if d == 1 { '1' } else if d == 2 { '2' } else if d == 3 { '3' }
    else if d == 4 { '4' } else if d == 5 { '5' } else if d == 6 { '6' } else if d == 7 { '7' }
    else if d == 8 { '8' } else { '9' }
}

/// The decimal digits of `n`.
fn u32_digits(n: u32) -> (r: Vec<char>)
    ensures
        r@ == dec_digits(n as nat),
    decreases n,
{
    if n < 10 {
        let mut r: Vec<char> = Vec::new();
        r.push(digit_char_exec(n));
        proof {
            assert(r@ =~= seq![digit_char(n as int)]);
        }
        r
    } else {
        let mut r = u32_digits(n / 10);
        r.push(digit_char_exec(n % 10));
        proof {
            assert(r@ =~= dec_digits((n / 10) as nat) + seq![digit_char((n % 10) as int)]);
        }
        r
    }
}

/// The wire name of a genre.
pub fn genre_name(g: Genre) -> (r: String)
    ensures
        r@ == genre_text(g),
{
    match g {
        Genre::Anime => String::from_str("anime"),
        Genre::Horror => String::from_str("horror"),
        Genre::Scifi => String::from_str("scifi"),
        Genre::Commercial => String::from_str("commercial"),
        Genre::Brainrot => String::from_str("brainrot"),
    }
}

/// The wire name of a layer type.
pub fn layer_type_name(t: LayerType) -> (r: String)
    ensures
        r@ == layer_type_text(t),
{
    match t {
        LayerType::Video => String::from_str("video"),
        LayerType::Audio => String::from_str("audio"),
        LayerType::Text => String::from_str("text"),
    }
}

impl Asset {
    /// The JSON form of this asset.
    pub fn to_json(&self) -> (r: Json)
        ensures
            r.deep_view() == asset_jv(self.deep_view()),
    {
        let mut o: Vec<(String, Json)> = Vec::new();
        o.push((String::from_str("url"), opt_str_json(&self.url)));
        o.push((String::from_str("content"), opt_str_json(&self.content)));
        o.push((String::from_str("generation_prompt"), opt_str_json(&self.generation_prompt)));
        o.push((String::from_str("ip_id"), opt_str_json(&self.ip_id)));
        o.push((String::from_str("sha256_hash"), opt_str_json(&self.sha256_hash)));
        let r = Json::Obj(o);
        proof {
            let kvs = r.deep_view()->Obj_0;
            let want = asset_jv(self.deep_view())->Obj_0;
            assert(kvs.len() == 5);
            assert(o@.len() == 5);
            assert(o@[0].0@ == "url"@);
            assert(kvs[0] == crate::json::entry_view(o@[0]));
            assert(kvs[0] == want[0]);
            assert(o@[1].0@ == "content"@);
            assert(kvs[1] == crate::json::entry_view(o@[1]));
            assert(kvs[1] == want[1]);
            assert(o@[2].0@ == "generation_prompt"@);
            assert(kvs[2] == crate::json::entry_view(o@[2]));
            assert(kvs[2] == want[2]);
            assert(o@[3].0@ == "ip_id"@);
            assert(kvs[3] == crate::json::entry_view(o@[3]));
            assert(kvs[3] == want[3]);
            assert(o@[4].0@ == "sha256_hash"@);
            assert(kvs[4] == crate::json::entry_view(o@[4]));
            assert(kvs[4] == want[4]);
            assert(kvs =~= want);
        }
        r
    }
}

impl Layer {
    /// The JSON form of this layer.
    pub fn to_json(&self) -> (r: Json)
        ensures
            r.deep_view() == layer_jv(self.deep_view()),
    {
        let mut o: Vec<(String, Json)> = Vec::new();
        o.push((String::from_str("id"), Json::Str(self.id.clone())));
        o.push((String::from_str("layer_type"), Json::Str(layer_type_name(self.layer_type))));
        let digits = u32_digits(self.position);
        o.push((
            String::from_str("position"),
            Json::Num(JsonNum { text: crate::json::chars_into_string(&digits) }),
        ));
        o.push((String::from_str("start_time"), Json::Num(self.start_time.dup())));
        o.push((String::from_str("duration"), Json::Num(self.duration.dup())));
        o.push((String::from_str("asset"), self.asset.to_json()));
        let r = Json::Obj(o);
        proof {
            let kvs = r.deep_view()->Obj_0;
            let want = layer_jv(self.deep_view())->Obj_0;
            assert(kvs.len() == 6);
            assert(o@.len() == 6);
            assert(o@[0].0@ == "id"@);
            assert(kvs[0] == crate::json::entry_view(o@[0]));
            assert(kvs[0] == want[0]);
            assert(o@[1].0@ == "layer_type"@);
            assert(kvs[1] == crate::json::entry_view(o@[1]));
            assert(kvs[1] == want[1]);
            assert(o@[2].0@ == "position"@);
            assert(kvs[2] == crate::json::entry_view(o@[2]));
            assert(kvs[2] == want[2]);
            assert(o@[3].0@ == "start_time"@);
            assert(kvs[3] == crate::json::entry_view(o@[3]));
            assert(kvs[3] == want[3]);
            assert(o@[4].0@ == "duration"@);
            assert(kvs[4] == crate::json::entry_view(o@[4]));
            assert(kvs[4] == want[4]);
            assert(o@[5].0@ == "asset"@);
            assert(kvs[5] == crate::json::entry_view(o@[5]));
            assert(kvs[5] == want[5]);
            assert(kvs =~= want);
        }
        r
    }
}

impl StoryboardMetadata {
    /// The JSON form of this metadata.
    pub fn to_json(&self) -> (r: Json)
        ensures
            r.deep_view() == meta_jv(self.deep_view()),
    {
        let mut tags: Vec<Json> = Vec::new();
        let ghost tv = self.tags.deep_view();
        let mut i: usize = 0;
        while i < self.tags.len()
            invariant
                i <= self.tags.len(),
                tv == self.tags.deep_view(),
                tv.len() == self.tags@.len(),
                tags@.len() == i,
                forall|k: int| 0 <= k < i ==> (#[trigger] tags@[k]).deep_view() == Jv::Str(tv[k]),
            decreases self.tags.len() - i,
        {
            tags.push(Json::Str(self.tags[i].clone()));
            proof {
                assert(tv[i as int] == self.tags@[i as int]@);
            }
            i = i + 1;
        }
        proof {
            assert(crate::json::arr_view(tags@) =~= Seq::new(tv.len(), |k: int| Jv::Str(tv[k])));
        }
        let mut o: Vec<(String, Json)> = Vec::new();
        o.push((String::from_str("author"), opt_str_json(&self.author)));
        o.push((String::from_str("created_at"), opt_str_json(&self.created_at)));
        o.push((String::from_str("tags"), Json::Arr(tags)));
        o.push((String::from_str("license"), opt_str_json(&self.license)));
        o.push((String::from_str("ip_id"), opt_str_json(&self.ip_id)));
        let r = Json::Obj(o);
        proof {
            let kvs = r.deep_view()->Obj_0;
            let want = meta_jv(self.deep_view())->Obj_0;
            assert(kvs.len() == 5);
            assert(o@.len() == 5);
            assert(o@[0].0@ == "author"@);
            assert(kvs[0] == crate::json::entry_view(o@[0]));
            assert(kvs[0] == want[0]);
            assert(o@[1].0@ == "created_at"@);
            assert(kvs[1] == crate::json::entry_view(o@[1]));
            assert(kvs[1] == want[1]);
            assert(o@[2].0@ == "tags"@);
            assert(kvs[2] == crate::json::entry_view(o@[2]));
            assert(kvs[2] == want[2]);
            assert(o@[3].0@ == "license"@);
            assert(kvs[3] == crate::json::entry_view(o@[3]));
            assert(kvs[3] == want[3]);
            assert(o@[4].0@ == "ip_id"@);
            assert(kvs[4] == crate::json::entry_view(o@[4]));
            assert(kvs[4] == want[4]);
            assert(kvs =~= want);
        }
        r
    }
}

impl Storyboard {
    /// The JSON form of this storyboard.
    pub fn to_json(&self) -> (r: Json)
        ensures
            r.deep_view() == sb_jv(self.deep_view()),
    {
        let mut layers: Vec<Json> = Vec::new();
        let ghost lv = self.layers.deep_view();
        let mut i: usize = 0;
        while i < self.layers.len()
            invariant
                i <= self.layers.len(),
                lv == self.layers.deep_view(),
                lv.len() == self.layers@.len(),
                layers@.len() == i,
                forall|k: int| 0 <= k < i ==> (#[trigger] layers@[k]).deep_view() == layer_jv(
                    lv[k],
                ),
            decreases self.layers.len() - i,
        {
            let lj = self.layers[i].to_json();
            layers.push(lj);
            proof {
                assert(self.layers@[i as int].deep_view() == lv[i as int]);
            }
            i = i + 1;
        }
        proof {
            assert(crate::json::arr_view(layers@) =~= Seq::new(
                lv.len(),
                |k: int| layer_jv(lv[k]),
            ));
        }
        let mut o: Vec<(String, Json)> = Vec::new();
        o.push((String::from_str("id"), Json::Str(self.id.clone())));
        o.push((String::from_str("title"), Json::Str(self.title.clone())));
        o.push((String::from_str("description"), opt_str_json(&self.description)));
        o.push((String::from_str("genre"), Json::Str(genre_name(self.genre))));
        o.push((String::from_str("duration"), Json::Num(self.duration.dup())));
        o.push((String::from_str("aspect_ratio"), Json::Str(self.aspect_ratio.clone())));
        o.push((String::from_str("layers"), Json::Arr(layers)));
        o.push((String::from_str("metadata"), self.metadata.to_json()));
        let r = Json::Obj(o);
        proof {
            let kvs = r.deep_view()->Obj_0;
            let want = sb_jv(self.deep_view())->Obj_0;
            assert(kvs.len() == 8);
            assert(o@.len() == 8);
            assert(o@[0].0@ == "id"@);
            assert(kvs[0] == crate::json::entry_view(o@[0]));
            assert(kvs[0] == want[0]);
            assert(o@[1].0@ == "title"@);
            assert(kvs[1] == crate::json::entry_view(o@[1]));
            assert(kvs[1] == want[1]);
            assert(o@[2].0@ == "description"@);
            assert(kvs[2] == crate::json::entry_view(o@[2]));
            assert(kvs[2] == want[2]);
            assert(o@[3].0@ == "genre"@);
            assert(kvs[3] == crate::json::entry_view(o@[3]));
            assert(kvs[3] == want[3]);
            assert(o@[4].0@ == "duration"@);
            assert(kvs[4] == crate::json::entry_view(o@[4]));
            assert(kvs[4] == want[4]);
            assert(o@[5].0@ == "aspect_ratio"@);
            assert(kvs[5] == crate::json::entry_view(o@[5]));
            assert(kvs[5] == want[5]);
            assert(o@[6].0@ == "layers"@);
            assert(kvs[6] == crate::json::entry_view(o@[6]));
            assert(kvs[6] == want[6]);
            assert(o@[7].0@ == "metadata"@);
            assert(kvs[7] == crate::json::entry_view(o@[7]));
            assert(kvs[7] == want[7]);
            assert(kvs =~= want);
        }
        r
    }
}


// ---------------------------------------------------------------------------
// Reading the JSON form
// ---------------------------------------------------------------------------

/// A shape error naming the field that was wrong or missing.
fn shape_err(field: &str) -> (r: SdkError)
    ensures
        r is Json,
{
    SdkError::Json(field.to_owned())
}

/// An optional string field of an object.
fn get_opt_str(obj: &Json, key: &str) -> (r: Result<Option<String>, SdkError>)
    requires
        obj.deep_view() is Obj,
    ensures
        match r {
            Ok(o) => opt_str_from(obj.deep_view()->Obj_0, key@) == Some(o.deep_view()),
            Err(e) => opt_str_from(obj.deep_view()->Obj_0, key@) is None && e is Json,
        },
{
    match obj.get(key) {
        None => Ok(None),
        Some(v) => match v {
            Json::Null => Ok(None),
            Json::Str(t) => Ok(Some(t.clone())),
            _ => Err(shape_err(key)),
        },
    }
}

/// A required string field of an object.
fn get_req_str(obj: &Json, key: &str) -> (r: Result<String, SdkError>)
    requires
        obj.deep_view() is Obj,
    ensures
        match r {
            Ok(t) => req_str_from(obj.deep_view()->Obj_0, key@) == Some(t@),
            Err(e) => req_str_from(obj.deep_view()->Obj_0, key@) is None && e is Json,
        },
{
    match obj.get(key) {
        Some(v) => match v {
            Json::Str(t) => Ok(t.clone()),
            _ => Err(shape_err(key)),
        },
        None => Err(shape_err(key)),
    }
}

/// A required number field of an object, kept as its literal.
fn get_req_num(obj: &Json, key: &str) -> (r: Result<JsonNum, SdkError>)
    requires
        obj.deep_view() is Obj,
    ensures
        match r {
            Ok(t) => req_num_from(obj.deep_view()->Obj_0, key@) == Some(t.text@),
            Err(e) => req_num_from(obj.deep_view()->Obj_0, key@) is None && e is Json,
        },
{
    match obj.get(key) {
        Some(v) => match v {
            Json::Num(t) => Ok(t.dup()),
            _ => Err(shape_err(key)),
        },
        None => Err(shape_err(key)),
    }
}

/// The genre named by a string, if any.
pub fn genre_of_name(t: &str) -> (r: Option<Genre>)
    ensures
        r == genre_from_text(t@),
{
    if str_eq(t, "anime") { Some(Genre::Anime) } else if str_eq(t, "horror") {
        Some(Genre::Horror)
    } else if str_eq(t, "scifi") { Some(Genre::Scifi) } else if str_eq(t, "commercial") {
        Some(Genre::Commercial)
    } else if str_eq(t, "brainrot") { Some(Genre::Brainrot) } else { None }
}

/// The layer type named by a string, if any.
pub fn layer_type_of_name(t: &str) -> (r: Option<LayerType>)
    ensures
        r == layer_type_from_text(t@),
{
    if str_eq(t, "video") { Some(LayerType::Video) } else if str_eq(t, "audio") {
        Some(LayerType::Audio)
    } else if str_eq(t, "text") { Some(LayerType::Text) } else { None }
}

proof fn lemma_pow10_vals()
    ensures
        pow10(0) == 1 && pow10(1) == 10 && pow10(2) == 100 && pow10(3) == 1000 && pow10(4)
            == 10000 && pow10(5) == 100000 && pow10(6) == 1000000 && pow10(7) == 10000000
            && pow10(8) == 100000000 && pow10(9) == 1000000000 && pow10(10) == 10000000000,
{
    reveal_with_fuel(pow10, 11);
}

proof fn lemma_is_digits_iff(t: Seq<char>)
    ensures
        is_digits(t) <==> (t.len() >= 1 && forall|k: int|
            0 <= k < t.len() ==> is_digit(#[trigger] t[k])),
    decreases t.len(),
{
    if t.len() > 1 {
        lemma_is_digits_iff(t.drop_first());
        assert forall|k: int| 0 <= k < t.len() - 1 implies t.drop_first()[k] == t[k + 1] by {}
        if is_digits(t) {
            assert forall|k: int| 0 <= k < t.len() implies is_digit(#[trigger] t[k]) by {
                if k > 0 {
                    assert(is_digit(t.drop_first()[k - 1]));
                }
            }
        }
        if t.len() >= 1 && forall|k: int| 0 <= k < t.len() ==> is_digit(#[trigger] t[k]) {
            assert forall|k: int| 0 <= k < t.drop_first().len() implies is_digit(
                #[trigger] t.drop_first()[k],
            ) by {
                assert(t.drop_first()[k] == t[k + 1]);
            }
        }
    }
}

/// Reads a stacking position from a number literal: a plain run of digits
/// whose value fits in 32 bits.
fn parse_position(t: &JsonNum) -> (r: Result<u32, SdkError>)
    ensures
        match r {
            Ok(p) => pos_from_lit(t.text@) == Some(p),
            Err(e) => pos_from_lit(t.text@) is None && e is Json,
        },
{
    let cs = crate::json::str_to_chars(t.text.as_str());
    proof {
        lemma_is_digits_iff(cs@);
    }
    if cs.len() < 1 || cs.len() > 10 {
        proof {
            if cs@.len() < 1 {
                assert(!is_digits(t.text@));
            }
        }
        return Err(shape_err("position"));
    }
    let mut i: usize = 0;
    let mut acc: u64 = 0;
    while i < cs.len()
        invariant
            0 <= i <= cs.len() <= 10,
            cs@ == t.text@,
            forall|k: int| 0 <= k < i ==> is_digit(#[trigger] cs@[k]),
            acc as int == digits_val(cs@.take(i as int)),
            acc < pow10(i as nat),
        decreases cs.len() - i,
    {
        let c = cs[i];
        if !('0' <= c && c <= '9') {
            proof {
                assert(!is_digit(cs@[i as int]));
                lemma_is_digits_iff(cs@);
            }
            return Err(shape_err("position"));
        }
        proof {
            assert('0' as u32 == 48 && '9' as u32 == 57);
        }
        let d: u64 = (c as u32 as u64) - 48;
        proof {
            lemma_pow10_vals();
            assert(d <= 9);
            assert(i as nat <= 9);
            assert(pow10(i as nat) <= 1000000000);
            assert(cs@.take(i as int + 1).drop_last() =~= cs@.take(i as int));
            assert(cs@.take(i as int + 1).last() == cs@[i as int]);
            assert(pow10((i + 1) as nat) == 10 * pow10(i as nat));
        }
        acc = acc * 10 + d;
        i = i + 1;
    }
    proof {
        lemma_is_digits_iff(cs@);
    }
    proof {
        assert(cs@.take(cs@.len() as int) =~= cs@);
    }
    if acc <= 0xffff_ffffu64 {
        Ok(acc as u32)
    } else {
        Err(shape_err("position"))
    }
}


/// Prefixes already-read layers onto a partial result.
pub open spec fn prepend_layers(pre: Seq<LayerV>, r: Option<Seq<LayerV>>) -> Option<Seq<LayerV>> {
    match r {
        Some(rest) => Some(pre + rest),
        None => None,
    }
}

/// Prefixes already-read tags onto a partial result.
pub open spec fn prepend_tags(pre: Seq<Seq<char>>, r: Option<Seq<Seq<char>>>) -> Option<
    Seq<Seq<char>>,
> {
    match r {
        Some(rest) => Some(pre + rest),
        None => None,
    }
}

impl Asset {
    /// Reads an asset from its JSON form.
    pub fn from_json(v: &Json) -> (r: Result<Asset, SdkError>)
        ensures
            match r {
                Ok(a) => asset_from_jv(v.deep_view()) == Some(a.deep_view()),
                Err(e) => asset_from_jv(v.deep_view()) is None && e is Json,
            },
    {
        match v {
            Json::Obj(_) => {
                let url = match get_opt_str(v, "url") {
                    Ok(o) => o,
                    Err(e) => { return Err(e); },
                };
                let content = match get_opt_str(v, "content") {
                    Ok(o) => o,
                    Err(e) => { return Err(e); },
                };
                let generation_prompt = match get_opt_str(v, "generation_prompt") {
                    Ok(o) => o,
                    Err(e) => { return Err(e); },
                };
                let ip_id = match get_opt_str(v, "ip_id") {
                    Ok(o) => o,
                    Err(e) => { return Err(e); },
                };
                let sha256_hash = match get_opt_str(v, "sha256_hash") {
                    Ok(o) => o,
                    Err(e) => { return Err(e); },
                };
                Ok(Asset { url, content, generation_prompt, ip_id, sha256_hash })
            },
            _ => Err(shape_err("asset")),
        }
    }
}

impl Layer {
    /// Reads a layer from its JSON form.
    pub fn from_json(v: &Json) -> (r: Result<Layer, SdkError>)
        ensures
            match r {
                Ok(l) => layer_from_jv(v.deep_view()) == Some(l.deep_view()),
                Err(e) => layer_from_jv(v.deep_view()) is None && e is Json,
            },
    {
        match v {
            Json::Obj(_) => {
                let id = match get_req_str(v, "id") {
                    Ok(t) => t,
                    Err(e) => { return Err(e); },
                };
                let lt_name = match get_req_str(v, "layer_type") {
                    Ok(t) => t,
                    Err(e) => { return Err(e); },
                };
                let layer_type = match layer_type_of_name(lt_name.as_str()) {
                    Some(t) => t,
                    None => { return Err(shape_err("layer_type")); },
                };
                let pos_lit = match get_req_num(v, "position") {
                    Ok(t) => t,
                    Err(e) => { return Err(e); },
                };
                let position = match parse_position(&pos_lit) {
                    Ok(p) => p,
                    Err(e) => { return Err(e); },
                };
                let start_time = match get_req_num(v, "start_time") {
                    Ok(t) => t,
                    Err(e) => { return Err(e); },
                };
                let duration = match get_req_num(v, "duration") {
                    Ok(t) => t,
                    Err(e) => { return Err(e); },
                };
                let asset = match v.get("asset") {
                    Some(av) => match Asset::from_json(av) {
                        Ok(a) => a,
                        Err(e) => { return Err(e); },
                    },
                    None => { return Err(shape_err("asset")); },
                };
                Ok(Layer { id, layer_type, position, start_time, duration, asset })
            },
            _ => Err(shape_err("layer")),
        }
    }
}

/// Reads a sequence of layers from JSON values.
fn layers_from_json(es: &Vec<Json>) -> (r: Result<Vec<Layer>, SdkError>)
    ensures
        match r {
            Ok(ls) => layers_from_jv(crate::json::arr_view(es@)) == Some(ls.deep_view()),
            Err(e) => layers_from_jv(crate::json::arr_view(es@)) is None && e is Json,
        },
{
    let ghost vs = crate::json::arr_view(es@);
    let mut out: Vec<Layer> = Vec::new();
    proof {
        assert(vs.skip(0) =~= vs);
        match layers_from_jv(vs) {
            Some(rest) => {
                assert(Seq::<LayerV>::empty() + rest =~= rest);
            },
            None => {},
        }
        assert(out.deep_view() =~= Seq::<LayerV>::empty());
    }
    let mut i: usize = 0;
    while i < es.len()
        invariant
            i <= es.len(),
            vs == crate::json::arr_view(es@),
            vs.len() == es@.len(),
            out.deep_view().len() == i,
            layers_from_jv(vs) == prepend_layers(out.deep_view(), layers_from_jv(
                vs.skip(i as int),
            )),
        decreases es.len() - i,
    {
        let ghost pre = out.deep_view();
        proof {
            assert(vs.skip(i as int)[0] == vs[i as int]);
            assert(vs[i as int] == es@[i as int].deep_view());
            assert(vs.skip(i as int).drop_first() =~= vs.skip(i as int + 1));
        }
        match Layer::from_json(&es[i]) {
            Ok(l) => {
                let ghost ldv = l.deep_view();
                out.push(l);
                proof {
                    assert(out.deep_view() =~= pre.push(ldv));
                    assert(pre.push(ldv) =~= pre + seq![ldv]);
                    match layers_from_jv(vs.skip(i as int + 1)) {
                        Some(rest) => {
                            assert(pre + (seq![ldv] + rest) =~= (pre + seq![ldv]) + rest);
                        },
                        None => {},
                    }
                }
            },
            Err(e) => {
                return Err(e);
            },
        }
        i = i + 1;
    }
    proof {
        assert(vs.skip(es@.len() as int).len() == 0);
        assert(out.deep_view() + Seq::<LayerV>::empty() =~= out.deep_view());
    }
    Ok(out)
}

/// Reads the tag list from JSON values.
fn tags_from_json(es: &Vec<Json>) -> (r: Result<Vec<String>, SdkError>)
    ensures
        match r {
            Ok(ts) => tags_from_jv(crate::json::arr_view(es@)) == Some(ts.deep_view()),
            Err(e) => tags_from_jv(crate::json::arr_view(es@)) is None && e is Json,
        },
{
    let ghost vs = crate::json::arr_view(es@);
    let mut out: Vec<String> = Vec::new();
    proof {
        assert(vs.skip(0) =~= vs);
        match tags_from_jv(vs) {
            Some(rest) => {
                assert(Seq::<Seq<char>>::empty() + rest =~= rest);
            },
            None => {},
        }
        assert(out.deep_view() =~= Seq::<Seq<char>>::empty());
    }
    let mut i: usize = 0;
    while i < es.len()
        invariant
            i <= es.len(),
            vs == crate::json::arr_view(es@),
            vs.len() == es@.len(),
            out.deep_view().len() == i,
            tags_from_jv(vs) == prepend_tags(out.deep_view(), tags_from_jv(vs.skip(i as int))),
        decreases es.len() - i,
    {
        let ghost pre = out.deep_view();
        proof {
            assert(vs.skip(i as int)[0] == vs[i as int]);
            assert(vs[i as int] == es@[i as int].deep_view());
            assert(vs.skip(i as int).drop_first() =~= vs.skip(i as int + 1));
        }
        match &es[i] {
            Json::Str(t) => {
                let ghost tdv = t@;
                out.push(t.clone());
                proof {
                    assert(out.deep_view() =~= pre.push(tdv));
                    assert(pre.push(tdv) =~= pre + seq![tdv]);
                    match tags_from_jv(vs.skip(i as int + 1)) {
                        Some(rest) => {
                            assert(pre + (seq![tdv] + rest) =~= (pre + seq![tdv]) + rest);
                        },
                        None => {},
                    }
                }
            },
            _ => {
                return Err(shape_err("tags"));
            },
        }
        i = i + 1;
    }
    proof {
        assert(vs.skip(es@.len() as int).len() == 0);
        assert(out.deep_view() + Seq::<Seq<char>>::empty() =~= out.deep_view());
    }
    Ok(out)
}

impl StoryboardMetadata {
    /// The all-empty metadata.
    pub fn empty() -> (r: StoryboardMetadata)
        ensures
            r.deep_view() == meta_empty(),
    {
        let r = StoryboardMetadata {
            author: None,
            created_at: None,
            tags: Vec::new(),
            license: None,
            ip_id: None,
        };
        proof {
            assert(r.deep_view().tags =~= meta_empty().tags);
        }
        r
    }

    /// Reads metadata from its JSON form.
    pub fn from_json(v: &Json) -> (r: Result<StoryboardMetadata, SdkError>)
        ensures
            match r {
                Ok(m) => meta_from_jv(v.deep_view()) == Some(m.deep_view()),
                Err(e) => meta_from_jv(v.deep_view()) is None && e is Json,
            },
    {
        match v {
            Json::Obj(_) => {
                let author = match get_opt_str(v, "author") {
                    Ok(o) => o,
                    Err(e) => { return Err(e); },
                };
                let created_at = match get_opt_str(v, "created_at") {
                    Ok(o) => o,
                    Err(e) => { return Err(e); },
                };
                let tags = match v.get("tags") {
                    None => Vec::new(),
                    Some(tv) => match tv {
                        Json::Null => Vec::new(),
                        Json::Arr(es) => match tags_from_json(es) {
                            Ok(ts) => ts,
                            Err(e) => { return Err(e); },
                        },
                        _ => { return Err(shape_err("tags")); },
                    },
                };
                let license = match get_opt_str(v, "license") {
                    Ok(o) => o,
                    Err(e) => { return Err(e); },
                };
                let ip_id = match get_opt_str(v, "ip_id") {
                    Ok(o) => o,
                    Err(e) => { return Err(e); },
                };
                let r = StoryboardMetadata { author, created_at, tags, license, ip_id };
                proof {
                    if r.tags@.len() == 0 {
                        assert(r.deep_view().tags =~= Seq::<Seq<char>>::empty());
                    }
                }
                Ok(r)
            },
            _ => Err(shape_err("metadata")),
        }
    }
}

impl Storyboard {
    /// Reads a storyboard from its JSON form.
    pub fn from_json(v: &Json) -> (r: Result<Storyboard, SdkError>)
        ensures
            match r {
                Ok(sb) => sb_from_jv(v.deep_view()) == Some(sb.deep_view()),
                Err(e) => sb_from_jv(v.deep_view()) is None && e is Json,
            },
    {
        match v {
            Json::Obj(_) => {
                let id = match get_req_str(v, "id") {
                    Ok(t) => t,
                    Err(e) => { return Err(e); },
                };
                let title = match get_req_str(v, "title") {
                    Ok(t) => t,
                    Err(e) => { return Err(e); },
                };
                let description = match get_opt_str(v, "description") {
                    Ok(o) => o,
                    Err(e) => { return Err(e); },
                };
                let genre_str = match get_req_str(v, "genre") {
                    Ok(t) => t,
                    Err(e) => { return Err(e); },
                };
                let genre = match genre_of_name(genre_str.as_str()) {
                    Some(g) => g,
                    None => { return Err(shape_err("genre")); },
                };
                let duration = match get_req_num(v, "duration") {
                    Ok(t) => t,
                    Err(e) => { return Err(e); },
                };
                let aspect_ratio = match get_req_str(v, "aspect_ratio") {
                    Ok(t) => t,
                    Err(e) => { return Err(e); },
                };
                let layers = match v.get("layers") {
                    Some(lv) => match lv {
                        Json::Arr(es) => match layers_from_json(es) {
                            Ok(ls) => ls,
                            Err(e) => { return Err(e); },
                        },
                        _ => { return Err(shape_err("layers")); },
                    },
                    None => { return Err(shape_err("layers")); },
                };
                let metadata = match v.get("metadata") {
                    None => StoryboardMetadata::empty(),
                    Some(mv) => match StoryboardMetadata::from_json(mv) {
                        Ok(m) => m,
                        Err(e) => { return Err(e); },
                    },
                };
                Ok(
                    Storyboard {
                        id,
                        title,
                        description,
                        genre,
                        duration,
                        aspect_ratio,
                        layers,
                        metadata,
                    },
                )
            },
            _ => Err(shape_err("storyboard")),
        }
    }
}


impl Storyboard {
    /// Whether every number field holds a well-formed decimal literal.
    ///
    /// This holds of every loaded storyboard and of every number built with
    /// [`JsonNum::new`]; only a number struct written by hand can break it.
    pub fn check_well_formed(&self) -> (r: bool)
        ensures
            r == sb_wf(self.deep_view()),
    {
        let ghost dv = self.deep_view();
        if !self.duration.is_well_formed() {
            return false;
        }
        let ghost lv = self.layers.deep_view();
        let mut i: usize = 0;
        while i < self.layers.len()
            invariant
                i <= self.layers.len(),
                dv == self.deep_view(),
                lv == self.layers.deep_view(),
                lv == dv.layers,
                lv.len() == self.layers@.len(),
                forall|k: int| 0 <= k < i ==> layer_wf(#[trigger] lv[k]),
            decreases self.layers.len() - i,
        {
            let l = &self.layers[i];
            proof {
                assert(lv[i as int] == self.layers@[i as int].deep_view());
            }
            if !l.start_time.is_well_formed() || !l.duration.is_well_formed() {
                proof {
                    assert(!layer_wf(dv.layers[i as int]));
                }
                return false;
            }
            proof {
                assert(layer_wf(lv[i as int]));
            }
            i = i + 1;
        }
        true
    }

    /// The storyboard as pretty-printed JSON text: the serialization of
    /// its JSON form, keys in declared order, absent options written as
    /// null, one field per line with two spaces of indentation per level.
    ///
    /// Fails with a `Json` error when a number field does not hold a
    /// well-formed decimal literal, since its text could not be a JSON
    /// document.
    pub fn to_json_text(&self) -> (r: Result<String, SdkError>)
        ensures
            r is Ok <==> sb_wf(self.deep_view()),
            r matches Ok(t) ==> t@ == crate::json::jser_pretty(sb_jv(self.deep_view()), 0),
            r matches Err(e) ==> e is Json,
    {
        if !self.check_well_formed() {
            return Err(
                SdkError::Json(
                    String::from_str("a number field is not a well-formed decimal literal"),
                ),
            );
        }
        let j = self.to_json();
        Ok(j.to_pretty_text())
    }

    /// Reads a storyboard from JSON text and validates it.
    ///
    /// Fails with a `Json` error when the text is not a JSON document or
    /// does not have the storyboard shape, and with a `Validation` error
    /// when the document violates a validation rule.
    pub fn from_json_text(text: &str) -> (r: Result<Storyboard, SdkError>)
        ensures
            match r {
                Ok(sb) => crate::json::jparse(text@) matches Some(v) && sb_from_jv(v) == Some(
                    sb.deep_view(),
                ) && sb_valid(sb.deep_view()),
                Err(e) => match crate::json::jparse(text@) {
                    None => e is Json,
                    Some(v) => match sb_from_jv(v) {
                        None => e is Json,
                        Some(sv) => !sb_valid(sv) && e is Validation,
                    },
                },
            },
    {
        let parsed = match crate::json::parse_json(text) {
            Ok(v) => v,
            Err(_) => {
                return Err(SdkError::Json(String::from_str("not a valid JSON document")));
            },
        };
        let sb = match Storyboard::from_json(&parsed) {
            Ok(sb) => sb,
            Err(e) => { return Err(e); },
        };
        match sb.validate() {
            Ok(_) => Ok(sb),
            Err(e) => Err(e),
        }
    }
}


// ---------------------------------------------------------------------------
// The machine-readable description of the storyboard shape
// ---------------------------------------------------------------------------

/// A leaf schema: `{"type": t}`.
pub open spec fn type_schema_jv(t: Seq<char>) -> Jv {
    Jv::Obj(seq![("type"@, Jv::Str(t))])
}

/// A leaf schema for an optional field: `{"type": t, "optional": true}`.
pub open spec fn opt_type_schema_jv(t: Seq<char>) -> Jv {
    Jv::Obj(seq![("type"@, Jv::Str(t)), ("optional"@, Jv::Bool(true))])
}

/// An enumeration schema: `{"enum": [..members..]}`.
pub open spec fn enum_schema_jv(members: Seq<Seq<char>>) -> Jv {
    Jv::Obj(seq![("enum"@, Jv::Arr(Seq::new(members.len(), |i: int| Jv::Str(members[i]))))])
}

/// The schema of an asset: every field an optional string.
pub open spec fn asset_schema_jv() -> Jv {
    Jv::Obj(
        seq![
            ("type"@, Jv::Str("object"@)),
            (
                "properties"@,
                Jv::Obj(
                    seq![
                        ("url"@, opt_type_schema_jv("string"@)),
                        ("content"@, opt_type_schema_jv("string"@)),
                        ("generation_prompt"@, opt_type_schema_jv("string"@)),
                        ("ip_id"@, opt_type_schema_jv("string"@)),
                        ("sha256_hash"@, opt_type_schema_jv("string"@)),
                    ],
                ),
            ),
        ],
    )
}

/// The schema of a layer.
pub open spec fn layer_schema_jv() -> Jv {
    Jv::Obj(
        seq![
            ("type"@, Jv::Str("object"@)),
            (
                "properties"@,
                Jv::Obj(
                    seq![
                        ("id"@, type_schema_jv("string"@)),
                        ("layer_type"@, enum_schema_jv(seq!["video"@, "audio"@, "text"@])),
                        ("position"@, type_schema_jv("integer"@)),
                        ("start_time"@, type_schema_jv("number"@)),
                        ("duration"@, type_schema_jv("number"@)),
                        ("asset"@, asset_schema_jv()),
                    ],
                ),
            ),
            (
                "required"@,
                Jv::Arr(
                    seq![
                        Jv::Str("id"@),
                        Jv::Str("layer_type"@),
                        Jv::Str("position"@),
                        Jv::Str("start_time"@),
                        Jv::Str("duration"@),
                        Jv::Str("asset"@),
                    ],
                ),
            ),
        ],
    )
}

/// The schema of the metadata.
pub open spec fn meta_schema_jv() -> Jv {
    Jv::Obj(
        seq![
            ("type"@, Jv::Str("object"@)),
            (
                "properties"@,
                Jv::Obj(
                    seq![
                        ("author"@, opt_type_schema_jv("string"@)),
                        ("created_at"@, opt_type_schema_jv("string"@)),
                        (
                            "tags"@,
                            Jv::Obj(
                                seq![
                                    ("type"@, Jv::Str("array"@)),
                                    ("items"@, type_schema_jv("string"@)),
                                ],
                            ),
                        ),
                        ("license"@, opt_type_schema_jv("string"@)),
                        ("ip_id"@, opt_type_schema_jv("string"@)),
                    ],
                ),
            ),
        ],
    )
}

/// The schema of a storyboard document: field names, types, enumeration
/// members and which fields are required.
pub open spec fn storyboard_schema_jv() -> Jv {
    Jv::Obj(
        seq![
            ("title"@, Jv::Str("Storyboard"@)),
            ("type"@, Jv::Str("object"@)),
            (
                "properties"@,
                Jv::Obj(
                    seq![
                        ("id"@, type_schema_jv("string"@)),
                        ("title"@, type_schema_jv("string"@)),
                        ("description"@, opt_type_schema_jv("string"@)),
                        (
                            "genre"@,
                            enum_schema_jv(
                                seq!["anime"@, "horror"@, "scifi"@, "commercial"@, "brainrot"@],
                            ),
                        ),
                        ("duration"@, type_schema_jv("number"@)),
                        ("aspect_ratio"@, type_schema_jv("string"@)),
                        (
                            "layers"@,
                            Jv::Obj(
                                seq![
                                    ("type"@, Jv::Str("array"@)),
                                    ("items"@, layer_schema_jv()),
                                ],
                            ),
                        ),
                        ("metadata"@, meta_schema_jv()),
                    ],
                ),
            ),
            (
                "required"@,
                Jv::Arr(
                    seq![
                        Jv::Str("id"@),
                        Jv::Str("title"@),
                        Jv::Str("genre"@),
                        Jv::Str("duration"@),
                        Jv::Str("aspect_ratio"@),
                        Jv::Str("layers"@),
                    ],
                ),
            ),
        ],
    )
}

/// A leaf schema: `{"type": t}`.
fn type_schema(t: &str) -> (r: Json)
    ensures
        r.deep_view() == type_schema_jv(t@),
{
    let mut o: Vec<(String, Json)> = Vec::new();
    o.push((String::from_str("type"), Json::Str(t.to_owned())));
    let r = Json::Obj(o);
    proof {
        assert(o@[0].0@ == "type"@);
        assert(r.deep_view()->Obj_0[0] == crate::json::entry_view(o@[0]));
        assert(r.deep_view()->Obj_0 =~= type_schema_jv(t@)->Obj_0);
    }
    r
}

/// A leaf schema for an optional field.
fn opt_type_schema(t: &str) -> (r: Json)
    ensures
        r.deep_view() == opt_type_schema_jv(t@),
{
    let mut o: Vec<(String, Json)> = Vec::new();
    o.push((String::from_str("type"), Json::Str(t.to_owned())));
    o.push((String::from_str("optional"), Json::Bool(true)));
    let r = Json::Obj(o);
    proof {
        assert(o@[0].0@ == "type"@);
        assert(o@[1].0@ == "optional"@);
        assert(r.deep_view()->Obj_0[0] == crate::json::entry_view(o@[0]));
        assert(r.deep_view()->Obj_0[1] == crate::json::entry_view(o@[1]));
        assert(r.deep_view()->Obj_0 =~= opt_type_schema_jv(t@)->Obj_0);
    }
    r
}

/// An enumeration schema over string members.
fn enum_schema(members: Vec<String>) -> (r: Json)
    ensures
        r.deep_view() == enum_schema_jv(members.deep_view()),
{
    let ghost mv = members.deep_view();
    let mut items: Vec<Json> = Vec::new();
    let mut i: usize = 0;
    while i < members.len()
        invariant
            i <= members.len(),
            mv == members.deep_view(),
            mv.len() == members@.len(),
            items@.len() == i,
            forall|k: int| 0 <= k < i ==> (#[trigger] items@[k]).deep_view() == Jv::Str(mv[k]),
        decreases members.len() - i,
    {
        items.push(Json::Str(members[i].clone()));
        proof {
            assert(mv[i as int] == members@[i as int]@);
        }
        i = i + 1;
    }
    proof {
        assert(crate::json::arr_view(items@) =~= Seq::new(mv.len(), |k: int| Jv::Str(mv[k])));
    }
    let mut o: Vec<(String, Json)> = Vec::new();
    o.push((String::from_str("enum"), Json::Arr(items)));
    let r = Json::Obj(o);
    proof {
        assert(o@[0].0@ == "enum"@);
        assert(r.deep_view()->Obj_0[0] == crate::json::entry_view(o@[0]));
        assert(r.deep_view()->Obj_0 =~= enum_schema_jv(mv)->Obj_0);
    }
    r
}

impl Storyboard {
    /// The machine-readable description of the storyboard document shape:
    /// its field names, their types, the enumeration members, and which
    /// fields are required.
    pub fn json_schema() -> (r: Json)
        ensures
            r.deep_view() == storyboard_schema_jv(),
    {
        let mut asset_props: Vec<(String, Json)> = Vec::new();
        asset_props.push((String::from_str("url"), opt_type_schema("string")));
        asset_props.push((String::from_str("content"), opt_type_schema("string")));
        asset_props.push((String::from_str("generation_prompt"), opt_type_schema("string")));
        asset_props.push((String::from_str("ip_id"), opt_type_schema("string")));
        asset_props.push((String::from_str("sha256_hash"), opt_type_schema("string")));
        let mut asset_o: Vec<(String, Json)> = Vec::new();
        asset_o.push((String::from_str("type"), Json::Str(String::from_str("object"))));
        asset_o.push((String::from_str("properties"), Json::Obj(asset_props)));
        let asset_schema = Json::Obj(asset_o);
        proof {
            assert(asset_props@.len() == 5);
            assert(asset_props@[0].0@ == "url"@);
            assert(crate::json::obj_view(asset_props@)[0] == crate::json::entry_view(asset_props@[0]));
            assert(asset_props@[1].0@ == "content"@);
            assert(crate::json::obj_view(asset_props@)[1] == crate::json::entry_view(asset_props@[1]));
            assert(asset_props@[2].0@ == "generation_prompt"@);
            assert(crate::json::obj_view(asset_props@)[2] == crate::json::entry_view(asset_props@[2]));
            assert(asset_props@[3].0@ == "ip_id"@);
            assert(crate::json::obj_view(asset_props@)[3] == crate::json::entry_view(asset_props@[3]));
            assert(asset_props@[4].0@ == "sha256_hash"@);
            assert(crate::json::obj_view(asset_props@)[4] == crate::json::entry_view(asset_props@[4]));
            assert(crate::json::obj_view(asset_props@) =~= asset_schema_jv()->Obj_0[1].1->Obj_0);
            assert(asset_o@.len() == 2);
            assert(asset_o@[0].0@ == "type"@);
            assert(crate::json::obj_view(asset_o@)[0] == crate::json::entry_view(asset_o@[0]));
            assert(asset_o@[1].0@ == "properties"@);
            assert(crate::json::obj_view(asset_o@)[1] == crate::json::entry_view(asset_o@[1]));
            assert(crate::json::obj_view(asset_o@) =~= asset_schema_jv()->Obj_0);
        }
        let mut lt_members: Vec<String> = Vec::new();
        lt_members.push(String::from_str("video"));
        lt_members.push(String::from_str("audio"));
        lt_members.push(String::from_str("text"));
        proof {
            assert(lt_members.deep_view() =~= seq!["video"@, "audio"@, "text"@]);
        }
        let mut layer_props: Vec<(String, Json)> = Vec::new();
        layer_props.push((String::from_str("id"), type_schema("string")));
        layer_props.push((String::from_str("layer_type"), enum_schema(lt_members)));
        layer_props.push((String::from_str("position"), type_schema("integer")));
        layer_props.push((String::from_str("start_time"), type_schema("number")));
        layer_props.push((String::from_str("duration"), type_schema("number")));
        layer_props.push((String::from_str("asset"), asset_schema));
        let mut layer_req: Vec<Json> = Vec::new();
        layer_req.push(Json::Str(String::from_str("id")));
        layer_req.push(Json::Str(String::from_str("layer_type")));
        layer_req.push(Json::Str(String::from_str("position")));
        layer_req.push(Json::Str(String::from_str("start_time")));
        layer_req.push(Json::Str(String::from_str("duration")));
        layer_req.push(Json::Str(String::from_str("asset")));
        let mut layer_o: Vec<(String, Json)> = Vec::new();
        layer_o.push((String::from_str("type"), Json::Str(String::from_str("object"))));
        layer_o.push((String::from_str("properties"), Json::Obj(layer_props)));
        layer_o.push((String::from_str("required"), Json::Arr(layer_req)));
        let layer_schema = Json::Obj(layer_o);
        proof {
            assert(layer_props@.len() == 6);
            assert(layer_props@[0].0@ == "id"@);
            assert(crate::json::obj_view(layer_props@)[0] == crate::json::entry_view(layer_props@[0]));
            assert(layer_props@[1].0@ == "layer_type"@);
            assert(crate::json::obj_view(layer_props@)[1] == crate::json::entry_view(layer_props@[1]));
            assert(layer_props@[2].0@ == "position"@);
            assert(crate::json::obj_view(layer_props@)[2] == crate::json::entry_view(layer_props@[2]));
            assert(layer_props@[3].0@ == "start_time"@);
            assert(crate::json::obj_view(layer_props@)[3] == crate::json::entry_view(layer_props@[3]));
            assert(layer_props@[4].0@ == "duration"@);
            assert(crate::json::obj_view(layer_props@)[4] == crate::json::entry_view(layer_props@[4]));
            assert(layer_props@[5].0@ == "asset"@);
            assert(crate::json::obj_view(layer_props@)[5] == crate::json::entry_view(layer_props@[5]));
            assert(crate::json::obj_view(layer_props@) =~= layer_schema_jv()->Obj_0[1].1->Obj_0);
            assert(layer_req@.len() == 6);
            assert(crate::json::arr_view(layer_req@)[0] == layer_req@[0].deep_view());
            assert(crate::json::arr_view(layer_req@)[1] == layer_req@[1].deep_view());
            assert(crate::json::arr_view(layer_req@)[2] == layer_req@[2].deep_view());
            assert(crate::json::arr_view(layer_req@)[3] == layer_req@[3].deep_view());
            assert(crate::json::arr_view(layer_req@)[4] == layer_req@[4].deep_view());
            assert(crate::json::arr_view(layer_req@)[5] == layer_req@[5].deep_view());
            assert(crate::json::arr_view(layer_req@) =~= layer_schema_jv()->Obj_0[2].1->Arr_0);
            assert(layer_o@.len() == 3);
            assert(layer_o@[0].0@ == "type"@);
            assert(crate::json::obj_view(layer_o@)[0] == crate::json::entry_view(layer_o@[0]));
            assert(layer_o@[1].0@ == "properties"@);
            assert(crate::json::obj_view(layer_o@)[1] == crate::json::entry_view(layer_o@[1]));
            assert(layer_o@[2].0@ == "required"@);
            assert(crate::json::obj_view(layer_o@)[2] == crate::json::entry_view(layer_o@[2]));
            assert(crate::json::obj_view(layer_o@) =~= layer_schema_jv()->Obj_0);
        }
        let mut meta_props: Vec<(String, Json)> = Vec::new();
        meta_props.push((String::from_str("author"), opt_type_schema("string")));
        meta_props.push((String::from_str("created_at"), opt_type_schema("string")));
        let mut tags_o: Vec<(String, Json)> = Vec::new();
        tags_o.push((String::from_str("type"), Json::Str(String::from_str("array"))));
        tags_o.push((String::from_str("items"), type_schema("string")));
        let tags_schema = Json::Obj(tags_o);
        meta_props.push((String::from_str("tags"), tags_schema));
        meta_props.push((String::from_str("license"), opt_type_schema("string")));
        meta_props.push((String::from_str("ip_id"), opt_type_schema("string")));
        let mut meta_o: Vec<(String, Json)> = Vec::new();
        meta_o.push((String::from_str("type"), Json::Str(String::from_str("object"))));
        meta_o.push((String::from_str("properties"), Json::Obj(meta_props)));
        let meta_schema = Json::Obj(meta_o);
        proof {
            assert(tags_o@.len() == 2);
            assert(tags_o@[0].0@ == "type"@);
            assert(crate::json::obj_view(tags_o@)[0] == crate::json::entry_view(tags_o@[0]));
            assert(tags_o@[1].0@ == "items"@);
            assert(crate::json::obj_view(tags_o@)[1] == crate::json::entry_view(tags_o@[1]));
            assert(crate::json::obj_view(tags_o@) =~= meta_schema_jv()->Obj_0[1].1->Obj_0[2].1->Obj_0);
            assert(meta_props@.len() == 5);
            assert(meta_props@[0].0@ == "author"@);
            assert(crate::json::obj_view(meta_props@)[0] == crate::json::entry_view(meta_props@[0]));
            assert(meta_props@[1].0@ == "created_at"@);
            assert(crate::json::obj_view(meta_props@)[1] == crate::json::entry_view(meta_props@[1]));
            assert(meta_props@[2].0@ == "tags"@);
            assert(crate::json::obj_view(meta_props@)[2] == crate::json::entry_view(meta_props@[2]));
            assert(meta_props@[3].0@ == "license"@);
            assert(crate::json::obj_view(meta_props@)[3] == crate::json::entry_view(meta_props@[3]));
            assert(meta_props@[4].0@ == "ip_id"@);
            assert(crate::json::obj_view(meta_props@)[4] == crate::json::entry_view(meta_props@[4]));
            assert(crate::json::obj_view(meta_props@) =~= meta_schema_jv()->Obj_0[1].1->Obj_0);
            assert(meta_o@.len() == 2);
            assert(meta_o@[0].0@ == "type"@);
            assert(crate::json::obj_view(meta_o@)[0] == crate::json::entry_view(meta_o@[0]));
            assert(meta_o@[1].0@ == "properties"@);
            assert(crate::json::obj_view(meta_o@)[1] == crate::json::entry_view(meta_o@[1]));
            assert(crate::json::obj_view(meta_o@) =~= meta_schema_jv()->Obj_0);
        }
        let mut g_members: Vec<String> = Vec::new();
        g_members.push(String::from_str("anime"));
        g_members.push(String::from_str("horror"));
        g_members.push(String::from_str("scifi"));
        g_members.push(String::from_str("commercial"));
        g_members.push(String::from_str("brainrot"));
        proof {
            assert(g_members.deep_view() =~= seq![
                "anime"@,
                "horror"@,
                "scifi"@,
                "commercial"@,
                "brainrot"@,
            ]);
        }
        let mut props: Vec<(String, Json)> = Vec::new();
        props.push((String::from_str("id"), type_schema("string")));
        props.push((String::from_str("title"), type_schema("string")));
        props.push((String::from_str("description"), opt_type_schema("string")));
        props.push((String::from_str("genre"), enum_schema(g_members)));
        props.push((String::from_str("duration"), type_schema("number")));
        props.push((String::from_str("aspect_ratio"), type_schema("string")));
        let mut layers_o: Vec<(String, Json)> = Vec::new();
        layers_o.push((String::from_str("type"), Json::Str(String::from_str("array"))));
        layers_o.push((String::from_str("items"), layer_schema));
        let layers_schema = Json::Obj(layers_o);
        props.push((String::from_str("layers"), layers_schema));
        props.push((String::from_str("metadata"), meta_schema));
        let mut req: Vec<Json> = Vec::new();
        req.push(Json::Str(String::from_str("id")));
        req.push(Json::Str(String::from_str("title")));
        req.push(Json::Str(String::from_str("genre")));
        req.push(Json::Str(String::from_str("duration")));
        req.push(Json::Str(String::from_str("aspect_ratio")));
        req.push(Json::Str(String::from_str("layers")));
        let mut top: Vec<(String, Json)> = Vec::new();
        top.push((String::from_str("title"), Json::Str(String::from_str("Storyboard"))));
        top.push((String::from_str("type"), Json::Str(String::from_str("object"))));
        top.push((String::from_str("properties"), Json::Obj(props)));
        top.push((String::from_str("required"), Json::Arr(req)));
        let r = Json::Obj(top);
        proof {
            assert(layers_o@.len() == 2);
            assert(layers_o@[0].0@ == "type"@);
            assert(crate::json::obj_view(layers_o@)[0] == crate::json::entry_view(layers_o@[0]));
            assert(layers_o@[1].0@ == "items"@);
            assert(crate::json::obj_view(layers_o@)[1] == crate::json::entry_view(layers_o@[1]));
            assert(crate::json::obj_view(layers_o@) =~= storyboard_schema_jv()->Obj_0[2].1->Obj_0[6].1->Obj_0);
            assert(props@.len() == 8);
            assert(props@[0].0@ == "id"@);
            assert(crate::json::obj_view(props@)[0] == crate::json::entry_view(props@[0]));
            assert(props@[1].0@ == "title"@);
            assert(crate::json::obj_view(props@)[1] == crate::json::entry_view(props@[1]));
            assert(props@[2].0@ == "description"@);
            assert(crate::json::obj_view(props@)[2] == crate::json::entry_view(props@[2]));
            assert(props@[3].0@ == "genre"@);
            assert(crate::json::obj_view(props@)[3] == crate::json::entry_view(props@[3]));
            assert(props@[4].0@ == "duration"@);
            assert(crate::json::obj_view(props@)[4] == crate::json::entry_view(props@[4]));
            assert(props@[5].0@ == "aspect_ratio"@);
            assert(crate::json::obj_view(props@)[5] == crate::json::entry_view(props@[5]));
            assert(props@[6].0@ == "layers"@);
            assert(crate::json::obj_view(props@)[6] == crate::json::entry_view(props@[6]));
            assert(props@[7].0@ == "metadata"@);
            assert(crate::json::obj_view(props@)[7] == crate::json::entry_view(props@[7]));
            assert(crate::json::obj_view(props@) =~= storyboard_schema_jv()->Obj_0[2].1->Obj_0);
            assert(req@.len() == 6);
            assert(crate::json::arr_view(req@)[0] == req@[0].deep_view());
            assert(crate::json::arr_view(req@)[1] == req@[1].deep_view());
            assert(crate::json::arr_view(req@)[2] == req@[2].deep_view());
            assert(crate::json::arr_view(req@)[3] == req@[3].deep_view());
            assert(crate::json::arr_view(req@)[4] == req@[4].deep_view());
            assert(crate::json::arr_view(req@)[5] == req@[5].deep_view());
            assert(crate::json::arr_view(req@) =~= storyboard_schema_jv()->Obj_0[3].1->Arr_0);
            assert(top@.len() == 4);
            assert(top@[0].0@ == "title"@);
            assert(crate::json::obj_view(top@)[0] == crate::json::entry_view(top@[0]));
            assert(top@[1].0@ == "type"@);
            assert(crate::json::obj_view(top@)[1] == crate::json::entry_view(top@[1]));
            assert(top@[2].0@ == "properties"@);
            assert(crate::json::obj_view(top@)[2] == crate::json::entry_view(top@[2]));
            assert(top@[3].0@ == "required"@);
            assert(crate::json::obj_view(top@)[3] == crate::json::entry_view(top@[3]));
            assert(crate::json::obj_view(top@) =~= storyboard_schema_jv()->Obj_0);
        }
        r
    }
}


// ---------------------------------------------------------------------------
// Well-formedness of the JSON form, and the save/load round trip.
// ---------------------------------------------------------------------------

proof fn lemma_digits_state(n: nat)
    ensures
        num_state(0, dec_digits(n)) == if n == 0 { 2int } else { 3int },
    decreases n,
{
    if n < 10 {
        let d = digit_char(n as int);
        assert(dec_digits(n) =~= seq![d]);
        assert(num_state(0, seq![d]) == num_state(num_step(0, d), seq![d].drop_first()));
        assert(seq![d].drop_first().len() == 0);
    } else {
        lemma_digits_state(n / 10);
        let a = dec_digits(n / 10);
        let d = digit_char((n % 10) as int);
        assert(dec_digits(n) =~= a.push(d));
        lemma_num_state_snoc(0, a, d);
        assert(is_digit(d));
    }
}

/// Decimal digit runs are well-formed number literals.
proof fn lemma_digits_lit(n: nat)
    ensures
        is_num_lit(dec_digits(n)),
{
    lemma_digits_state(n);
}


proof fn lemma_opt_str_jv_wf(o: Option<Seq<char>>)
    ensures
        jv_wf(opt_str_jv(o)),
{
}

proof fn lemma_asset_jv_wf(a: AssetV)
    ensures
        jv_wf(asset_jv(a)),
{
    let kvs = asset_jv(a)->Obj_0;
    assert(kvs.drop_first().drop_first().drop_first().drop_first().drop_first().len() == 0);
    assert(jv_wf_entries(kvs.drop_first().drop_first().drop_first().drop_first().drop_first()));
    assert(kvs.drop_first().drop_first().drop_first().drop_first()[0] == kvs[4]);
    lemma_opt_str_jv_wf(a.sha256_hash);
    assert(jv_wf(kvs[4].1));
    assert(jv_wf_entries(kvs.drop_first().drop_first().drop_first().drop_first()));
    assert(kvs.drop_first().drop_first().drop_first()[0] == kvs[3]);
    lemma_opt_str_jv_wf(a.ip_id);
    assert(jv_wf(kvs[3].1));
    assert(jv_wf_entries(kvs.drop_first().drop_first().drop_first()));
    assert(kvs.drop_first().drop_first()[0] == kvs[2]);
    lemma_opt_str_jv_wf(a.generation_prompt);
    assert(jv_wf(kvs[2].1));
    assert(jv_wf_entries(kvs.drop_first().drop_first()));
    assert(kvs.drop_first()[0] == kvs[1]);
    lemma_opt_str_jv_wf(a.content);
    assert(jv_wf(kvs[1].1));
    assert(jv_wf_entries(kvs.drop_first()));
    assert(kvs[0] == kvs[0]);
    lemma_opt_str_jv_wf(a.url);
    assert(jv_wf(kvs[0].1));
    assert(jv_wf_entries(kvs));
    assert(asset_jv(a) == Jv::Obj(kvs));
    assert(jv_wf(Jv::Obj(kvs)));
}

proof fn lemma_str_seq_wf(ts: Seq<Seq<char>>)
    ensures
        jv_wf_seq(Seq::new(ts.len(), |i: int| Jv::Str(ts[i]))),
    decreases ts.len(),
{
    let es = Seq::new(ts.len(), |i: int| Jv::Str(ts[i]));
    if ts.len() > 0 {
        assert(es[0] == Jv::Str(ts[0]));
        lemma_str_seq_wf(ts.drop_first());
        assert(es.drop_first() =~= Seq::new(
            ts.drop_first().len(),
            |i: int| Jv::Str(ts.drop_first()[i]),
        ));
        assert(jv_wf(es[0]));
        assert(jv_wf_seq(es.drop_first()));
        assert(jv_wf_seq(es));
    } else {
        assert(jv_wf_seq(es));
    }
}

proof fn lemma_layer_jv_wf(l: LayerV)
    requires
        layer_wf(l),
    ensures
        jv_wf(layer_jv(l)),
{
    let kvs = layer_jv(l)->Obj_0;
    lemma_digits_lit(l.position as nat);
    lemma_asset_jv_wf(l.asset);
    assert(kvs.drop_first().drop_first().drop_first().drop_first().drop_first().drop_first().len() == 0);
    assert(jv_wf_entries(kvs.drop_first().drop_first().drop_first().drop_first().drop_first().drop_first()));
    assert(kvs.drop_first().drop_first().drop_first().drop_first().drop_first()[0] == kvs[5]);
    assert(jv_wf(kvs[5].1));
    assert(jv_wf_entries(kvs.drop_first().drop_first().drop_first().drop_first().drop_first()));
    assert(kvs.drop_first().drop_first().drop_first().drop_first()[0] == kvs[4]);
    assert(jv_wf(kvs[4].1));
    assert(jv_wf_entries(kvs.drop_first().drop_first().drop_first().drop_first()));
    assert(kvs.drop_first().drop_first().drop_first()[0] == kvs[3]);
    assert(jv_wf(kvs[3].1));
    assert(jv_wf_entries(kvs.drop_first().drop_first().drop_first()));
    assert(kvs.drop_first().drop_first()[0] == kvs[2]);
    assert(jv_wf(kvs[2].1));
    assert(jv_wf_entries(kvs.drop_first().drop_first()));
    assert(kvs.drop_first()[0] == kvs[1]);
    assert(jv_wf(kvs[1].1));
    assert(jv_wf_entries(kvs.drop_first()));
    assert(kvs[0] == kvs[0]);
    assert(jv_wf(kvs[0].1));
    assert(jv_wf_entries(kvs));
    assert(layer_jv(l) == Jv::Obj(kvs));
    assert(jv_wf(Jv::Obj(kvs)));
}

proof fn lemma_layers_seq_wf(ls: Seq<LayerV>)
    requires
        forall|i: int| 0 <= i < ls.len() ==> layer_wf(#[trigger] ls[i]),
    ensures
        jv_wf_seq(Seq::new(ls.len(), |i: int| layer_jv(ls[i]))),
    decreases ls.len(),
{
    let es = Seq::new(ls.len(), |i: int| layer_jv(ls[i]));
    if ls.len() > 0 {
        assert(es[0] == layer_jv(ls[0]));
        lemma_layer_jv_wf(ls[0]);
        assert forall|i: int| 0 <= i < ls.drop_first().len() implies layer_wf(
            #[trigger] ls.drop_first()[i],
        ) by {
            assert(ls.drop_first()[i] == ls[i + 1]);
        }
        lemma_layers_seq_wf(ls.drop_first());
        assert(es.drop_first() =~= Seq::new(
            ls.drop_first().len(),
            |i: int| layer_jv(ls.drop_first()[i]),
        ));
        assert(jv_wf(es[0]));
        assert(jv_wf_seq(es.drop_first()));
        assert(jv_wf_seq(es));
    } else {
        assert(jv_wf_seq(es));
    }
}

proof fn lemma_meta_jv_wf(m: MetadataV)
    ensures
        jv_wf(meta_jv(m)),
{
    let kvs = meta_jv(m)->Obj_0;
    lemma_str_seq_wf(m.tags);
    assert(kvs.drop_first().drop_first().drop_first().drop_first().drop_first().len() == 0);
    assert(jv_wf_entries(kvs.drop_first().drop_first().drop_first().drop_first().drop_first()));
    assert(kvs.drop_first().drop_first().drop_first().drop_first()[0] == kvs[4]);
    lemma_opt_str_jv_wf(m.ip_id);
    assert(jv_wf(kvs[4].1));
    assert(jv_wf_entries(kvs.drop_first().drop_first().drop_first().drop_first()));
    assert(kvs.drop_first().drop_first().drop_first()[0] == kvs[3]);
    lemma_opt_str_jv_wf(m.license);
    assert(jv_wf(kvs[3].1));
    assert(jv_wf_entries(kvs.drop_first().drop_first().drop_first()));
    assert(kvs.drop_first().drop_first()[0] == kvs[2]);
    assert(jv_wf(kvs[2].1));
    assert(jv_wf_entries(kvs.drop_first().drop_first()));
    assert(kvs.drop_first()[0] == kvs[1]);
    lemma_opt_str_jv_wf(m.created_at);
    assert(jv_wf(kvs[1].1));
    assert(jv_wf_entries(kvs.drop_first()));
    assert(kvs[0] == kvs[0]);
    lemma_opt_str_jv_wf(m.author);
    assert(jv_wf(kvs[0].1));
    assert(jv_wf_entries(kvs));
    assert(meta_jv(m) == Jv::Obj(kvs));
    assert(jv_wf(Jv::Obj(kvs)));
}

/// The JSON form of a well-formed storyboard is a well-formed document.
proof fn lemma_sb_jv_wf(s: StoryboardV)
    requires
        sb_wf(s),
    ensures
        jv_wf(sb_jv(s)),
{
    let kvs = sb_jv(s)->Obj_0;
    lemma_layers_seq_wf(s.layers);
    lemma_meta_jv_wf(s.metadata);
    assert(kvs.drop_first().drop_first().drop_first().drop_first().drop_first().drop_first().drop_first().drop_first().len() == 0);
    assert(jv_wf_entries(kvs.drop_first().drop_first().drop_first().drop_first().drop_first().drop_first().drop_first().drop_first()));
    assert(kvs.drop_first().drop_first().drop_first().drop_first().drop_first().drop_first().drop_first()[0] == kvs[7]);
    assert(jv_wf(kvs[7].1));
    assert(jv_wf_entries(kvs.drop_first().drop_first().drop_first().drop_first().drop_first().drop_first().drop_first()));
    assert(kvs.drop_first().drop_first().drop_first().drop_first().drop_first().drop_first()[0] == kvs[6]);
    assert(jv_wf(kvs[6].1));
    assert(jv_wf_entries(kvs.drop_first().drop_first().drop_first().drop_first().drop_first().drop_first()));
    assert(kvs.drop_first().drop_first().drop_first().drop_first().drop_first()[0] == kvs[5]);
    assert(jv_wf(kvs[5].1));
    assert(jv_wf_entries(kvs.drop_first().drop_first().drop_first().drop_first().drop_first()));
    assert(kvs.drop_first().drop_first().drop_first().drop_first()[0] == kvs[4]);
    assert(jv_wf(kvs[4].1));
    assert(jv_wf_entries(kvs.drop_first().drop_first().drop_first().drop_first()));
    assert(kvs.drop_first().drop_first().drop_first()[0] == kvs[3]);
    assert(jv_wf(kvs[3].1));
    assert(jv_wf_entries(kvs.drop_first().drop_first().drop_first()));
    assert(kvs.drop_first().drop_first()[0] == kvs[2]);
    lemma_opt_str_jv_wf(s.description);
    assert(jv_wf(kvs[2].1));
    assert(jv_wf_entries(kvs.drop_first().drop_first()));
    assert(kvs.drop_first()[0] == kvs[1]);
    assert(jv_wf(kvs[1].1));
    assert(jv_wf_entries(kvs.drop_first()));
    assert(kvs[0] == kvs[0]);
    assert(jv_wf(kvs[0].1));
    assert(jv_wf_entries(kvs));
    assert(sb_jv(s) == Jv::Obj(kvs));
    assert(jv_wf(Jv::Obj(kvs)));
}

/// The save/load round trip, end to end: serializing the JSON form of a
/// well-formed storyboard — pretty-printed as Save writes it, or compact —
/// parsing the text back, and reading the document yields the same
/// storyboard, layer order and optional-field presence included.
pub proof fn lemma_save_load_round_trip(s: StoryboardV)
    requires
        sb_wf(s),
    ensures
        crate::json::jparse(crate::json::jser_pretty(sb_jv(s), 0)) == Some(sb_jv(s)),
        crate::json::jparse(crate::json::jser(sb_jv(s))) == Some(sb_jv(s)),
        sb_from_jv(sb_jv(s)) == Some(s),
{
    lemma_sb_jv_wf(s);
    crate::json::lemma_parse_of_jser_pretty(sb_jv(s));
    crate::json::lemma_parse_of_jser(sb_jv(s));
    lemma_storyboard_round_trip(s);
}

} // verus!
