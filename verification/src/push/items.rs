//! The records that describe a family, its metadata, its designers and the variation axes,
//! and the rules that build them from font files, METADATA.pb data, HTML and JSON.
use vstd::prelude::*;
use skrifa::raw::TableProvider;
use skrifa::string::StringId;
use skrifa::MetadataProvider;
use crate::error::GftoolsError;
use crate::html::{html_text, parse_html};
use crate::json::{json_display, json_text, Json};
use crate::text::{
    join, lemma_join_split,
    clone_opt_string, clone_strings, copy_vec, item_views, CopyView, opt_string_eq, opt_view, replace_all, replace_str, split,
    split_str, strings_eq, to_uppercase, unicode_uppercase, views,
};

verus! {

/// The name ID of a font's family name in its `name` table.
pub const FAMILY_NAME_ID: u16 = 1;

/// The name ID of a font's version string in its `name` table.
pub const VERSION_STRING_ID: u16 = 5;

/// Names whether `skrifa::FontRef::new` accepts `data` as a single font.
pub uninterp spec fn font_data_parses(data: Seq<u8>) -> bool;

/// Names what a font's `name` table gives for `name_id`: the string that
/// `LocalizedStrings::english_or_first` picks ("en-US" first, then "en", then a string without a
/// language, then the first one), as characters; `None` when the font has no such string or
/// `data` is not a font.
pub uninterp spec fn font_name_string(data: Seq<u8>, name_id: u16) -> Option<Seq<char>>;

/// Names the text of the `fontRevision` of a font's `head` table as `Fixed`'s `Display` writes
/// it; `None` when the table cannot be read or `data` is not a font.
pub uninterp spec fn font_head_revision(data: Seq<u8>) -> Option<Seq<char>>;

/// Calls `skrifa::FontRef::new` on `data` and keeps only whether it succeeded, with its error.
#[verifier::external_body]
fn font_ref_check(data: &[u8]) -> (r: Result<(), skrifa::raw::ReadError>)
    ensures
        r is Ok <==> font_data_parses(data@),
{
    skrifa::FontRef::new(data).map(|_| ())
}

/// Calls `localized_strings(..).english_or_first()` on the font in `data`; the result is named
/// by `font_name_string`.
#[verifier::external_body]
fn localized_english_or_first(data: &[u8], name_id: u16) -> (r: Option<String>)
    ensures
        opt_view(r) == font_name_string(data@, name_id),
{
    skrifa::FontRef::new(data).ok().and_then(
        |font| font.localized_strings(StringId::new(name_id)).english_or_first().map(|name| name.chars().collect())
    )
}

/// Calls `head()` on the font in `data` and writes its `font_revision()`; the result is named by
/// `font_head_revision`.
#[verifier::external_body]
fn head_font_revision(data: &[u8]) -> (r: Option<String>)
    ensures
        opt_view(r) == font_head_revision(data@),
{
    skrifa::FontRef::new(data).ok().and_then(|font| font.head().ok()).map(|head| head.font_revision().to_string())
}

/// The optional text, or the empty text.
pub open spec fn or_empty(o: Option<Seq<char>>) -> Seq<char> {
    match o {
        Some(s) => s,
        None => seq![],
    }
}

/// The optional string, or the empty string.
fn string_or_empty(o: Option<String>) -> (r: String)
    ensures
        r@ == or_empty(opt_view(o)),
{
    match o {
        Some(s) => s,
        None => String::new(),
    }
}

/// A font family at a given version.
#[derive(Debug)]
pub struct Family {
    pub name: String,
    pub version: String,
}

/// What a `Family` says.
pub struct FamilyView {
    pub name: Seq<char>,
    pub version: Seq<char>,
}

impl View for Family {
    type V = FamilyView;

    open spec fn view(&self) -> FamilyView {
        FamilyView { name: self.name@, version: self.version@ }
    }
}

/// A font's version: its version string, else the revision in its `head` table, else "0.0.0".
pub open spec fn version_text(version_string: Option<Seq<char>>, head_revision: Option<Seq<char>>) -> Seq<char> {
    match version_string {
        Some(v) => v,
        None => match head_revision {
            Some(h) => h,
            None => "0.0.0"@,
        },
    }
}

/// The family that a font describes, from its family name, its version string and its `head`
/// revision; a font without a family name belongs to "Unknown family".
pub open spec fn family_from_strings(
    family_name: Option<Seq<char>>,
    version_string: Option<Seq<char>>,
    head_revision: Option<Seq<char>>,
) -> FamilyView {
    FamilyView {
        name: match family_name {
            Some(n) => n,
            None => "Unknown family"@,
        },
        version: version_text(version_string, head_revision),
    }
}

/// The family that the font in `data` describes.
pub open spec fn family_of_font(data: Seq<u8>) -> FamilyView {
    family_from_strings(
        font_name_string(data, FAMILY_NAME_ID),
        font_name_string(data, VERSION_STRING_ID),
        font_head_revision(data),
    )
}

/// The version of the font in `data`: its version string, else its `head` revision, else "0.0.0".
pub fn font_version(data: &[u8]) -> (r: String)
    ensures
        r@ == version_text(font_name_string(data@, VERSION_STRING_ID), font_head_revision(data@)),
{
    match localized_english_or_first(data, VERSION_STRING_ID) {
        Some(version) => version,
        None => match head_font_revision(data) {
            Some(revision) => revision,
            None => String::from_str("0.0.0"),
        },
    }
}

impl Family {
    /// The family described by a family name, a version string and a `head` revision, each as
    /// the font gives it.
    pub fn from_strings(
        family_name: Option<String>,
        version_string: Option<String>,
        head_revision: Option<String>,
    ) -> (r: Family)
        ensures
            r@ == family_from_strings(
                opt_view(family_name),
                opt_view(version_string),
                opt_view(head_revision),
            ),
    {
        let name = match family_name {
            Some(n) => n,
            None => String::from_str("Unknown family"),
        };
        let version = match version_string {
            Some(v) => v,
            None => match head_revision {
                Some(h) => h,
                None => String::from_str("0.0.0"),
            },
        };
        Family { name, version }
    }

    /// The family that the font in `data` describes.
    pub fn from_fontref(data: &[u8]) -> (r: Family)
        ensures
            r@ == family_of_font(data@),
    {
        let family = localized_english_or_first(data, FAMILY_NAME_ID);
        let name = match family {
            Some(n) => n,
            None => String::from_str("Unknown family"),
        };
        let version = font_version(data);
        Family { name, version }
    }

    /// The family that the font file with contents `data` describes; an error when `data` is
    /// not a font.
    pub fn from_font_data(data: &[u8]) -> (r: Result<Family, GftoolsError>)
        ensures
            r is Ok <==> font_data_parses(data@),
            r matches Ok(f) ==> f@ == family_of_font(data@),
            r matches Err(e) ==> e is FontParse,
    {
        match font_ref_check(data) {
            Ok(()) => Ok(Family::from_fontref(data)),
            Err(e) => Err(GftoolsError::FontParse(e)),
        }
    }

    /// The error that the JSON `data` names no family.
    fn family_not_found(data: &Json) -> (r: GftoolsError)
        ensures
            r.misc_message() == Some("Couldn't find family in JSON: "@ + json_display(*data)),
    {
        let msg = String::from_str("Couldn't find family in JSON: ");
        GftoolsError::Misc(msg.concat(json_text(data).as_str()))
    }

    /// The family that a Google Fonts server describes with the JSON `data`: the family named
    /// by its string member "family", looked up on the server at `url`. Looking a family up on
    /// a server by its name is not available, so `data` must name none; the answer is then the
    /// error that the JSON names no family.
    pub fn from_googlefonts_json(data: &Json, url: &str) -> (r: Result<Family, GftoolsError>)
        requires
            !(data.get_spec("family"@) matches Some(v) && v.str_spec() is Some),
        ensures
            r matches Err(e) && e.misc_message() == Some("Couldn't find family in JSON: "@ + json_display(*data)),
    {
        Err(Family::family_not_found(data))
    }

    /// Whether the two families have the same name and version.
    pub fn same_as(&self, other: &Family) -> (r: bool)
        ensures
            r == (self@ == other@),
    {
        self.name == other.name && self.version == other.version
    }
}

impl Clone for Family {
    fn clone(&self) -> (r: Self)
        ensures
            r@ == self@,
    {
        Family { name: self.name.clone(), version: self.version.clone() }
    }
}

/// A floating-point number of the axis registry, held as its IEEE 754 binary32 bit pattern.
#[derive(Clone, Copy, Debug)]
pub struct Float32 {
    pub bits: u32,
}

/// Whether the bit pattern is a NaN.
pub open spec fn is_nan(bits: u32) -> bool {
    (bits & 0x7f80_0000u32) == 0x7f80_0000u32 && (bits & 0x007f_ffffu32) != 0
}

/// Whether the bit pattern is a zero of either sign.
pub open spec fn is_zero(bits: u32) -> bool {
    (bits & 0x7fff_ffffu32) == 0
}

/// Whether `f32`'s `==` holds of the two numbers: neither is a NaN, and they are the same
/// number or both zeros.
pub open spec fn float32_eq(a: Float32, b: Float32) -> bool {
    !is_nan(a.bits) && !is_nan(b.bits) && (a.bits == b.bits || (is_zero(a.bits) && is_zero(b.bits)))
}

impl Float32 {
    /// Whether the two numbers are equal as `f32`'s `==` compares them.
    pub fn equals(&self, other: &Float32) -> (r: bool)
        ensures
            r == float32_eq(*self, *other),
    {
        let a = self.bits;
        let b = other.bits;
        let a_nan = (a & 0x7f80_0000u32) == 0x7f80_0000u32 && (a & 0x007f_ffffu32) != 0;
        let b_nan = (b & 0x7f80_0000u32) == 0x7f80_0000u32 && (b & 0x007f_ffffu32) != 0;
        !a_nan && !b_nan && (a == b || ((a & 0x7fff_ffffu32) == 0 && (b & 0x7fff_ffffu32) == 0))
    }
}

/// A named value that an axis falls back to.
#[derive(Debug)]
pub struct AxisFallback {
    pub name: String,
    pub value: Float32,
}

/// What an `AxisFallback` says.
pub struct AxisFallbackView {
    pub name: Seq<char>,
    pub value: Float32,
}

impl View for AxisFallback {
    type V = AxisFallbackView;

    open spec fn view(&self) -> AxisFallbackView {
        AxisFallbackView { name: self.name@, value: self.value }
    }
}

/// Whether two fallbacks are equal field by field, the values as `f32`s.
pub open spec fn fallback_eq(a: AxisFallbackView, b: AxisFallbackView) -> bool {
    a.name == b.name && float32_eq(a.value, b.value)
}

impl AxisFallback {
    /// Whether the two fallbacks are equal field by field, the values as `f32`s.
    pub fn same_as(&self, other: &AxisFallback) -> (r: bool)
        ensures
            r == fallback_eq(self@, other@),
    {
        self.name == other.name && self.value.equals(&other.value)
    }
}

impl Clone for AxisFallback {
    fn clone(&self) -> (r: Self)
        ensures
            r@ == self@,
    {
        AxisFallback { name: self.name.clone(), value: self.value }
    }
}

/// The views of a list of fallbacks.
pub open spec fn fallback_views(v: Seq<AxisFallback>) -> Seq<AxisFallbackView> {
    v.map_values(|f: AxisFallback| f@)
}

/// A variation axis as the axis registry describes it.
#[derive(Debug)]
pub struct Axis {
    pub tag: String,
    pub display_name: String,
    pub min_value: Float32,
    pub default_value: Float32,
    pub max_value: Float32,
    pub precision: Float32,
    pub fallback: Vec<AxisFallback>,
    pub fallback_only: bool,
    pub description: String,
}

/// What an `Axis` says.
pub struct AxisView {
    pub tag: Seq<char>,
    pub display_name: Seq<char>,
    pub min_value: Float32,
    pub default_value: Float32,
    pub max_value: Float32,
    pub precision: Float32,
    pub fallback: Seq<AxisFallbackView>,
    pub fallback_only: bool,
    pub description: Seq<char>,
}

impl View for Axis {
    type V = AxisView;

    open spec fn view(&self) -> AxisView {
        AxisView {
            tag: self.tag@,
            display_name: self.display_name@,
            min_value: self.min_value,
            default_value: self.default_value,
            max_value: self.max_value,
            precision: self.precision,
            fallback: fallback_views(self.fallback@),
            fallback_only: self.fallback_only,
            description: self.description@,
        }
    }
}

/// Whether two axes are equal field by field, the numbers compared as `f32`s.
pub open spec fn axis_eq(a: AxisView, b: AxisView) -> bool {
    &&& a.tag == b.tag
    &&& a.display_name == b.display_name
    &&& float32_eq(a.min_value, b.min_value)
    &&& float32_eq(a.default_value, b.default_value)
    &&& float32_eq(a.max_value, b.max_value)
    &&& float32_eq(a.precision, b.precision)
    &&& a.fallback.len() == b.fallback.len()
    &&& forall|i: int| 0 <= i < a.fallback.len() ==> #[trigger] fallback_eq(a.fallback[i], b.fallback[i])
    &&& a.fallback_only == b.fallback_only
    &&& a.description == b.description
}

impl Axis {
    /// Whether the two axes are equal field by field, the numbers compared as `f32`s.
    pub fn same_as(&self, other: &Axis) -> (r: bool)
        ensures
            r == axis_eq(self@, other@),
    {
        if !(self.tag == other.tag && self.display_name == other.display_name
            && self.min_value.equals(&other.min_value) && self.default_value.equals(&other.default_value)
            && self.max_value.equals(&other.max_value) && self.precision.equals(&other.precision)
            && self.fallback_only == other.fallback_only && self.description == other.description) {
            return false;
        }
        if self.fallback.len() != other.fallback.len() {
            return false;
        }
        let mut i: usize = 0;
        while i < self.fallback.len()
            invariant
                self.fallback@.len() == other.fallback@.len(),
                i <= self.fallback@.len(),
                forall|j: int| 0 <= j < i ==> #[trigger] fallback_eq(self.fallback@[j]@, other.fallback@[j]@),
            decreases self.fallback@.len() - i,
        {
            if !self.fallback[i].same_as(&other.fallback[i]) {
                assert(!fallback_eq(self@.fallback[i as int], other@.fallback[i as int]));
                return false;
            }
            i = i + 1;
        }
        assert forall|j: int| 0 <= j < self@.fallback.len() implies #[trigger] fallback_eq(self@.fallback[j], other@.fallback[j]) by {
            assert(fallback_eq(self.fallback@[j]@, other.fallback@[j]@));
        }
        true
    }
}

impl CopyView for AxisFallback {
    fn copy_view(&self) -> (r: AxisFallback) {
        self.clone()
    }
}

impl Clone for Axis {
    fn clone(&self) -> (r: Self)
        ensures
            r@ == self@,
    {
        let fallback = copy_vec(&self.fallback);
        assert(fallback_views(fallback@) =~= item_views(fallback@));
        assert(fallback_views(self.fallback@) =~= item_views(self.fallback@));
        Axis {
            tag: self.tag.clone(),
            display_name: self.display_name.clone(),
            min_value: self.min_value,
            default_value: self.default_value,
            max_value: self.max_value,
            precision: self.precision,
            fallback,
            fallback_only: self.fallback_only,
            description: self.description.clone(),
        }
    }
}

/// A type designer and their biography.
#[derive(Debug)]
pub struct Designer {
    pub name: String,
    pub bio: String,
}

/// What a `Designer` says.
pub struct DesignerView {
    pub name: Seq<char>,
    pub bio: Seq<char>,
}

impl View for Designer {
    type V = DesignerView;

    open spec fn view(&self) -> DesignerView {
        DesignerView { name: self.name@, bio: self.bio@ }
    }
}

impl Clone for Designer {
    fn clone(&self) -> (r: Self)
        ensures
            r@ == self@,
    {
        Designer { name: self.name.clone(), bio: self.bio.clone() }
    }
}

impl CopyView for Designer {
    fn copy_view(&self) -> (r: Designer) {
        self.clone()
    }
}

/// The views of a list of designers.
pub open spec fn designer_views(v: Seq<Designer>) -> Seq<DesignerView> {
    v.map_values(|d: Designer| d@)
}

/// The fields of a designer's METADATA.pb (`DesignerInfoProto`) that the library reads.
#[derive(Debug)]
pub struct DesignerInfoProto {
    pub designer: Option<String>,
}

/// The designer that a designer directory describes: the name from its METADATA.pb, the
/// biography from its `bio.html` when there is one.
pub open spec fn designer_from_info(data: DesignerInfoProto, bio_html: Option<Seq<char>>) -> DesignerView {
    DesignerView {
        name: or_empty(opt_view(data.designer)),
        bio: match bio_html {
            Some(h) => html_text(h),
            None => seq![],
        },
    }
}

/// Whether the member `key` of `data` is a string.
pub open spec fn has_string_member(data: Json, key: Seq<char>) -> bool {
    data.get_spec(key) matches Some(v) && v.str_spec() is Some
}

/// The string member `key` of `data`, when it is one.
pub open spec fn string_member(data: Json, key: Seq<char>) -> Seq<char> {
    data.get_spec(key)->Some_0.str_spec()->Some_0
}

/// The copy of the string member `key` of `data`, if `data` has one.
fn get_string(data: &Json, key: &str) -> (r: Option<String>)
    ensures
        r is Some <==> has_string_member(*data, key@),
        r matches Some(s) ==> s@ == string_member(*data, key@),
{
    match data.get(key) {
        Some(v) => match v.as_str() {
            Some(s) => Some(s.clone()),
            None => None,
        },
        None => None,
    }
}

impl Designer {
    /// The designer that a designer directory describes, from its METADATA.pb data and the HTML
    /// source of its `bio.html`, when the directory has one.
    pub fn from_path(data: DesignerInfoProto, bio_html: Option<String>) -> (r: Designer)
        ensures
            r@ == designer_from_info(data, opt_view(bio_html)),
    {
        let bio = match bio_html {
            Some(h) => parse_html(h.as_str()),
            None => String::new(),
        };
        Designer { name: string_or_empty(data.designer), bio }
    }

    /// The designer that a Google Fonts server describes with the JSON `data`: its string
    /// members "designer" and "bio".
    pub fn from_googlefonts_json(data: &Json, url: &str) -> (r: Result<Designer, GftoolsError>)
        ensures
            !has_string_member(*data, "designer"@) ==> (r matches Err(e) && e.misc_message()
                == Some("Couldn't find designer in JSON: "@ + json_display(*data))),
            has_string_member(*data, "designer"@) && !has_string_member(*data, "bio"@) ==> (r matches Err(e)
                && e.misc_message() == Some("Couldn't find bio in JSON: "@ + json_display(*data))),
            has_string_member(*data, "designer"@) && has_string_member(*data, "bio"@) ==> (r matches Ok(d)
                && d@ == (DesignerView { name: string_member(*data, "designer"@), bio: string_member(*data, "bio"@) })),
    {
        let name = match get_string(data, "designer") {
            Some(n) => n,
            None => {
                let msg = String::from_str("Couldn't find designer in JSON: ");
                return Err(GftoolsError::Misc(msg.concat(json_text(data).as_str())));
            },
        };
        let bio = match get_string(data, "bio") {
            Some(b) => b,
            None => {
                let msg = String::from_str("Couldn't find bio in JSON: ");
                return Err(GftoolsError::Misc(msg.concat(json_text(data).as_str())));
            },
        };
        Ok(Designer { name, bio })
    }

    /// Whether the two designers have the same name and biography.
    pub fn same_as(&self, other: &Designer) -> (r: bool)
        ensures
            r == (self@ == other@),
    {
        self.name == other.name && self.bio == other.bio
    }
}

/// The fields of a family's METADATA.pb (`FamilyProto`) that the library reads; an unset
/// optional field is `None`.
#[derive(Debug)]
pub struct FamilyProto {
    pub name: Option<String>,
    pub designer: Option<String>,
    pub license: Option<String>,
    pub category: Vec<String>,
    pub subsets: Vec<String>,
    pub stroke: Option<String>,
    pub classifications: Vec<String>,
    pub display_name: Option<String>,
    pub primary_script: Option<String>,
    pub minisite_url: Option<String>,
}

/// The metadata of a family as the Google Fonts servers publish it.
#[derive(Debug)]
pub struct FamilyMeta {
    pub name: String,
    pub display_name: Option<String>,
    pub designers: Vec<Designer>,
    pub license: String,
    pub category: String,
    pub subsets: Vec<String>,
    pub stroke: String,
    pub classifications: Vec<String>,
    pub description: String,
    pub primary_script: Option<String>,
    pub article: Vec<String>,
    pub minisite_url: Option<String>,
}

/// What a `FamilyMeta` says.
pub struct FamilyMetaView {
    pub name: Seq<char>,
    pub display_name: Option<Seq<char>>,
    pub designers: Seq<DesignerView>,
    pub license: Seq<char>,
    pub category: Seq<char>,
    pub subsets: Seq<Seq<char>>,
    pub stroke: Seq<char>,
    pub classifications: Seq<Seq<char>>,
    pub description: Seq<char>,
    pub primary_script: Option<Seq<char>>,
    pub article: Seq<Seq<char>>,
    pub minisite_url: Option<Seq<char>>,
}

impl View for FamilyMeta {
    type V = FamilyMetaView;

    open spec fn view(&self) -> FamilyMetaView {
        FamilyMetaView {
            name: self.name@,
            display_name: opt_view(self.display_name),
            designers: designer_views(self.designers@),
            license: self.license@,
            category: self.category@,
            subsets: views(self.subsets@),
            stroke: self.stroke@,
            classifications: views(self.classifications@),
            description: self.description@,
            primary_script: opt_view(self.primary_script),
            article: views(self.article@),
            minisite_url: opt_view(self.minisite_url),
        }
    }
}

/// The stroke of a family: its METADATA.pb stroke with "_," turned into spaces, in upper case;
/// without one, its first category; without a category, "UNKNOWN".
pub open spec fn stroke_from(stroke: Option<Seq<char>>, category: Seq<Seq<char>>) -> Seq<char> {
    match stroke {
        Some(x) => unicode_uppercase(replace_all(x, "_,"@, " "@)),
        None => if category.len() > 0 {
            category[0]
        } else {
            "UNKNOWN"@
        },
    }
}

/// The designers named, separated by ", ", in a METADATA.pb designer field, each without a
/// biography.
pub open spec fn designers_from(designer: Option<Seq<char>>) -> Seq<DesignerView> {
    match designer {
        Some(x) => split(x, ", "@).map_values(|n: Seq<char>| DesignerView { name: n, bio: seq![] }),
        None => seq![],
    }
}

/// The metadata that a family directory describes: its METADATA.pb data, the HTML source of
/// `article/ARTICLE.en_us.html` and of `DESCRIPTION.en_us.html` when the directory has them.
pub open spec fn family_meta_from(
    data: FamilyProto,
    article_html: Option<Seq<char>>,
    description_html: Option<Seq<char>>,
) -> FamilyMetaView {
    FamilyMetaView {
        name: or_empty(opt_view(data.name)),
        display_name: opt_view(data.display_name),
        designers: designers_from(opt_view(data.designer)),
        license: or_empty(opt_view(data.license)),
        category: if data.category@.len() > 0 {
            data.category@[0]@
        } else {
            seq![]
        },
        subsets: views(data.subsets@),
        stroke: stroke_from(opt_view(data.stroke), views(data.category@)),
        classifications: views(data.classifications@),
        description: match description_html {
            Some(h) => html_text(h),
            None => seq![],
        },
        primary_script: opt_view(data.primary_script),
        article: match article_html {
            Some(h) => seq![html_text(h)],
            None => seq![],
        },
        minisite_url: opt_view(data.minisite_url),
    }
}

/// The designers named in a METADATA.pb designer field, each without a biography.
fn designers_from_field(designer: &Option<String>) -> (r: Vec<Designer>)
    ensures
        designer_views(r@) == designers_from(opt_view(*designer)),
{
    match designer {
        Some(x) => {
            proof {
                reveal_strlit(", ");
            }
            let names = split_str(x.as_str(), ", ");
            let ghost target = designers_from(opt_view(*designer));
            let mut r: Vec<Designer> = Vec::new();
            let mut i: usize = 0;
            while i < names.len()
                invariant
                    i <= names@.len(),
                    target == views(names@).map_values(|n: Seq<char>| DesignerView { name: n, bio: seq![] }),
                    designer_views(r@) == target.take(i as int),
                decreases names@.len() - i,
            {
                let d = Designer { name: names[i].clone(), bio: String::new() };
                let ghost before = r@;
                r.push(d);
                assert(designer_views(before).len() == i);
                assert(r@ =~= before.push(d));
                assert(designer_views(r@) =~= target.take(i + 1)) by {
                    assert forall|j: int| 0 <= j < i + 1 implies designer_views(r@)[j] == target.take(i + 1)[j] by {
                        if j < i {
                            assert(designer_views(before)[j] == target.take(i as int)[j]);
                            assert(r@[j] == before[j]);
                        } else {
                            assert(r@[j] == d);
                        }
                    }
                }
                i = i + 1;
            }
            assert(target.take(names@.len() as int) =~= target);
            r
        },
        None => {
            let r: Vec<Designer> = Vec::new();
            assert(designer_views(r@) =~= seq![]);
            r
        },
    }
}

/// A copy of the designers.
fn clone_designers(v: &Vec<Designer>) -> (r: Vec<Designer>)
    ensures
        designer_views(r@) == designer_views(v@),
{
    let r = copy_vec(v);
    assert(designer_views(r@) =~= item_views(r@));
    assert(designer_views(v@) =~= item_views(v@));
    r
}

/// Whether the two lists hold the same designers in the same order.
fn designers_eq(a: &Vec<Designer>, b: &Vec<Designer>) -> (r: bool)
    ensures
        r == (designer_views(a@) == designer_views(b@)),
{
    if a.len() != b.len() {
        assert(designer_views(a@).len() != designer_views(b@).len());
        return false;
    }
    let mut i: usize = 0;
    while i < a.len()
        invariant
            a@.len() == b@.len(),
            i <= a@.len(),
            forall|j: int| 0 <= j < i ==> a@[j]@ == b@[j]@,
        decreases a@.len() - i,
    {
        if !a[i].same_as(&b[i]) {
            assert(designer_views(a@)[i as int] != designer_views(b@)[i as int]);
            return false;
        }
        i = i + 1;
    }
    assert(designer_views(a@) =~= designer_views(b@));
    true
}

impl FamilyMeta {
    /// The metadata that a family directory describes, from its METADATA.pb data and the HTML
    /// sources of `article/ARTICLE.en_us.html` and `DESCRIPTION.en_us.html` when the directory
    /// has them.
    pub fn from_path(data: FamilyProto, article_html: Option<String>, description_html: Option<String>) -> (r: FamilyMeta)
        ensures
            r@ == family_meta_from(data, opt_view(article_html), opt_view(description_html)),
    {
        proof {
            reveal_strlit("_,");
        }
        let stroke = match &data.stroke {
            Some(x) => {
                let replaced = replace_str(x.as_str(), "_,", " ");
                to_uppercase(replaced.as_str())
            },
            None => if data.category.len() > 0 {
                data.category[0].clone()
            } else {
                String::from_str("UNKNOWN")
            },
        };
        let article: Vec<String> = match article_html {
            Some(h) => {
                let t = parse_html(h.as_str());
                let mut v: Vec<String> = Vec::new();
                v.push(t);
                assert(views(v@) =~= seq![t@]);
                v
            },
            None => {
                let v: Vec<String> = Vec::new();
                assert(views(v@) =~= seq![]);
                v
            },
        };
        let description = match description_html {
            Some(h) => parse_html(h.as_str()),
            None => String::new(),
        };
        let designers = designers_from_field(&data.designer);
        let category = if data.category.len() > 0 {
            data.category[0].clone()
        } else {
            String::new()
        };
        assert(views(data.category@).len() == data.category@.len());
        FamilyMeta {
            name: string_or_empty(data.name),
            display_name: data.display_name,
            designers,
            license: string_or_empty(data.license),
            category,
            subsets: data.subsets,
            stroke,
            classifications: data.classifications,
            description,
            primary_script: data.primary_script,
            article,
            minisite_url: data.minisite_url,
        }
    }

    /// Whether the two records are equal field by field.
    pub fn same_as(&self, other: &FamilyMeta) -> (r: bool)
        ensures
            r == (self@ == other@),
    {
        self.name == other.name && opt_string_eq(&self.display_name, &other.display_name)
            && designers_eq(&self.designers, &other.designers) && self.license == other.license
            && self.category == other.category && strings_eq(&self.subsets, &other.subsets)
            && self.stroke == other.stroke && strings_eq(&self.classifications, &other.classifications)
            && self.description == other.description && opt_string_eq(&self.primary_script, &other.primary_script)
            && strings_eq(&self.article, &other.article) && opt_string_eq(&self.minisite_url, &other.minisite_url)
    }
}

impl Clone for FamilyMeta {
    fn clone(&self) -> (r: Self)
        ensures
            r@ == self@,
    {
        FamilyMeta {
            name: self.name.clone(),
            display_name: clone_opt_string(&self.display_name),
            designers: clone_designers(&self.designers),
            license: self.license.clone(),
            category: self.category.clone(),
            subsets: clone_strings(&self.subsets),
            stroke: self.stroke.clone(),
            classifications: clone_strings(&self.classifications),
            description: self.description.clone(),
            primary_script: clone_opt_string(&self.primary_script),
            article: clone_strings(&self.article),
            minisite_url: clone_opt_string(&self.minisite_url),
        }
    }
}

/// The names of the designers that a METADATA.pb designer field lists, joined again with
/// ", ", give back the field.
pub proof fn lemma_designer_names_rejoin(field: Seq<char>)
    ensures
        join(designers_from(Some(field)).map_values(|d: DesignerView| d.name), ", "@) == field,
{
    reveal_strlit(", ");
    let names = split(field, ", "@);
    assert(designers_from(Some(field)).map_values(|d: DesignerView| d.name) =~= names);
    lemma_join_split(field, ", "@);
}

/// The names of the members of an object, in order.
pub open spec fn member_names(members: Seq<(String, Json)>) -> Seq<Seq<char>> {
    members.map_values(|e: (String, Json)| e.0@)
}

/// The texts of the strings among `values`, in order; the other values are left out.
pub open spec fn strings_among(values: Seq<Json>) -> Seq<Seq<char>>
    decreases values.len(),
{
    if values.len() == 0 {
        seq![]
    } else {
        let rest = strings_among(values.drop_last());
        match values.last().str_spec() {
            Some(s) => rest.push(s),
            None => rest,
        }
    }
}

/// The subsets that a "coverage" value names: the member names of an object (as a server
/// sends them), or the strings of an array (as a saved record holds them); `None` for any other
/// value.
pub open spec fn coverage_keys(value: Json) -> Option<Seq<Seq<char>>> {
    match value {
        Json::Object(m) => Some(member_names(m@)),
        Json::Array(a) => Some(strings_among(a@)),
        _ => None,
    }
}

/// The strings among values that are all strings are those strings.
proof fn lemma_strings_among_all(values: Seq<Json>, texts: Seq<Seq<char>>)
    requires
        values.len() == texts.len(),
        forall|i: int| 0 <= i < values.len() ==> #[trigger] values[i].str_spec() == Some(texts[i]),
    ensures
        strings_among(values) == texts,
    decreases values.len(),
{
    if values.len() > 0 {
        let n = values.len() - 1;
        assert forall|i: int| 0 <= i < values.drop_last().len() implies #[trigger] values.drop_last()[i].str_spec()
            == Some(texts.drop_last()[i]) by {
            assert(values[i].str_spec() == Some(texts[i]));
        }
        lemma_strings_among_all(values.drop_last(), texts.drop_last());
        assert(values[n].str_spec() == Some(texts[n]));
        assert(texts =~= texts.drop_last().push(texts[n]));
    }
}

/// Subsets saved as an array of strings (as a saved record holds them) read back as the same
/// subsets.
pub proof fn lemma_coverage_round_trip(saved: Vec<Json>, subsets: Seq<Seq<char>>)
    requires
        saved@.len() == subsets.len(),
        forall|i: int| 0 <= i < saved@.len() ==> #[trigger] saved@[i].str_spec() == Some(subsets[i]),
    ensures
        coverage_keys(Json::Array(saved)) == Some(subsets),
{
    lemma_strings_among_all(saved@, subsets);
}

/// The subsets that a "coverage" value names: the member names of an object, or the strings
/// of an array; any other value is refused with the message that serde reports.
pub fn get_keys(value: &Json) -> (r: Result<Vec<String>, String>)
    ensures
        match coverage_keys(*value) {
            Some(keys) => r matches Ok(v) && views(v@) == keys,
            None => r matches Err(m) && m@ == "Expected a map or an array of strings"@,
        },
        value matches Json::Object(m) && crate::json::distinct_names(m@) ==> (r matches Ok(v) && views(v@).no_duplicates()),
{
    match value {
        Json::Object(m) => {
            let mut r: Vec<String> = Vec::new();
            let mut i: usize = 0;
            while i < m.len()
                invariant
                    i <= m@.len(),
                    views(r@) == member_names(m@).take(i as int),
                decreases m@.len() - i,
            {
                let c = m[i].0.clone();
                let ghost before = r@;
                r.push(c);
                assert(views(before).len() == i);
                assert(r@ =~= before.push(c));
                assert(views(r@) =~= member_names(m@).take(i + 1)) by {
                    assert forall|j: int| 0 <= j < i + 1 implies views(r@)[j] == member_names(m@).take(i + 1)[j] by {
                        if j < i {
                            assert(views(before)[j] == member_names(m@).take(i as int)[j]);
                            assert(r@[j] == before[j]);
                        } else {
                            assert(r@[j] == c);
                        }
                    }
                }
                i = i + 1;
            }
            assert(member_names(m@).take(m@.len() as int) =~= member_names(m@));
            assert(crate::json::distinct_names(m@) ==> member_names(m@).no_duplicates()) by {
                if crate::json::distinct_names(m@) {
                    assert forall|a: int, b: int| 0 <= a < member_names(m@).len() && 0 <= b < member_names(m@).len() && a != b
                        implies member_names(m@)[a] != member_names(m@)[b] by {
                        if a < b {
                            assert(m@[a].0@ != m@[b].0@);
                        } else {
                            assert(m@[b].0@ != m@[a].0@);
                        }
                    }
                }
            }
            Ok(r)
        },
        Json::Array(a) => {
            let mut r: Vec<String> = Vec::new();
            let mut i: usize = 0;
            while i < a.len()
                invariant
                    i <= a@.len(),
                    views(r@) == strings_among(a@.take(i as int)),
                decreases a@.len() - i,
            {
                assert(a@.take(i + 1).drop_last() =~= a@.take(i as int));
                match a[i].as_str() {
                    Some(s) => {
                        let c = s.clone();
                        let ghost before = r@;
                        r.push(c);
                        assert(views(before).len() == views(r@).len() - 1);
                        assert(r@ =~= before.push(c));
                        assert(views(r@) =~= views(before).push(c@)) by {
                            assert forall|j: int| 0 <= j < r@.len() implies views(r@)[j] == views(before).push(c@)[j] by {
                                if j < before.len() {
                                    assert(r@[j] == before[j]);
                                }
                            }
                        }
                    },
                    None => {},
                }
                i = i + 1;
            }
            assert(a@.take(a@.len() as int) =~= a@);
            Ok(r)
        },
        _ => Err(String::from_str("Expected a map or an array of strings")),
    }
}

/// One item that a push publishes.
#[derive(Debug)]
pub enum PushItem {
    Family(Family),
    AxisFallback(AxisFallback),
    Axis(Axis),
    FamilyMeta(FamilyMeta),
    Designer(Designer),
}

/// Whether two items are of the same kind and equal field by field, numbers compared as `f32`s.
pub open spec fn push_item_eq(a: PushItem, b: PushItem) -> bool {
    match (a, b) {
        (PushItem::Family(x), PushItem::Family(y)) => x@ == y@,
        (PushItem::AxisFallback(x), PushItem::AxisFallback(y)) => fallback_eq(x@, y@),
        (PushItem::Axis(x), PushItem::Axis(y)) => axis_eq(x@, y@),
        (PushItem::FamilyMeta(x), PushItem::FamilyMeta(y)) => x@ == y@,
        (PushItem::Designer(x), PushItem::Designer(y)) => x@ == y@,
        _ => false,
    }
}

/// Whether two items are of the same kind and say the same.
pub open spec fn same_item(a: PushItem, b: PushItem) -> bool {
    match (a, b) {
        (PushItem::Family(x), PushItem::Family(y)) => x@ == y@,
        (PushItem::AxisFallback(x), PushItem::AxisFallback(y)) => x@ == y@,
        (PushItem::Axis(x), PushItem::Axis(y)) => x@ == y@,
        (PushItem::FamilyMeta(x), PushItem::FamilyMeta(y)) => x@ == y@,
        (PushItem::Designer(x), PushItem::Designer(y)) => x@ == y@,
        _ => false,
    }
}

impl PushItem {
    /// Whether the two items are of the same kind and equal field by field.
    pub fn same_as(&self, other: &PushItem) -> (r: bool)
        ensures
            r == push_item_eq(*self, *other),
    {
        match (self, other) {
            (PushItem::Family(x), PushItem::Family(y)) => x.same_as(y),
            (PushItem::AxisFallback(x), PushItem::AxisFallback(y)) => x.same_as(y),
            (PushItem::Axis(x), PushItem::Axis(y)) => x.same_as(y),
            (PushItem::FamilyMeta(x), PushItem::FamilyMeta(y)) => x.same_as(y),
            (PushItem::Designer(x), PushItem::Designer(y)) => x.same_as(y),
            _ => false,
        }
    }
}

/// Two families are equal as push items exactly when their names and versions are.
pub proof fn lemma_family_items_equal(x: Family, y: Family)
    ensures
        push_item_eq(PushItem::Family(x), PushItem::Family(y)) <==> (x.name@ == y.name@ && x.version@ == y.version@),
{
}

/// Two designers are equal as push items exactly when their names and biographies are.
pub proof fn lemma_designer_items_equal(x: Designer, y: Designer)
    ensures
        push_item_eq(PushItem::Designer(x), PushItem::Designer(y)) <==> (x.name@ == y.name@ && x.bio@ == y.bio@),
{
}

/// Two lists of strings with the same characters, one by one.
proof fn lemma_views_equal(a: Seq<String>, b: Seq<String>)
    ensures
        views(a) == views(b) <==> (a.len() == b.len() && forall|i: int| 0 <= i < a.len() ==> #[trigger] a[i]@ == b[i]@),
{
    assert(views(a).len() == a.len() && views(b).len() == b.len());
    if views(a) == views(b) {
        assert forall|i: int| 0 <= i < a.len() implies #[trigger] a[i]@ == b[i]@ by {
            assert(views(a)[i] == views(b)[i]);
        }
    }
    if a.len() == b.len() && forall|i: int| 0 <= i < a.len() ==> #[trigger] a[i]@ == b[i]@ {
        assert(views(a) =~= views(b));
    }
}

/// Two records of family metadata are equal as push items exactly when every one of their
/// fields is: name, display name, each designer's name and biography, license, category,
/// subsets, stroke, classifications, description, primary script, article and minisite URL.
pub proof fn lemma_family_meta_items_equal(x: FamilyMeta, y: FamilyMeta)
    ensures
        push_item_eq(PushItem::FamilyMeta(x), PushItem::FamilyMeta(y)) <==> {
            &&& x.name@ == y.name@
            &&& opt_view(x.display_name) == opt_view(y.display_name)
            &&& x.designers@.len() == y.designers@.len()
            &&& forall|i: int| 0 <= i < x.designers@.len() ==> #[trigger] x.designers@[i].name@ == y.designers@[i].name@
                && x.designers@[i].bio@ == y.designers@[i].bio@
            &&& x.license@ == y.license@
            &&& x.category@ == y.category@
            &&& x.subsets@.len() == y.subsets@.len()
            &&& forall|i: int| 0 <= i < x.subsets@.len() ==> #[trigger] x.subsets@[i]@ == y.subsets@[i]@
            &&& x.stroke@ == y.stroke@
            &&& x.classifications@.len() == y.classifications@.len()
            &&& forall|i: int| 0 <= i < x.classifications@.len() ==> #[trigger] x.classifications@[i]@ == y.classifications@[i]@
            &&& x.description@ == y.description@
            &&& opt_view(x.primary_script) == opt_view(y.primary_script)
            &&& x.article@.len() == y.article@.len()
            &&& forall|i: int| 0 <= i < x.article@.len() ==> #[trigger] x.article@[i]@ == y.article@[i]@
            &&& opt_view(x.minisite_url) == opt_view(y.minisite_url)
        },
{
    lemma_views_equal(x.subsets@, y.subsets@);
    lemma_views_equal(x.classifications@, y.classifications@);
    lemma_views_equal(x.article@, y.article@);
    let dx = designer_views(x.designers@);
    let dy = designer_views(y.designers@);
    assert(dx.len() == x.designers@.len() && dy.len() == y.designers@.len());
    if dx == dy {
        assert forall|i: int| 0 <= i < x.designers@.len() implies #[trigger] x.designers@[i].name@ == y.designers@[i].name@
            && x.designers@[i].bio@ == y.designers@[i].bio@ by {
            assert(dx[i] == dy[i]);
        }
    }
    if x.designers@.len() == y.designers@.len() && forall|i: int| 0 <= i < x.designers@.len() ==> #[trigger] x.designers@[i].name@
        == y.designers@[i].name@ && x.designers@[i].bio@ == y.designers@[i].bio@ {
        assert(dx =~= dy);
    }
}

/// Two axes are equal as push items exactly when their tags, display names, descriptions and
/// fallback-only flags are, their numbers are equal as `f32`s, and so are their fallbacks,
/// one by one, in name and value.
pub proof fn lemma_axis_items_equal(x: Axis, y: Axis)
    ensures
        push_item_eq(PushItem::Axis(x), PushItem::Axis(y)) <==> {
            &&& x.tag@ == y.tag@
            &&& x.display_name@ == y.display_name@
            &&& x.description@ == y.description@
            &&& x.fallback_only == y.fallback_only
            &&& float32_eq(x.min_value, y.min_value)
            &&& float32_eq(x.default_value, y.default_value)
            &&& float32_eq(x.max_value, y.max_value)
            &&& float32_eq(x.precision, y.precision)
            &&& x.fallback@.len() == y.fallback@.len()
            &&& forall|i: int| 0 <= i < x.fallback@.len() ==> #[trigger] x.fallback@[i].name@ == y.fallback@[i].name@
                && float32_eq(x.fallback@[i].value, y.fallback@[i].value)
        },
{
    if push_item_eq(PushItem::Axis(x), PushItem::Axis(y)) {
        assert forall|i: int| 0 <= i < x.fallback@.len() implies #[trigger] x.fallback@[i].name@ == y.fallback@[i].name@
            && float32_eq(x.fallback@[i].value, y.fallback@[i].value) by {
            assert(fallback_eq(x@.fallback[i], y@.fallback[i]));
        }
    }
    if x.fallback@.len() == y.fallback@.len() && forall|i: int| 0 <= i < x.fallback@.len() ==> #[trigger] x.fallback@[i].name@
        == y.fallback@[i].name@ && float32_eq(x.fallback@[i].value, y.fallback@[i].value) {
        assert forall|i: int| 0 <= i < x@.fallback.len() implies #[trigger] fallback_eq(x@.fallback[i], y@.fallback[i]) by {
            assert(x@.fallback[i] == x.fallback@[i]@);
            assert(y@.fallback[i] == y.fallback@[i]@);
        }
    }
}

/// Items of different kinds are never equal as push items.
pub proof fn lemma_items_of_other_kinds_differ(a: PushItem, b: PushItem)
    requires
        !(a is Family && b is Family),
        !(a is AxisFallback && b is AxisFallback),
        !(a is Axis && b is Axis),
        !(a is FamilyMeta && b is FamilyMeta),
        !(a is Designer && b is Designer),
    ensures
        !push_item_eq(a, b),
{
}

/// The metadata built from a METADATA.pb keeps what the file says: its name, display name,
/// license, subsets, classifications, primary script and minisite URL as they are; its first
/// category; one designer, without a biography, for each name of the designer field, the
/// names joined by ", " giving the field back; a stroke from the stroke field when there is one,
/// else the first category, else "UNKNOWN"; and a description and an article only where their
/// HTML is given.
pub proof fn lemma_family_meta_from_fields(data: FamilyProto, article_html: Option<Seq<char>>, description_html: Option<Seq<char>>)
    ensures
        ({
            let m = family_meta_from(data, article_html, description_html);
            &&& m.name == match data.name { Some(n) => n@, None => seq![] }
            &&& m.display_name == opt_view(data.display_name)
            &&& m.license == match data.license { Some(l) => l@, None => seq![] }
            &&& (data.category@.len() > 0 ==> m.category == data.category@[0]@)
            &&& (data.category@.len() == 0 ==> m.category == Seq::<char>::empty())
            &&& m.subsets.len() == data.subsets@.len()
            &&& forall|i: int| 0 <= i < data.subsets@.len() ==> #[trigger] m.subsets[i] == data.subsets@[i]@
            &&& m.classifications.len() == data.classifications@.len()
            &&& forall|i: int| 0 <= i < data.classifications@.len() ==> #[trigger] m.classifications[i] == data.classifications@[i]@
            &&& m.primary_script == opt_view(data.primary_script)
            &&& m.minisite_url == opt_view(data.minisite_url)
            &&& (data.designer is None ==> m.designers.len() == 0)
            &&& (data.designer matches Some(d) ==> join(m.designers.map_values(|x: DesignerView| x.name), ", "@) == d@)
            &&& forall|i: int| 0 <= i < m.designers.len() ==> (#[trigger] m.designers[i]).bio.len() == 0
            &&& (data.stroke is None && data.category@.len() > 0 ==> m.stroke == data.category@[0]@)
            &&& (data.stroke is None && data.category@.len() == 0 ==> m.stroke == "UNKNOWN"@)
            &&& (description_html is None ==> m.description.len() == 0)
            &&& (article_html is None ==> m.article.len() == 0)
            &&& (article_html is Some ==> m.article.len() == 1)
        }),
{
    let m = family_meta_from(data, article_html, description_html);
    if let Some(d) = data.designer {
        lemma_designer_names_rejoin(d@);
    }
}

} // verus!
