//! The records that extraction produces and the search settings.
use std::path::PathBuf;
use vstd::prelude::*;

verus! {

/// A file path, carried through the library unread.
#[verifier::external_type_specification]
#[verifier::external_body]
pub struct ExPathBuf(PathBuf);

/// `PathBuf::clone`: a path with the same components.
pub assume_specification[ <PathBuf as Clone>::clone ](p: &PathBuf) -> (r: PathBuf)
    ensures
        r == *p,
;

/// The tool that wrote an image's metadata.
#[derive(Debug, Clone, Copy, PartialEq, Eq, Structural)]
pub enum Generator {
    A1111,
    ComfyUI,
    NovelAI,
    InvokeAI,
    Unknown,
}

/// The lowercase name under which a generator is shown and exported.
pub open spec fn generator_name(g: Generator) -> Seq<char> {
    match g {
        Generator::A1111 => "a1111"@,
        Generator::ComfyUI => "comfyui"@,
        Generator::NovelAI => "novelai"@,
        Generator::InvokeAI => "invokeai"@,
        Generator::Unknown => "unknown"@,
    }
}

impl Generator {
    /// The generator's display name: `a1111`, `comfyui`, `novelai`,
    /// `invokeai` or `unknown`.
    pub fn name(&self) -> (s: &'static str)
        ensures
            s@ == generator_name(*self),
    {
        match self {
            Generator::A1111 => "a1111",
            Generator::ComfyUI => "comfyui",
            Generator::NovelAI => "novelai",
            Generator::InvokeAI => "invokeai",
            Generator::Unknown => "unknown",
        }
    }
}

/// A LoRA applied in a generation, with its weight as written.
#[derive(Debug, Clone, PartialEq)]
pub struct LoraInfo {
    pub name: String,
    pub weight: String,
}

/// The text of a LoRA entry.
pub struct LoraSpec {
    pub name: Seq<char>,
    pub weight: Seq<char>,
}

impl View for LoraInfo {
    type V = LoraSpec;

    open spec fn view(&self) -> LoraSpec {
        LoraSpec { name: self.name@, weight: self.weight@ }
    }
}

/// The texts of a list of LoRA entries.
pub open spec fn lora_views(v: Seq<LoraInfo>) -> Seq<LoraSpec> {
    v.map_values(|l: LoraInfo| l@)
}

/// Some entry of `loras` has the name `name`.
pub open spec fn has_lora_named(loras: Seq<LoraSpec>, name: Seq<char>) -> bool {
    exists|i: int| 0 <= i < loras.len() && loras[i].name == name
}

/// No two entries of `loras` share a name.
pub open spec fn distinct_lora_names(loras: Seq<LoraSpec>) -> bool {
    forall|i: int, j: int| 0 <= i < j < loras.len() ==> loras[i].name != loras[j].name
}

/// Structured fields read from generation metadata; each is left empty
/// where the metadata does not give it.
#[derive(Debug, Clone)]
pub struct PromptDetails {
    pub model: Option<String>,
    pub loras: Vec<LoraInfo>,
    pub positive_prompt: Option<String>,
    pub negative_prompt: Option<String>,
}

/// The texts of a `PromptDetails`.
pub struct DetailsSpec {
    pub model: Option<Seq<char>>,
    pub loras: Seq<LoraSpec>,
    pub positive: Option<Seq<char>>,
    pub negative: Option<Seq<char>>,
}

/// Details with every field empty.
pub open spec fn empty_details() -> DetailsSpec {
    DetailsSpec { model: None, loras: Seq::empty(), positive: None, negative: None }
}

impl View for PromptDetails {
    type V = DetailsSpec;

    open spec fn view(&self) -> DetailsSpec {
        DetailsSpec {
            model: crate::text::opt_view(self.model),
            loras: lora_views(self.loras@),
            positive: crate::text::opt_view(self.positive_prompt),
            negative: crate::text::opt_view(self.negative_prompt),
        }
    }
}

impl Default for PromptDetails {
    fn default() -> (d: Self)
        ensures
            d@ == empty_details(),
    {
        let d = PromptDetails {
            model: None,
            loras: Vec::new(),
            positive_prompt: None,
            negative_prompt: None,
        };
        assert(lora_views(d.loras@) == Seq::<LoraSpec>::empty());
        d
    }
}

/// One prompt found in an image's metadata.
#[derive(Debug, Clone)]
pub struct PromptRecord {
    pub path: PathBuf,
    pub prompt: String,
    pub model: Option<String>,
    pub loras: Vec<LoraInfo>,
    pub positive_prompt: Option<String>,
    pub negative_prompt: Option<String>,
    pub generator: Generator,
    pub metadata_key: &'static str,
}

/// The content of a `PromptRecord` apart from its path.
pub struct RecordSpec {
    pub prompt: Seq<char>,
    pub details: DetailsSpec,
    pub generator: Generator,
    pub key: Seq<char>,
}

impl View for PromptRecord {
    type V = RecordSpec;

    open spec fn view(&self) -> RecordSpec {
        RecordSpec {
            prompt: self.prompt@,
            details: DetailsSpec {
                model: crate::text::opt_view(self.model),
                loras: lora_views(self.loras@),
                positive: crate::text::opt_view(self.positive_prompt),
                negative: crate::text::opt_view(self.negative_prompt),
            },
            generator: self.generator,
            key: self.metadata_key@,
        }
    }
}

/// A record's content from its parts.
pub open spec fn record_spec(
    prompt: Seq<char>,
    generator: Generator,
    key: Seq<char>,
    details: DetailsSpec,
) -> RecordSpec {
    RecordSpec { prompt, details, generator, key }
}

impl PromptRecord {
    /// A record with the structured fields taken from `details`.
    pub fn with_details(
        path: PathBuf,
        prompt: String,
        generator: Generator,
        metadata_key: &'static str,
        details: PromptDetails,
    ) -> (r: Self)
        ensures
            r.path == path,
            r@ == record_spec(prompt@, generator, metadata_key@, details@),
    {
        PromptRecord {
            path,
            prompt,
            model: details.model,
            loras: details.loras,
            positive_prompt: details.positive_prompt,
            negative_prompt: details.negative_prompt,
            generator,
            metadata_key,
        }
    }

    /// A copy of the record with the same path and contents.
    pub fn duplicate(&self) -> (r: Self)
        ensures
            r.path == self.path,
            r@ == self@,
    {
        PromptRecord {
            path: self.path.clone(),
            prompt: self.prompt.clone(),
            model: clone_opt_string(&self.model),
            loras: clone_loras(&self.loras),
            positive_prompt: clone_opt_string(&self.positive_prompt),
            negative_prompt: clone_opt_string(&self.negative_prompt),
            generator: self.generator,
            metadata_key: self.metadata_key,
        }
    }
}

fn clone_opt_string(o: &Option<String>) -> (r: Option<String>)
    ensures
        crate::text::opt_view(r) == crate::text::opt_view(*o),
{
    match o {
        Some(s) => Some(s.clone()),
        None => None,
    }
}

fn clone_loras(v: &Vec<LoraInfo>) -> (r: Vec<LoraInfo>)
    ensures
        lora_views(r@) == lora_views(v@),
{
    let mut r: Vec<LoraInfo> = Vec::new();
    let mut i: usize = 0;
    while i < v.len()
        invariant
            i <= v@.len(),
            r@.len() == i,
            lora_views(r@) == lora_views(v@.take(i as int)),
        decreases v@.len() - i,
    {
        let item = LoraInfo { name: v[i].name.clone(), weight: v[i].weight.clone() };
        assert(item@ == v@[i as int]@);
        let ghost prev = r@;
        r.push(item);
        assert(v@.take(i + 1) == v@.take(i as int).push(v@[i as int]));
        assert(r@ == prev.push(item));
        assert forall|k: int| 0 <= k < i + 1 implies #[trigger] lora_views(r@)[k] == lora_views(
            v@.take(i + 1),
        )[k] by {
            if k < i {
                assert(r@[k] == prev[k]);
                assert(lora_views(prev)[k] == lora_views(v@.take(i as int))[k]);
                assert(lora_views(prev)[k] == prev[k]@);
                assert(lora_views(r@)[k] == r@[k]@);
            } else {
                assert(r@[k] == item);
                assert(lora_views(r@)[k] == item@);
                assert(v@.take(i + 1)[k] == v@[i as int]);
            }
        }
        assert(lora_views(r@) =~= lora_views(v@.take(i + 1)));
        i = i + 1;
    }
    assert(v@.take(v@.len() as int) == v@);
    r
}

/// The contents of a list of records.
pub open spec fn record_views(rs: Seq<PromptRecord>) -> Seq<RecordSpec> {
    rs.map_values(|r: PromptRecord| r@)
}

/// Every record of the list belongs to `path`.
pub open spec fn all_at(rs: Seq<PromptRecord>, path: PathBuf) -> bool {
    forall|i: int| 0 <= i < rs.len() ==> rs[i].path == path
}

/// Why reading an image's metadata stopped early or did not start.
#[derive(Debug, Clone, Copy, PartialEq, Eq, Structural)]
pub enum ScanIssue {
    /// The data does not start with the PNG signature.
    NotPng,
    /// A PNG chunk is cut short.
    TruncatedChunk,
    /// The data does not start with a JPEG start-of-image marker.
    NotJpeg,
    /// A JPEG segment is cut short.
    TruncatedSegment,
    /// The data is too short for a RIFF/WebP header.
    WebpTooSmall,
    /// The data does not start with a RIFF/WebP header.
    NotWebp,
    /// A WebP `XMP ` chunk is cut short.
    TruncatedXmp,
    /// A WebP `EXIF` chunk is cut short.
    TruncatedExif,
}

/// The words in which a scan issue is reported.
pub open spec fn issue_text(issue: ScanIssue) -> Seq<char> {
    match issue {
        ScanIssue::NotPng => "not a valid PNG"@,
        ScanIssue::TruncatedChunk => "truncated chunk"@,
        ScanIssue::NotJpeg => "not a valid JPEG"@,
        ScanIssue::TruncatedSegment => "truncated JPEG segment"@,
        ScanIssue::WebpTooSmall => "file too small to be a WebP"@,
        ScanIssue::NotWebp => "not a valid WebP"@,
        ScanIssue::TruncatedXmp => "truncated XMP chunk"@,
        ScanIssue::TruncatedExif => "truncated EXIF chunk"@,
    }
}

impl ScanIssue {
    /// The issue in words, as the verbose log reports it.
    pub fn message(&self) -> (s: &'static str)
        ensures
            s@ == issue_text(*self),
    {
        match self {
            ScanIssue::NotPng => "not a valid PNG",
            ScanIssue::TruncatedChunk => "truncated chunk",
            ScanIssue::NotJpeg => "not a valid JPEG",
            ScanIssue::TruncatedSegment => "truncated JPEG segment",
            ScanIssue::WebpTooSmall => "file too small to be a WebP",
            ScanIssue::NotWebp => "not a valid WebP",
            ScanIssue::TruncatedXmp => "truncated XMP chunk",
            ScanIssue::TruncatedExif => "truncated EXIF chunk",
        }
    }
}

/// The records read from one image file, and what stopped the reading
/// early, if anything did.
#[derive(Debug)]
pub struct Scan {
    pub records: Vec<PromptRecord>,
    pub issue: Option<ScanIssue>,
}

/// Appends `r` to a list of records of `path`.
pub fn push_record(rs: &mut Vec<PromptRecord>, r: PromptRecord, path: &PathBuf)
    requires
        all_at(old(rs)@, *path),
        r.path == *path,
    ensures
        all_at(final(rs)@, *path),
        record_views(final(rs)@) == record_views(old(rs)@).push(r@),
{
    let ghost prev = rs@;
    let ghost rv = r@;
    rs.push(r);
    assert(record_views(rs@) =~= record_views(prev).push(rv)) by {
        assert forall|k: int| 0 <= k < rs@.len() implies #[trigger] record_views(rs@)[k]
            == record_views(prev).push(rv)[k] by {
            if k < prev.len() {
                assert(rs@[k] == prev[k]);
            }
        }
    }
    assert forall|k: int| 0 <= k < rs@.len() implies rs@[k].path == *path by {
        if k < prev.len() {
            assert(rs@[k] == prev[k]);
        }
    }
}

/// A record that matched a query, with the fuzzy score where one applies.
#[derive(Debug, Clone)]
pub struct MatchResult {
    pub record: PromptRecord,
    pub score: Option<i64>,
}

/// How a query is compared with prompts.
#[derive(Debug, Clone, Copy, PartialEq, Eq, Structural)]
pub enum MatchMode {
    Exact,
    Fuzzy,
    Regex,
}

/// The settings of one search.
#[derive(Debug, Clone)]
pub struct Config {
    pub query: String,
    pub path: PathBuf,
    pub match_mode: MatchMode,
    pub min_score: i64,
    pub depth: Option<usize>,
    pub no_recursive: bool,
    pub verbose: bool,
}

} // verus!
