use crate::cli::{opt_bytes_view, opt_view, Config};
use crate::iso::{IsoEntry, IsoEntryKind, IsoEntryView};
use crate::jpeg::{
    has_allowed_extension, has_jpeg_magic, is_jpeg_name, spec_has_allowed_extension,
    spec_has_jpeg_magic, spec_is_jpeg_name,
};
use crate::paths::{output_path, spec_output_path, spec_path_with_extension, with_extension};
use crate::text::{extend_str, str_chars, string_from_chars, strings_view};
use vstd::prelude::*;

verus! {

/// What became of one candidate file.
#[derive(Debug, Clone, Copy, PartialEq, Eq, Structural)]
pub enum ExtractionStatus {
    Extracted,
    Converted,
    WouldExtract,
    SkippedExisting,
    SkippedInvalidPath,
    FailedValidation,
    FailedRead,
    FailedWrite,
    FailedConversion,
}

/// The name under which a status is reported.
pub open spec fn spec_status_str(s: ExtractionStatus) -> Seq<char> {
    match s {
        ExtractionStatus::Extracted => "extracted"@,
        ExtractionStatus::Converted => "converted"@,
        ExtractionStatus::WouldExtract => "would_extract"@,
        ExtractionStatus::SkippedExisting => "skipped_existing"@,
        ExtractionStatus::SkippedInvalidPath => "skipped_invalid_path"@,
        ExtractionStatus::FailedValidation => "failed_validation"@,
        ExtractionStatus::FailedRead => "failed_read"@,
        ExtractionStatus::FailedWrite => "failed_write"@,
        ExtractionStatus::FailedConversion => "failed_conversion"@,
    }
}

pub open spec fn spec_is_skipped(s: ExtractionStatus) -> bool {
    s == ExtractionStatus::SkippedExisting || s == ExtractionStatus::SkippedInvalidPath
}

pub open spec fn spec_is_failed(s: ExtractionStatus) -> bool {
    s == ExtractionStatus::FailedValidation || s == ExtractionStatus::FailedRead || s
        == ExtractionStatus::FailedWrite || s == ExtractionStatus::FailedConversion
}

impl ExtractionStatus {
    pub fn as_str(&self) -> (r: &'static str)
        ensures
            r@ == spec_status_str(*self),
    {
        match self {
            ExtractionStatus::Extracted => "extracted",
            ExtractionStatus::Converted => "converted",
            ExtractionStatus::WouldExtract => "would_extract",
            ExtractionStatus::SkippedExisting => "skipped_existing",
            ExtractionStatus::SkippedInvalidPath => "skipped_invalid_path",
            ExtractionStatus::FailedValidation => "failed_validation",
            ExtractionStatus::FailedRead => "failed_read",
            ExtractionStatus::FailedWrite => "failed_write",
            ExtractionStatus::FailedConversion => "failed_conversion",
        }
    }

    pub fn is_skipped(&self) -> (r: bool)
        ensures
            r == spec_is_skipped(*self),
    {
        matches!(self, ExtractionStatus::SkippedExisting | ExtractionStatus::SkippedInvalidPath)
    }

    pub fn is_failed(&self) -> (r: bool)
        ensures
            r == spec_is_failed(*self),
    {
        matches!(
            self,
            ExtractionStatus::FailedValidation | ExtractionStatus::FailedRead
                | ExtractionStatus::FailedWrite | ExtractionStatus::FailedConversion
        )
    }
}

/// The outcome for one candidate file.
#[derive(Debug, Clone)]
pub struct ExtractionResult {
    pub source_iso: Vec<u8>,
    pub internal_path: String,
    pub output_path: Option<Vec<u8>>,
    pub status: ExtractionStatus,
    pub size: u64,
    pub error: Option<String>,
}

pub struct ExtractionResultView {
    pub source_iso: Seq<u8>,
    pub internal_path: Seq<char>,
    pub output_path: Option<Seq<u8>>,
    pub status: ExtractionStatus,
    pub size: u64,
    pub error: Option<Seq<char>>,
}

impl View for ExtractionResult {
    type V = ExtractionResultView;

    open spec fn view(&self) -> ExtractionResultView {
        ExtractionResultView {
            source_iso: self.source_iso@,
            internal_path: self.internal_path@,
            output_path: opt_bytes_view(self.output_path),
            status: self.status,
            size: self.size,
            error: opt_view(self.error),
        }
    }
}

/// The result for `entry` of image `source_iso`.
pub open spec fn spec_result(
    source_iso: Seq<u8>,
    entry: IsoEntryView,
    status: ExtractionStatus,
    output_path: Option<Seq<u8>>,
    error: Option<Seq<char>>,
) -> ExtractionResultView {
    ExtractionResultView {
        source_iso,
        internal_path: entry.path,
        output_path,
        status,
        size: entry.size,
        error,
    }
}

fn make_result(
    source_iso: &[u8],
    entry: &IsoEntry,
    status: ExtractionStatus,
    output_path: Option<Vec<u8>>,
    error: Option<String>,
) -> (r: ExtractionResult)
    ensures
        r@ == spec_result(source_iso@, entry@, status, opt_bytes_view(output_path), opt_view(error)),
{
    ExtractionResult {
        source_iso: vstd::slice::slice_to_vec(source_iso),
        internal_path: entry.path.clone(),
        output_path,
        status,
        size: entry.size,
        error,
    }
}

// ---------------------------------------------------------------------------
// Extracting one entry
// ---------------------------------------------------------------------------

/// How the converter ended.
pub enum ConvertOutcome {
    /// It ran and reported success.
    Succeeded,
    /// It ran and reported failure with this exit status.
    Exited(String),
    /// It could not be started, for this reason.
    CouldNotRun(String),
}

/// The outside work that extracting one entry asks for, or its outcome.
pub enum ExtractAction {
    /// Ask whether a file exists at the output path.
    CheckExists { path: Vec<u8> },
    /// Read the entry's bytes from the image.
    ReadEntry { path: Vec<u8> },
    /// Write the bytes to the path at once; replace a file there only when `overwrite`.
    Write { path: Vec<u8>, bytes: Vec<u8>, overwrite: bool },
    /// Ask whether a file exists where the converted file would go.
    CheckConvertedExists { from: Vec<u8>, to: Vec<u8> },
    /// Convert the extracted file at `from` into a JPEG at `to`.
    Convert { from: Vec<u8>, to: Vec<u8> },
    /// Extraction of the entry is over.
    Finish(ExtractionResult),
}

/// What the outside work gave back.
pub enum ExtractEvent {
    Exists(bool),
    Read(Result<Vec<u8>, String>),
    Written(Result<(), String>),
    Converted(ConvertOutcome),
}

pub enum ConvertOutcomeView {
    Succeeded,
    Exited(Seq<char>),
    CouldNotRun(Seq<char>),
}

pub enum ExtractActionView {
    CheckExists { path: Seq<u8> },
    ReadEntry { path: Seq<u8> },
    Write { path: Seq<u8>, bytes: Seq<u8>, overwrite: bool },
    CheckConvertedExists { from: Seq<u8>, to: Seq<u8> },
    Convert { from: Seq<u8>, to: Seq<u8> },
    Finish(ExtractionResultView),
}

pub enum ExtractEventView {
    Exists(bool),
    Read(Result<Seq<u8>, Seq<char>>),
    Written(Result<(), Seq<char>>),
    Converted(ConvertOutcomeView),
}

impl View for ConvertOutcome {
    type V = ConvertOutcomeView;

    open spec fn view(&self) -> ConvertOutcomeView {
        match self {
            ConvertOutcome::Succeeded => ConvertOutcomeView::Succeeded,
            ConvertOutcome::Exited(s) => ConvertOutcomeView::Exited(s@),
            ConvertOutcome::CouldNotRun(s) => ConvertOutcomeView::CouldNotRun(s@),
        }
    }
}

impl View for ExtractAction {
    type V = ExtractActionView;

    open spec fn view(&self) -> ExtractActionView {
        match self {
            ExtractAction::CheckExists { path } => ExtractActionView::CheckExists { path: path@ },
            ExtractAction::ReadEntry { path } => ExtractActionView::ReadEntry { path: path@ },
            ExtractAction::Write { path, bytes, overwrite } => ExtractActionView::Write {
                path: path@,
                bytes: bytes@,
                overwrite: *overwrite,
            },
            ExtractAction::CheckConvertedExists { from, to } => ExtractActionView::CheckConvertedExists {
                from: from@,
                to: to@,
            },
            ExtractAction::Convert { from, to } => ExtractActionView::Convert {
                from: from@,
                to: to@,
            },
            ExtractAction::Finish(r) => ExtractActionView::Finish(r@),
        }
    }
}

impl View for ExtractEvent {
    type V = ExtractEventView;

    open spec fn view(&self) -> ExtractEventView {
        match self {
            ExtractEvent::Exists(b) => ExtractEventView::Exists(*b),
            ExtractEvent::Read(Ok(b)) => ExtractEventView::Read(Ok(b@)),
            ExtractEvent::Read(Err(m)) => ExtractEventView::Read(Err(m@)),
            ExtractEvent::Written(Ok(())) => ExtractEventView::Written(Ok(())),
            ExtractEvent::Written(Err(m)) => ExtractEventView::Written(Err(m@)),
            ExtractEvent::Converted(c) => ExtractEventView::Converted(c@),
        }
    }
}

/// The settings that extracting one entry reads.
pub struct ExtractSettings {
    pub output_dir: Seq<u8>,
    pub dry_run: bool,
    pub validate: bool,
    pub overwrite: bool,
    pub convert_to_jpg: bool,
}

pub open spec fn settings(c: Config) -> ExtractSettings {
    ExtractSettings {
        output_dir: c.output_dir@,
        dry_run: c.dry_run,
        validate: c.validate,
        overwrite: c.overwrite,
        convert_to_jpg: c.convert_to_jpg,
    }
}

/// The first step for `entry`: an unusable internal path is skipped, a dry
/// run stops at the path, otherwise ask whether the output file exists.
pub open spec fn spec_start_extraction(
    cfg: ExtractSettings,
    source_iso: Seq<u8>,
    entry: IsoEntryView,
) -> ExtractActionView {
    match spec_output_path(cfg.output_dir, source_iso, entry.path) {
        Err(m) => ExtractActionView::Finish(
            spec_result(source_iso, entry, ExtractionStatus::SkippedInvalidPath, None, Some(m)),
        ),
        Ok(p) => if cfg.dry_run {
            ExtractActionView::Finish(
                spec_result(source_iso, entry, ExtractionStatus::WouldExtract, Some(p), None),
            )
        } else {
            ExtractActionView::CheckExists { path: p }
        },
    }
}

/// The event answers the action.
pub open spec fn answers(a: ExtractActionView, e: ExtractEventView) -> bool {
    match a {
        ExtractActionView::CheckExists { .. } => e is Exists,
        ExtractActionView::ReadEntry { .. } => e is Read,
        ExtractActionView::Write { .. } => e is Written,
        ExtractActionView::CheckConvertedExists { .. } => e is Exists,
        ExtractActionView::Convert { .. } => e is Converted,
        ExtractActionView::Finish(_) => false,
    }
}

/// The step after the outside work of `a` answered `e`.
pub open spec fn spec_next_extraction(
    cfg: ExtractSettings,
    source_iso: Seq<u8>,
    entry: IsoEntryView,
    a: ExtractActionView,
    e: ExtractEventView,
) -> ExtractActionView {
    match (a, e) {
        (ExtractActionView::CheckExists { path }, ExtractEventView::Exists(exists)) => if exists
            && !cfg.overwrite {
            ExtractActionView::Finish(
                spec_result(
                    source_iso,
                    entry,
                    ExtractionStatus::SkippedExisting,
                    Some(path),
                    Some("output file already exists"@),
                ),
            )
        } else {
            ExtractActionView::ReadEntry { path }
        },
        (ExtractActionView::ReadEntry { path }, ExtractEventView::Read(Err(m))) => ExtractActionView::Finish(
            spec_result(source_iso, entry, ExtractionStatus::FailedRead, Some(path), Some(m)),
        ),
        (ExtractActionView::ReadEntry { path }, ExtractEventView::Read(Ok(bytes))) => if cfg.validate
            && spec_is_jpeg_name(entry.path) && !spec_has_jpeg_magic(bytes) {
            ExtractActionView::Finish(
                spec_result(
                    source_iso,
                    entry,
                    ExtractionStatus::FailedValidation,
                    Some(path),
                    Some("missing JPEG start marker FF D8"@),
                ),
            )
        } else {
            ExtractActionView::Write { path, bytes, overwrite: cfg.overwrite }
        },
        (ExtractActionView::Write { path, .. }, ExtractEventView::Written(Err(m))) => ExtractActionView::Finish(
            spec_result(source_iso, entry, ExtractionStatus::FailedWrite, Some(path), Some(m)),
        ),
        (ExtractActionView::Write { path, .. }, ExtractEventView::Written(Ok(()))) => if cfg.convert_to_jpg
            && !spec_is_jpeg_name(entry.path) {
            ExtractActionView::CheckConvertedExists {
                from: path,
                to: spec_path_with_extension(path, "jpg"@),
            }
        } else {
            ExtractActionView::Finish(
                spec_result(source_iso, entry, ExtractionStatus::Extracted, Some(path), None),
            )
        },
        (
            ExtractActionView::CheckConvertedExists { from, to },
            ExtractEventView::Exists(exists),
        ) => if exists && !cfg.overwrite {
            ExtractActionView::Finish(
                spec_result(
                    source_iso,
                    entry,
                    ExtractionStatus::SkippedExisting,
                    Some(to),
                    Some("converted JPG already exists"@),
                ),
            )
        } else {
            ExtractActionView::Convert { from, to }
        },
        (ExtractActionView::Convert { to, .. }, ExtractEventView::Converted(c)) => match c {
            ConvertOutcomeView::Succeeded => ExtractActionView::Finish(
                spec_result(source_iso, entry, ExtractionStatus::Converted, Some(to), None),
            ),
            ConvertOutcomeView::Exited(status) => ExtractActionView::Finish(
                spec_result(
                    source_iso,
                    entry,
                    ExtractionStatus::FailedConversion,
                    Some(to),
                    Some("magick exited with status "@ + status),
                ),
            ),
            ConvertOutcomeView::CouldNotRun(err) => ExtractActionView::Finish(
                spec_result(
                    source_iso,
                    entry,
                    ExtractionStatus::FailedConversion,
                    Some(to),
                    Some("could not run magick: "@ + err),
                ),
            ),
        },
        _ => a,
    }
}

/// Begins extracting `entry` of image `source_iso`.
pub fn start_extraction(config: &Config, source_iso: &[u8], entry: &IsoEntry) -> (r: ExtractAction)
    ensures
        r@ == spec_start_extraction(settings(*config), source_iso@, entry@),
{
    match output_path(config.output_dir.as_slice(), source_iso, entry.path.as_str()) {
        Err(error) => ExtractAction::Finish(
            make_result(
                source_iso,
                entry,
                ExtractionStatus::SkippedInvalidPath,
                None,
                Some(error),
            ),
        ),
        Ok(path) => {
            if config.dry_run {
                ExtractAction::Finish(
                    make_result(source_iso, entry, ExtractionStatus::WouldExtract, Some(path), None),
                )
            } else {
                ExtractAction::CheckExists { path }
            }
        },
    }
}

fn concat_str(a: &str, b: &String) -> (r: String)
    ensures
        r@ == a@ + b@,
{
    let mut v = str_chars(a);
    extend_str(&mut v, b.as_str());
    string_from_chars(&v)
}

/// The next step, once the outside work that `action` asked for gave `event`.
pub fn next_extraction(
    config: &Config,
    source_iso: &[u8],
    entry: &IsoEntry,
    action: ExtractAction,
    event: ExtractEvent,
) -> (r: ExtractAction)
    requires
        answers(action@, event@),
    ensures
        r@ == spec_next_extraction(settings(*config), source_iso@, entry@, action@, event@),
{
    match (action, event) {
        (ExtractAction::CheckExists { path }, ExtractEvent::Exists(exists)) => {
            if exists && !config.overwrite {
                ExtractAction::Finish(
                    make_result(
                        source_iso,
                        entry,
                        ExtractionStatus::SkippedExisting,
                        Some(path),
                        Some("output file already exists".to_owned()),
                    ),
                )
            } else {
                ExtractAction::ReadEntry { path }
            }
        },
        (ExtractAction::ReadEntry { path }, ExtractEvent::Read(Err(error))) => {
            ExtractAction::Finish(
                make_result(source_iso, entry, ExtractionStatus::FailedRead, Some(path), Some(error)),
            )
        },
        (ExtractAction::ReadEntry { path }, ExtractEvent::Read(Ok(bytes))) => {
            if config.validate && is_jpeg_name(entry.path.as_str()) && !has_jpeg_magic(&bytes) {
                ExtractAction::Finish(
                    make_result(
                        source_iso,
                        entry,
                        ExtractionStatus::FailedValidation,
                        Some(path),
                        Some("missing JPEG start marker FF D8".to_owned()),
                    ),
                )
            } else {
                ExtractAction::Write { path, bytes, overwrite: config.overwrite }
            }
        },
        (ExtractAction::Write { path, .. }, ExtractEvent::Written(Err(error))) => {
            ExtractAction::Finish(
                make_result(source_iso, entry, ExtractionStatus::FailedWrite, Some(path), Some(error)),
            )
        },
        (ExtractAction::Write { path, .. }, ExtractEvent::Written(Ok(()))) => {
            if config.convert_to_jpg && !is_jpeg_name(entry.path.as_str()) {
                let to = with_extension(path.as_slice(), "jpg");
                ExtractAction::CheckConvertedExists { from: path, to }
            } else {
                ExtractAction::Finish(
                    make_result(source_iso, entry, ExtractionStatus::Extracted, Some(path), None),
                )
            }
        },
        (ExtractAction::CheckConvertedExists { from, to }, ExtractEvent::Exists(exists)) => {
            if exists && !config.overwrite {
                ExtractAction::Finish(
                    make_result(
                        source_iso,
                        entry,
                        ExtractionStatus::SkippedExisting,
                        Some(to),
                        Some("converted JPG already exists".to_owned()),
                    ),
                )
            } else {
                ExtractAction::Convert { from, to }
            }
        },
        (ExtractAction::Convert { to, .. }, ExtractEvent::Converted(outcome)) => {
            match outcome {
                ConvertOutcome::Succeeded => ExtractAction::Finish(
                    make_result(source_iso, entry, ExtractionStatus::Converted, Some(to), None),
                ),
                ConvertOutcome::Exited(status) => ExtractAction::Finish(
                    make_result(
                        source_iso,
                        entry,
                        ExtractionStatus::FailedConversion,
                        Some(to),
                        Some(concat_str("magick exited with status ", &status)),
                    ),
                ),
                ConvertOutcome::CouldNotRun(error) => ExtractAction::Finish(
                    make_result(
                        source_iso,
                        entry,
                        ExtractionStatus::FailedConversion,
                        Some(to),
                        Some(concat_str("could not run magick: ", &error)),
                    ),
                ),
            }
        },
        (action, _) => action,
    }
}

// ---------------------------------------------------------------------------
// Laws of extracting one entry
// ---------------------------------------------------------------------------

/// How far along extraction is; every step moves further.
pub open spec fn stage(a: ExtractActionView) -> int {
    match a {
        ExtractActionView::CheckExists { .. } => 0,
        ExtractActionView::ReadEntry { .. } => 1,
        ExtractActionView::Write { .. } => 2,
        ExtractActionView::CheckConvertedExists { .. } => 3,
        ExtractActionView::Convert { .. } => 4,
        ExtractActionView::Finish(_) => 5,
    }
}

/// Each step moves extraction forward, so it finishes after at most five
/// pieces of outside work.
pub proof fn lemma_extraction_progresses(
    cfg: ExtractSettings,
    source_iso: Seq<u8>,
    entry: IsoEntryView,
    a: ExtractActionView,
    e: ExtractEventView,
)
    requires
        answers(a, e),
    ensures
        stage(spec_next_extraction(cfg, source_iso, entry, a, e)) > stage(a),
{
}

/// A dry run never writes: extraction finishes at the first step, with
/// `would_extract` or, for an unusable internal path, `skipped_invalid_path`.
pub proof fn lemma_dry_run_writes_nothing(
    cfg: ExtractSettings,
    source_iso: Seq<u8>,
    entry: IsoEntryView,
)
    requires
        cfg.dry_run,
    ensures
        spec_start_extraction(cfg, source_iso, entry) matches ExtractActionView::Finish(r) && (
        r.status == ExtractionStatus::WouldExtract || r.status
            == ExtractionStatus::SkippedInvalidPath),
{
}

/// Without `overwrite`, a file that already exists is never written over:
/// an existing output or converted file ends extraction as `skipped_existing`,
/// and every write asks not to replace.
pub proof fn lemma_existing_files_kept(
    cfg: ExtractSettings,
    source_iso: Seq<u8>,
    entry: IsoEntryView,
    a: ExtractActionView,
)
    requires
        !cfg.overwrite,
        a is CheckExists || a is CheckConvertedExists,
    ensures
        spec_next_extraction(cfg, source_iso, entry, a, ExtractEventView::Exists(true)) matches ExtractActionView::Finish(r)
            && r.status == ExtractionStatus::SkippedExisting,
        forall|b: ExtractActionView, e: ExtractEventView|
            answers(b, e) ==> (#[trigger] spec_next_extraction(cfg, source_iso, entry, b, e) matches ExtractActionView::Write { overwrite, .. } ==> !overwrite),
{
}

/// With `overwrite`, an existing file does not end extraction: after an
/// existing output file the entry is read, to the same path, as when there
/// is none; what is read is written with permission to replace; and an
/// existing converted file is converted over.
pub proof fn lemma_overwrite_replaces_existing(
    cfg: ExtractSettings,
    source_iso: Seq<u8>,
    entry: IsoEntryView,
    path: Seq<u8>,
    bytes: Seq<u8>,
    to: Seq<u8>,
)
    requires
        cfg.overwrite,
    ensures
        spec_next_extraction(
            cfg,
            source_iso,
            entry,
            ExtractActionView::CheckExists { path },
            ExtractEventView::Exists(true),
        ) == (ExtractActionView::ReadEntry { path }),
        spec_next_extraction(
            cfg,
            source_iso,
            entry,
            ExtractActionView::CheckExists { path },
            ExtractEventView::Exists(true),
        ) == spec_next_extraction(
            cfg,
            source_iso,
            entry,
            ExtractActionView::CheckExists { path },
            ExtractEventView::Exists(false),
        ),
        !(cfg.validate && spec_is_jpeg_name(entry.path) && !spec_has_jpeg_magic(bytes))
            ==> spec_next_extraction(
            cfg,
            source_iso,
            entry,
            ExtractActionView::ReadEntry { path },
            ExtractEventView::Read(Ok(bytes)),
        ) == (ExtractActionView::Write { path, bytes, overwrite: true }),
        spec_next_extraction(
            cfg,
            source_iso,
            entry,
            ExtractActionView::CheckConvertedExists { from: path, to },
            ExtractEventView::Exists(true),
        ) == (ExtractActionView::Convert { from: path, to }),
{
}

/// With validation on, a file named as a JPEG without the `FF D8` marker is
/// never written.
pub proof fn lemma_invalid_jpeg_not_written(
    cfg: ExtractSettings,
    source_iso: Seq<u8>,
    entry: IsoEntryView,
    path: Seq<u8>,
    bytes: Seq<u8>,
)
    requires
        cfg.validate,
        spec_is_jpeg_name(entry.path),
        !spec_has_jpeg_magic(bytes),
    ensures
        spec_next_extraction(
            cfg,
            source_iso,
            entry,
            ExtractActionView::ReadEntry { path },
            ExtractEventView::Read(Ok(bytes)),
        ) matches ExtractActionView::Finish(r) && r.status == ExtractionStatus::FailedValidation,
{
}

/// Whatever outcome extraction reaches, it names the image, the entry's path
/// and its size.
pub proof fn lemma_result_describes_entry(
    cfg: ExtractSettings,
    source_iso: Seq<u8>,
    entry: IsoEntryView,
    a: ExtractActionView,
    e: ExtractEventView,
)
    requires
        answers(a, e),
    ensures
        spec_start_extraction(cfg, source_iso, entry) matches ExtractActionView::Finish(r) ==> (
        r.source_iso == source_iso && r.internal_path == entry.path && r.size == entry.size),
        spec_next_extraction(cfg, source_iso, entry, a, e) matches ExtractActionView::Finish(r)
            ==> (r.source_iso == source_iso && r.internal_path == entry.path && r.size
            == entry.size),
{
}

// ---------------------------------------------------------------------------
// Counting
// ---------------------------------------------------------------------------

/// The counts for one image.
#[derive(Debug, Clone)]
pub struct InputSummary {
    pub source_iso: Vec<u8>,
    pub files_scanned: u64,
    pub candidates_found: u64,
    pub extracted: u64,
    pub would_extract: u64,
    pub skipped: u64,
    pub failed: u64,
}

impl InputSummary {
    /// Every candidate counted once under exactly one outcome.
    pub open spec fn is_balanced(&self) -> bool {
        self.extracted + self.would_extract + self.skipped + self.failed == self.candidates_found
    }

    /// Nothing counted yet.
    pub open spec fn is_fresh(&self) -> bool {
        self.files_scanned == 0 && self.candidates_found == 0 && self.extracted == 0
            && self.would_extract == 0 && self.skipped == 0 && self.failed == 0
    }

    /// Room to count one more of each.
    pub open spec fn has_room(&self) -> bool {
        &&& self.files_scanned < u64::MAX
        &&& self.candidates_found < u64::MAX
        &&& self.extracted < u64::MAX
        &&& self.would_extract < u64::MAX
        &&& self.skipped < u64::MAX
        &&& self.failed < u64::MAX
    }

    pub fn new(source_iso: Vec<u8>) -> (s: InputSummary)
        ensures
            s.source_iso == source_iso,
            s.files_scanned == 0 && s.candidates_found == 0 && s.extracted == 0
                && s.would_extract == 0 && s.skipped == 0 && s.failed == 0,
            s.is_balanced(),
    {
        InputSummary {
            source_iso,
            files_scanned: 0,
            candidates_found: 0,
            extracted: 0,
            would_extract: 0,
            skipped: 0,
            failed: 0,
        }
    }

    /// Counts an outcome under its kind: extracted (or converted), would
    /// extract, skipped, or failed.
    pub fn record(&mut self, status: &ExtractionStatus)
        requires
            old(self).extracted < u64::MAX,
            old(self).would_extract < u64::MAX,
            old(self).skipped < u64::MAX,
            old(self).failed < u64::MAX,
        ensures
            final(self).source_iso == old(self).source_iso,
            final(self).files_scanned == old(self).files_scanned,
            final(self).candidates_found == old(self).candidates_found,
            final(self).extracted == old(self).extracted + if *status
                == ExtractionStatus::Extracted || *status == ExtractionStatus::Converted {
                1int
            } else {
                0
            },
            final(self).would_extract == old(self).would_extract + if *status
                == ExtractionStatus::WouldExtract {
                1int
            } else {
                0
            },
            final(self).skipped == old(self).skipped + if spec_is_skipped(*status) {
                1int
            } else {
                0
            },
            final(self).failed == old(self).failed + if spec_is_failed(*status) {
                1int
            } else {
                0
            },
    {
        match status {
            ExtractionStatus::Extracted | ExtractionStatus::Converted => {
                self.extracted = self.extracted + 1;
            },
            ExtractionStatus::WouldExtract => {
                self.would_extract = self.would_extract + 1;
            },
            _ => {
                if status.is_skipped() {
                    self.skipped = self.skipped + 1;
                } else if status.is_failed() {
                    self.failed = self.failed + 1;
                }
            },
        }
    }

    /// Counts a scanned entry: a regular file is scanned, and it is a
    /// candidate when it has one of the extensions.
    pub fn scan_entry(&mut self, entry: &IsoEntry, extensions: &[String]) -> (candidate: bool)
        requires
            old(self).has_room(),
        ensures
            candidate == (entry.kind == IsoEntryKind::File && spec_has_allowed_extension(
                entry.path@,
                strings_view(extensions@),
            )),
            final(self).files_scanned == old(self).files_scanned + if entry.kind
                == IsoEntryKind::File {
                1int
            } else {
                0
            },
            final(self).source_iso == old(self).source_iso,
            final(self).candidates_found == old(self).candidates_found,
            final(self).extracted == old(self).extracted,
            final(self).would_extract == old(self).would_extract,
            final(self).skipped == old(self).skipped,
            final(self).failed == old(self).failed,
            old(self).candidates_found <= old(self).files_scanned ==> (candidate
                ==> final(self).candidates_found < final(self).files_scanned),
    {
        if entry.kind != IsoEntryKind::File {
            return false;
        }
        self.files_scanned = self.files_scanned + 1;
        has_allowed_extension(entry.path.as_str(), extensions)
    }

    /// Counts a candidate together with the outcome of its extraction; a
    /// balanced summary stays balanced.
    pub fn record_candidate(&mut self, status: &ExtractionStatus)
        requires
            old(self).has_room(),
        ensures
            final(self).candidates_found == old(self).candidates_found + 1,
            final(self).source_iso == old(self).source_iso,
            final(self).files_scanned == old(self).files_scanned,
            old(self).is_balanced() ==> final(self).is_balanced(),
            old(self).candidates_found < old(self).files_scanned ==> final(self).candidates_found
                <= final(self).files_scanned,
            final(self).extracted == old(self).extracted + if *status
                == ExtractionStatus::Extracted || *status == ExtractionStatus::Converted {
                1int
            } else {
                0
            },
            final(self).would_extract == old(self).would_extract + if *status
                == ExtractionStatus::WouldExtract {
                1int
            } else {
                0
            },
            final(self).skipped == old(self).skipped + if spec_is_skipped(*status) {
                1int
            } else {
                0
            },
            final(self).failed == old(self).failed + if spec_is_failed(*status) {
                1int
            } else {
                0
            },
    {
        self.candidates_found = self.candidates_found + 1;
        self.record(status);
    }
}

/// The sum of one count over the images.
pub open spec fn total(inputs: Seq<InputSummary>, f: spec_fn(InputSummary) -> int) -> int
    decreases inputs.len(),
{
    if inputs.len() == 0 {
        0
    } else {
        total(inputs.drop_last(), f) + f(inputs.last())
    }
}

pub open spec fn files_of(s: InputSummary) -> int {
    s.files_scanned as int
}

pub open spec fn candidates_of(s: InputSummary) -> int {
    s.candidates_found as int
}

pub open spec fn extracted_of(s: InputSummary) -> int {
    s.extracted as int
}

pub open spec fn would_extract_of(s: InputSummary) -> int {
    s.would_extract as int
}

pub open spec fn skipped_of(s: InputSummary) -> int {
    s.skipped as int
}

pub open spec fn failed_of(s: InputSummary) -> int {
    s.failed as int
}

/// The counts and results of a whole run.
#[derive(Debug, Clone)]
pub struct RunSummary {
    pub dry_run: bool,
    pub inputs: Vec<InputSummary>,
    pub files_scanned: u64,
    pub candidates_found: u64,
    pub extracted: u64,
    pub would_extract: u64,
    pub skipped: u64,
    pub failed: u64,
    pub results: Vec<ExtractionResult>,
}

impl RunSummary {
    /// Each total is the sum of that count over the images.
    pub open spec fn totals_match(&self) -> bool {
        &&& self.files_scanned == total(self.inputs@, |s: InputSummary| files_of(s))
        &&& self.candidates_found == total(self.inputs@, |s: InputSummary| candidates_of(s))
        &&& self.extracted == total(self.inputs@, |s: InputSummary| extracted_of(s))
        &&& self.would_extract == total(self.inputs@, |s: InputSummary| would_extract_of(s))
        &&& self.skipped == total(self.inputs@, |s: InputSummary| skipped_of(s))
        &&& self.failed == total(self.inputs@, |s: InputSummary| failed_of(s))
    }

    pub fn new(dry_run: bool) -> (r: RunSummary)
        ensures
            r.dry_run == dry_run,
            r.inputs@.len() == 0,
            r.results@.len() == 0,
            r.files_scanned == 0 && r.candidates_found == 0 && r.extracted == 0
                && r.would_extract == 0 && r.skipped == 0 && r.failed == 0,
            r.totals_match(),
            r.counts_consistent(),
    {
        RunSummary {
            dry_run,
            inputs: Vec::new(),
            files_scanned: 0,
            candidates_found: 0,
            extracted: 0,
            would_extract: 0,
            skipped: 0,
            failed: 0,
            results: Vec::new(),
        }
    }

    /// Adds an image's counts to the totals and keeps its summary.
    pub fn add_input(&mut self, input: InputSummary)
        requires
            old(self).files_scanned + input.files_scanned <= u64::MAX,
            old(self).candidates_found + input.candidates_found <= u64::MAX,
            old(self).extracted + input.extracted <= u64::MAX,
            old(self).would_extract + input.would_extract <= u64::MAX,
            old(self).skipped + input.skipped <= u64::MAX,
            old(self).failed + input.failed <= u64::MAX,
        ensures
            final(self).inputs@ == old(self).inputs@.push(input),
            final(self).results@ == old(self).results@,
            final(self).dry_run == old(self).dry_run,
            final(self).files_scanned == old(self).files_scanned + input.files_scanned,
            final(self).candidates_found == old(self).candidates_found + input.candidates_found,
            final(self).extracted == old(self).extracted + input.extracted,
            final(self).would_extract == old(self).would_extract + input.would_extract,
            final(self).skipped == old(self).skipped + input.skipped,
            final(self).failed == old(self).failed + input.failed,
            old(self).totals_match() ==> final(self).totals_match(),
            old(self).counts_with(input) ==> final(self).counts_consistent(),
    {
        self.files_scanned = self.files_scanned + input.files_scanned;
        self.candidates_found = self.candidates_found + input.candidates_found;
        self.extracted = self.extracted + input.extracted;
        self.would_extract = self.would_extract + input.would_extract;
        self.skipped = self.skipped + input.skipped;
        self.failed = self.failed + input.failed;
        let ghost before = self.inputs@;
        self.inputs.push(input);
        proof {
            assert(self.inputs@.drop_last() =~= before);
            assert(self.inputs@.last() == input);
        }
    }

    /// Keeps the result of a candidate of the image being counted and counts
    /// its outcome in that image's summary.
    pub fn record_result(&mut self, input: &mut InputSummary, result: ExtractionResult)
        requires
            old(input).has_room(),
        ensures
            final(self).results@ == old(self).results@.push(result),
            final(self).inputs@ == old(self).inputs@,
            final(self).dry_run == old(self).dry_run,
            final(self).files_scanned == old(self).files_scanned,
            final(self).candidates_found == old(self).candidates_found,
            final(self).extracted == old(self).extracted,
            final(self).would_extract == old(self).would_extract,
            final(self).skipped == old(self).skipped,
            final(self).failed == old(self).failed,
            final(input).source_iso == old(input).source_iso,
            final(input).files_scanned == old(input).files_scanned,
            final(input).candidates_found == old(input).candidates_found + 1,
            final(input).extracted == old(input).extracted + if result.status
                == ExtractionStatus::Extracted || result.status == ExtractionStatus::Converted {
                1int
            } else {
                0
            },
            final(input).would_extract == old(input).would_extract + if result.status
                == ExtractionStatus::WouldExtract {
                1int
            } else {
                0
            },
            final(input).skipped == old(input).skipped + if spec_is_skipped(result.status) {
                1int
            } else {
                0
            },
            final(input).failed == old(input).failed + if spec_is_failed(result.status) {
                1int
            } else {
                0
            },
            old(self).counts_with(*old(input)) && old(input).candidates_found < old(
                input,
            ).files_scanned ==> final(self).counts_with(*final(input)),
    {
        let status = result.status;
        input.record_candidate(&status);
        self.results.push(result);
    }
}

/// Every image's summary is balanced and counts no more candidates than
/// files.
pub open spec fn inputs_balanced(inputs: Seq<InputSummary>) -> bool {
    forall|i: int|
        0 <= i < inputs.len() ==> (#[trigger] inputs[i]).is_balanced() && inputs[i].candidates_found
            <= inputs[i].files_scanned
}

impl RunSummary {
    /// The counts of a run part way through: the images done, and `input`,
    /// the image being counted, whose results are already kept.
    pub open spec fn counts_with(&self, input: InputSummary) -> bool {
        &&& self.totals_match()
        &&& inputs_balanced(self.inputs@)
        &&& input.is_balanced()
        &&& input.candidates_found <= input.files_scanned
        &&& self.results@.len() == self.candidates_found + input.candidates_found
    }

    /// The counts of a run between images: totals are the sums over the
    /// images, each image is balanced, and there is one result per candidate.
    pub open spec fn counts_consistent(&self) -> bool {
        &&& self.totals_match()
        &&& inputs_balanced(self.inputs@)
        &&& self.results@.len() == self.candidates_found
    }
}

/// Over balanced images, the candidates add up to the outcomes and to no
/// more than the files.
pub proof fn lemma_balanced_totals(inputs: Seq<InputSummary>)
    requires
        inputs_balanced(inputs),
    ensures
        total(inputs, |s: InputSummary| candidates_of(s)) == total(
            inputs,
            |s: InputSummary| extracted_of(s),
        ) + total(inputs, |s: InputSummary| would_extract_of(s)) + total(
            inputs,
            |s: InputSummary| skipped_of(s),
        ) + total(inputs, |s: InputSummary| failed_of(s)),
        total(inputs, |s: InputSummary| candidates_of(s)) <= total(
            inputs,
            |s: InputSummary| files_of(s),
        ),
    decreases inputs.len(),
{
    if inputs.len() > 0 {
        let rest = inputs.drop_last();
        assert(inputs_balanced(rest)) by {
            assert forall|i: int| 0 <= i < rest.len() implies (#[trigger] rest[i]).is_balanced()
                && rest[i].candidates_found <= rest[i].files_scanned by {
                assert(rest[i] == inputs[i]);
            }
        }
        lemma_balanced_totals(rest);
        assert(inputs.last() == inputs[inputs.len() - 1]);
    }
}

/// In a run whose counts are consistent, there is one result per candidate,
/// every candidate has exactly one outcome, and candidates are among the
/// files scanned.
pub proof fn lemma_consistent_run_counts(run: RunSummary)
    requires
        run.counts_consistent(),
    ensures
        run.results@.len() == run.candidates_found,
        run.candidates_found == run.extracted + run.would_extract + run.skipped + run.failed,
        run.candidates_found <= run.files_scanned,
{
    lemma_balanced_totals(run.inputs@);
}

} // verus!
