use crate::cli::{bytes_view, Config};
use crate::extractor::{
    spec_start_extraction, start_extraction, settings, ExtractAction, ExtractActionView,
    ExtractionResult, ExtractionStatus, InputSummary, RunSummary,
};
use crate::iso::{IsoEntry, IsoEntryKind};
use crate::jpeg::spec_has_allowed_extension;
use crate::text::strings_view;
use vstd::prelude::*;

verus! {

/// A run over every image of a configuration: the library decides what to
/// do next; the caller opens images, does the outside work of extracting
/// an entry and hands back what came of it.
pub struct RunState {
    pub config: Config,
    pub run: RunSummary,
    /// How many images have been finished.
    pub image: usize,
    /// The counts of the image being read.
    pub input: InputSummary,
    /// The entries of the image being read.
    pub entries: Vec<IsoEntry>,
    /// The next entry to look at.
    pub next: usize,
    /// Whether entry `next - 1` is being extracted by the caller.
    pub extracting: bool,
}

/// What the run asks of its caller.
pub enum RunAction {
    /// Open this image and list its entries.
    OpenImage { path: Vec<u8> },
    /// Carry on extracting entry `index` of the current image from `action`,
    /// which is not `Finish`, and hand back the result it finishes with.
    Extract { index: usize, action: ExtractAction },
    /// A count would pass `u64::MAX`.
    TooManyFiles,
    /// Every image has been read; the run's summary is complete.
    Finish,
}

/// A dry run only reports what it would extract or which paths it skips.
pub open spec fn is_dry_run_status(s: ExtractionStatus) -> bool {
    s == ExtractionStatus::WouldExtract || s == ExtractionStatus::SkippedInvalidPath
}

impl RunState {
    /// What holds between the steps of a run.
    pub open spec fn well_formed(&self) -> bool {
        &&& self.image <= self.config.inputs.len()
        &&& self.next <= self.entries.len()
        &&& self.run.dry_run == self.config.dry_run
        &&& self.run.inputs@.len() == self.image
        &&& forall|i: int|
            0 <= i < self.image ==> (#[trigger] self.run.inputs@[i]).source_iso@
                == self.config.inputs@[i]@
        &&& self.image < self.config.inputs.len() ==> self.input.source_iso@
            == self.config.inputs@[self.image as int]@
        &&& self.run.counts_with(self.input)
        &&& forall|k: int|
            0 <= k < self.run.results@.len() ==> spec_has_allowed_extension(
                (#[trigger] self.run.results@[k]).internal_path@,
                strings_view(self.config.extensions@),
            )
        &&& self.config.dry_run ==> forall|k: int|
            0 <= k < self.run.results@.len() ==> is_dry_run_status(
                (#[trigger] self.run.results@[k]).status,
            )
        &&& self.extracting ==> 0 < self.next && !self.config.dry_run && self.input.has_room()
            && self.input.candidates_found < self.input.files_scanned
            && self.image < self.config.inputs.len()
            && self.entries@[self.next - 1].kind == IsoEntryKind::File
            && spec_has_allowed_extension(
            self.entries@[self.next - 1].path@,
            strings_view(self.config.extensions@),
        )
    }

    /// What the run's action promises.
    pub open spec fn action_fits(&self, a: RunAction) -> bool {
        match a {
            RunAction::OpenImage { path } => self.image < self.config.inputs.len() && path@
                == self.config.inputs@[self.image as int]@ && !self.extracting
                && self.input.is_fresh(),
            RunAction::Extract { index, action } => self.extracting && index == self.next - 1
                && !(action is Finish) && action@ == spec_start_extraction(
                settings(self.config),
                self.config.inputs@[self.image as int]@,
                self.entries@[index as int]@,
            ),
            RunAction::TooManyFiles => true,
            RunAction::Finish => self.image == self.config.inputs.len()
                && self.run.counts_consistent() && !self.extracting,
        }
    }

    /// Starts a run of `config`.
    pub fn new(config: Config) -> (r: (RunState, RunAction))
        ensures
            r.0.well_formed(),
            r.0.config == config,
            r.0.image == 0,
            r.0.run.results@.len() == 0,
            r.0.action_fits(r.1),
            r.0.input.is_fresh(),
            config.inputs.len() == 0 <==> r.1 is Finish,
    {
        let run = RunSummary::new(config.dry_run);
        let first: Vec<u8> = if config.inputs.len() > 0 {
            config.inputs[0].clone()
        } else {
            Vec::new()
        };
        let input = InputSummary::new(first);
        let state = RunState {
            config,
            run,
            image: 0,
            input,
            entries: Vec::new(),
            next: 0,
            extracting: false,
        };
        if state.config.inputs.len() > 0 {
            let path = state.config.inputs[0].clone();
            (state, RunAction::OpenImage { path })
        } else {
            (state, RunAction::Finish)
        }
    }

    /// Takes in the entries of the image that `OpenImage` asked for.
    pub fn opened(&mut self, entries: Vec<IsoEntry>) -> (a: RunAction)
        requires
            old(self).well_formed(),
            old(self).image < old(self).config.inputs.len(),
            !old(self).extracting,
            old(self).input.is_fresh(),
        ensures
            final(self).well_formed(),
            final(self).config == old(self).config,
            final(self).image >= old(self).image,
            final(self).action_fits(a),
            old(self).run.results@.len() <= final(self).run.results@.len(),
    {
        let name = self.config.inputs[self.image].clone();
        self.input = InputSummary::new(name);
        self.entries = entries;
        self.next = 0;
        self.advance()
    }

    /// Takes in the result that extracting the entry finished with.
    pub fn extracted(&mut self, result: ExtractionResult) -> (a: RunAction)
        requires
            old(self).well_formed(),
            old(self).extracting,
            result.internal_path@ == old(self).entries@[old(self).next - 1].path@,
        ensures
            final(self).well_formed(),
            final(self).config == old(self).config,
            final(self).image >= old(self).image,
            final(self).action_fits(a),
            final(self).run.results@.len() > old(self).run.results@.len(),
            final(self).run.results@[old(self).run.results@.len() as int] == result,
    {
        self.extracting = false;
        let ghost before = self.run.results@;
        self.run.record_result(&mut self.input, result);
        proof {
            let rs = self.run.results@;
            assert forall|k: int| 0 <= k < rs.len() implies spec_has_allowed_extension(
                (#[trigger] rs[k]).internal_path@,
                strings_view(self.config.extensions@),
            ) by {
                if k < before.len() {
                    assert(rs[k] == before[k]);
                }
            }
        }
        self.advance()
    }

    /// Looks at the entries from `next` on until one needs outside work, the
    /// image is done, or a count would overflow.
    fn advance(&mut self) -> (a: RunAction)
        requires
            old(self).well_formed(),
            !old(self).extracting,
            old(self).image < old(self).config.inputs.len(),
        ensures
            final(self).well_formed(),
            final(self).config == old(self).config,
            final(self).image >= old(self).image,
            final(self).action_fits(a),
            old(self).run.results@.len() <= final(self).run.results@.len(),
            forall|k: int| 0 <= k < old(self).run.results@.len() ==> final(self).run.results@[k] == old(self).run.results@[k],
    {
        let ghost results0 = self.run.results@;
        while self.next < self.entries.len()
            invariant
                self.well_formed(),
                !self.extracting,
                self.image < self.config.inputs.len(),
                self.config == old(self).config,
                self.image == old(self).image,
                results0 == old(self).run.results@,
                results0.len() <= self.run.results@.len(),
                forall|k: int| 0 <= k < results0.len() ==> self.run.results@[k] == results0[k],
            decreases self.entries.len() - self.next,
        {
            if !room(&self.input) {
                return RunAction::TooManyFiles;
            }
            let i = self.next;
            self.next = self.next + 1;
            let candidate = self.input.scan_entry(&self.entries[i], self.config.extensions.as_slice());
            if !candidate {
                continue;
            }
            if !room(&self.input) {
                return RunAction::TooManyFiles;
            }
            let action = start_extraction(
                &self.config,
                self.config.inputs[self.image].as_slice(),
                &self.entries[i],
            );
            proof {
                if self.config.dry_run {
                    crate::extractor::lemma_dry_run_writes_nothing(
                        settings(self.config),
                        self.config.inputs@[self.image as int]@,
                        self.entries@[i as int]@,
                    );
                }
            }
            match action {
                ExtractAction::Finish(r) => {
                    let ghost before = self.run.results@;
                    proof {
                        crate::extractor::lemma_result_describes_entry(
                            settings(self.config),
                            self.config.inputs@[self.image as int]@,
                            self.entries@[i as int]@,
                            ExtractActionView::CheckExists { path: Seq::empty() },
                            crate::extractor::ExtractEventView::Exists(false),
                        );
                        assert(r.internal_path@ == self.entries@[i as int].path@);
                    }
                    self.run.record_result(&mut self.input, r);
                    proof {
                        let rs = self.run.results@;
                        assert forall|k: int| 0 <= k < rs.len() implies spec_has_allowed_extension(
                            (#[trigger] rs[k]).internal_path@,
                            strings_view(self.config.extensions@),
                        ) by {
                            if k < before.len() {
                                assert(rs[k] == before[k]);
                            }
                        }
                        if self.config.dry_run {
                            assert forall|k: int| 0 <= k < rs.len() implies is_dry_run_status(
                                (#[trigger] rs[k]).status,
                            ) by {
                                if k < before.len() {
                                    assert(rs[k] == before[k]);
                                }
                            }
                        }
                    }
                },
                other => {
                    self.extracting = true;
                    return RunAction::Extract { index: i, action: other };
                },
            }
        }
        let fits = self.run.files_scanned <= u64::MAX - self.input.files_scanned
            && self.run.candidates_found <= u64::MAX - self.input.candidates_found
            && self.run.extracted <= u64::MAX - self.input.extracted
            && self.run.would_extract <= u64::MAX - self.input.would_extract
            && self.run.skipped <= u64::MAX - self.input.skipped
            && self.run.failed <= u64::MAX - self.input.failed;
        if !fits {
            return RunAction::TooManyFiles;
        }
        let following = self.image + 1;
        let name: Vec<u8> = if following < self.config.inputs.len() {
            self.config.inputs[following].clone()
        } else {
            Vec::new()
        };
        let mut done = InputSummary::new(name);
        std::mem::swap(&mut done, &mut self.input);
        let ghost finished = done;
        self.run.add_input(done);
        self.image = following;
        self.entries = Vec::new();
        self.next = 0;
        proof {
            let ins = self.run.inputs@;
            assert(ins.last() == finished);
            assert forall|k: int| 0 <= k < self.image implies (#[trigger] ins[k]).source_iso@
                == self.config.inputs@[k]@ by {
                if k < self.image - 1 {
                    assert(ins[k] == ins.drop_last()[k]);
                }
            }
        }
        if self.image < self.config.inputs.len() {
            let path = self.config.inputs[self.image].clone();
            RunAction::OpenImage { path }
        } else {
            RunAction::Finish
        }
    }
}

/// A dry run never asks for outside work on an entry: it only opens images.
pub proof fn lemma_dry_run_never_extracts(s: RunState, a: RunAction)
    requires
        s.well_formed(),
        s.action_fits(a),
        s.config.dry_run,
    ensures
        !(a is Extract),
{
}

/// A finished run has one summary per image, in the order given, with totals
/// that are the sums over the images; one result per candidate, each
/// outcome counted once, no more candidates than files; every result is for
/// a file with one of the configured extensions; and in a dry run every
/// result only says what would be extracted or which path was skipped.
pub proof fn lemma_finished_run(s: RunState)
    requires
        s.well_formed(),
        s.action_fits(RunAction::Finish),
    ensures
        s.run.dry_run == s.config.dry_run,
        s.run.inputs@.len() == s.config.inputs@.len(),
        forall|i: int|
            0 <= i < s.run.inputs@.len() ==> (#[trigger] s.run.inputs@[i]).source_iso@
                == s.config.inputs@[i]@,
        s.run.totals_match(),
        s.run.results@.len() == s.run.candidates_found,
        s.run.candidates_found == s.run.extracted + s.run.would_extract + s.run.skipped
            + s.run.failed,
        s.run.candidates_found <= s.run.files_scanned,
        forall|k: int|
            0 <= k < s.run.results@.len() ==> spec_has_allowed_extension(
                (#[trigger] s.run.results@[k]).internal_path@,
                strings_view(s.config.extensions@),
            ),
        s.config.dry_run ==> forall|k: int|
            0 <= k < s.run.results@.len() ==> is_dry_run_status(
                (#[trigger] s.run.results@[k]).status,
            ),
{
    crate::extractor::lemma_consistent_run_counts(s.run);
}

fn room(i: &InputSummary) -> (r: bool)
    ensures
        r == i.has_room(),
{
    i.files_scanned < u64::MAX && i.candidates_found < u64::MAX && i.extracted < u64::MAX
        && i.would_extract < u64::MAX && i.skipped < u64::MAX && i.failed < u64::MAX
}

} // verus!
