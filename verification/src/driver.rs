//! The pipeline driver: the state machine that orders a whole scoring run.
//!
//! The driver never touches the sink, the model store or the embedding
//! model itself.  It decides, after each outside step, what happens next:
//! for each configured language in listed order, acquire that language's
//! embedding model, then score and persist every group; a language whose
//! model cannot be had is skipped and reported; a group that cannot be
//! scored is skipped and counted; a sink write failure ends the whole run
//! at once, keeping the count of records committed before the failure.

use vstd::prelude::*;

verus! {

/// Where a pipeline run stands.
#[derive(Clone, Copy, Debug, PartialEq, Eq, Structural)]
pub enum Phase {
    /// Between passes: the current language's model is being acquired.
    Idle,
    /// The current group's messages are being loaded from the sink.
    LoadingMessages,
    /// The loaded messages are being embedded.
    Embedding,
    /// The embedded group is being scored.
    Scoring,
    /// The group's score records are being written in batches.
    Writing,
    /// Every language was processed.
    Done,
    /// A sink write failed; the run stopped there.
    Failed,
}

/// The state of one pipeline run: which language and group are in hand,
/// what is being done to them, and what the run has committed so far.
pub struct PipelineDriver {
    /// Languages to process, in listed order.
    pub langs: Vec<String>,
    /// Distinct group ids present in the sink, in listed order.
    pub groups: Vec<String>,
    /// Index of the language in hand.
    pub lang_idx: usize,
    /// Index of the group in hand.
    pub group_idx: usize,
    /// Where the run stands.
    pub phase: Phase,
    /// Score records committed to the sink so far, over the whole run.
    pub committed: usize,
    /// Languages skipped because their model could not be acquired.
    pub skipped_langs: Vec<String>,
    /// Groups skipped because they could not be scored.
    pub skipped_groups: usize,
}

impl PipelineDriver {
    /// The driver invariant: indices stay within the configured lists, a
    /// working phase always has a language and a group in hand, and a run
    /// is `Done` only once every language was processed or skipped.
    pub open spec fn wf(self) -> bool {
        &&& self.lang_idx <= self.langs@.len()
        &&& self.group_idx <= self.groups@.len()
        &&& (self.phase is Idle ==> self.lang_idx < self.langs@.len() && self.group_idx == 0)
        &&& (self.phase is LoadingMessages || self.phase is Embedding || self.phase is Scoring
            || self.phase is Writing ==> self.lang_idx < self.langs@.len() && self.group_idx
            < self.groups@.len())
        &&& (self.phase is Done ==> self.lang_idx == self.langs@.len())
    }

    /// The group and language in hand after one group is finished (written
    /// or skipped): the next group of the same language, else the next
    /// language's first group, else the end of the run.
    pub open spec fn group_advanced(self, prior: PipelineDriver) -> bool {
        if prior.group_idx + 1 < prior.groups@.len() {
            &&& self.lang_idx == prior.lang_idx
            &&& self.group_idx == prior.group_idx + 1
            &&& self.phase is LoadingMessages
        } else if prior.lang_idx + 1 < prior.langs@.len() {
            &&& self.lang_idx == prior.lang_idx + 1
            &&& self.group_idx == 0
            &&& self.phase is Idle
        } else {
            &&& self.lang_idx == prior.langs@.len()
            &&& self.phase is Done
        }
    }

    /// Start a run over the configured languages and the sink's groups.  A
    /// run over no languages is complete at once.
    pub fn new(langs: Vec<String>, groups: Vec<String>) -> (d: PipelineDriver)
        ensures
            d.wf(),
            d.langs == langs,
            d.groups == groups,
            d.lang_idx == 0,
            d.group_idx == 0,
            d.committed == 0,
            d.skipped_langs@.len() == 0,
            d.skipped_groups == 0,
            d.phase == (if langs@.len() == 0 {
                Phase::Done
            } else {
                Phase::Idle
            }),
    {
        let phase: Phase = if langs.len() == 0 {
            Phase::Done
        } else {
            Phase::Idle
        };
        PipelineDriver {
            langs,
            groups,
            lang_idx: 0,
            group_idx: 0,
            phase,
            committed: 0,
            skipped_langs: Vec::new(),
            skipped_groups: 0,
        }
    }

    /// The current language's model is loaded: start its pass.  A sink with
    /// no groups at all ends the language's pass (and the run) at once.
    pub fn on_model_ready(&mut self)
        requires
            old(self).wf(),
            old(self).phase is Idle,
        ensures
            final(self).wf(),
            final(self).langs == old(self).langs,
            final(self).groups == old(self).groups,
            final(self).committed == old(self).committed,
            final(self).skipped_langs == old(self).skipped_langs,
            final(self).skipped_groups == old(self).skipped_groups,
            if old(self).groups@.len() > 0 {
                &&& final(self).lang_idx == old(self).lang_idx
                &&& final(self).group_idx == 0
                &&& final(self).phase is LoadingMessages
            } else if old(self).lang_idx + 1 < old(self).langs@.len() {
                &&& final(self).lang_idx == old(self).lang_idx + 1
                &&& final(self).group_idx == 0
                &&& final(self).phase is Idle
            } else {
                &&& final(self).lang_idx == old(self).langs@.len()
                &&& final(self).phase is Done
            },
    {
        if self.groups.len() > 0 {
            self.phase = Phase::LoadingMessages;
        } else {
            let n_langs: usize = self.langs.len();
            self.lang_idx = self.lang_idx + 1;
            if self.lang_idx < n_langs {
                self.phase = Phase::Idle;
            } else {
                self.phase = Phase::Done;
            }
        }
    }

    /// The current language's model could not be acquired: record the
    /// language as skipped and go on with the next language.  No group of
    /// the skipped language is scored; the run itself continues.
    pub fn on_model_unavailable(&mut self)
        requires
            old(self).wf(),
            old(self).phase is Idle,
        ensures
            final(self).wf(),
            final(self).langs == old(self).langs,
            final(self).groups == old(self).groups,
            final(self).committed == old(self).committed,
            final(self).skipped_groups == old(self).skipped_groups,
            final(self).skipped_langs@ == old(self).skipped_langs@.push(
                old(self).langs@[old(self).lang_idx as int],
            ),
            final(self).lang_idx == old(self).lang_idx + 1,
            final(self).group_idx == 0,
            final(self).phase == (if old(self).lang_idx + 1 < old(self).langs@.len() {
                Phase::Idle
            } else {
                Phase::Done
            }),
    {
        let skipped: String = self.langs[self.lang_idx].clone();
        let n_langs: usize = self.langs.len();
        self.skipped_langs.push(skipped);
        self.lang_idx = self.lang_idx + 1;
        if self.lang_idx < n_langs {
            self.phase = Phase::Idle;
        } else {
            self.phase = Phase::Done;
        }
    }

    /// The current group's messages are loaded: embed them next.
    pub fn on_messages_loaded(&mut self)
        requires
            old(self).wf(),
            old(self).phase is LoadingMessages,
        ensures
            final(self).wf(),
            *final(self) == (PipelineDriver { phase: Phase::Embedding, ..*old(self) }),
    {
        self.phase = Phase::Embedding;
    }

    /// Every message of the group is embedded: score the group next.
    pub fn on_embedded(&mut self)
        requires
            old(self).wf(),
            old(self).phase is Embedding,
        ensures
            final(self).wf(),
            *final(self) == (PipelineDriver { phase: Phase::Scoring, ..*old(self) }),
    {
        self.phase = Phase::Scoring;
    }

    /// The group is scored: write its records next.  Writing is never
    /// skipped, even when scoring yielded no usable records — an empty
    /// write batch is a no-op, not an error.
    pub fn on_scored(&mut self)
        requires
            old(self).wf(),
            old(self).phase is Scoring,
        ensures
            final(self).wf(),
            *final(self) == (PipelineDriver { phase: Phase::Writing, ..*old(self) }),
    {
        self.phase = Phase::Writing;
    }

    /// The group could not be scored (it was empty, or its vectors
    /// disagreed in length): count it as skipped and go on with the next
    /// group of the same language.  Only this group is lost.
    pub fn on_group_unscorable(&mut self)
        requires
            old(self).wf(),
            old(self).phase is Scoring,
            old(self).skipped_groups < usize::MAX,
        ensures
            final(self).wf(),
            final(self).langs == old(self).langs,
            final(self).groups == old(self).groups,
            final(self).committed == old(self).committed,
            final(self).skipped_langs == old(self).skipped_langs,
            final(self).skipped_groups == old(self).skipped_groups + 1,
            final(self).group_advanced(*old(self)),
    {
        self.skipped_groups = self.skipped_groups + 1;
        self.advance_group();
    }

    /// Every chunk of the group's records was committed: account them and
    /// go on with the next group.
    pub fn on_write_complete(&mut self, written: usize)
        requires
            old(self).wf(),
            old(self).phase is Writing,
            old(self).committed + written <= usize::MAX,
        ensures
            final(self).wf(),
            final(self).langs == old(self).langs,
            final(self).groups == old(self).groups,
            final(self).committed == old(self).committed + written,
            final(self).skipped_langs == old(self).skipped_langs,
            final(self).skipped_groups == old(self).skipped_groups,
            final(self).group_advanced(*old(self)),
    {
        self.committed = self.committed + written;
        self.advance_group();
    }

    /// The sink refused a chunk: the run fails as a whole, at once.  The
    /// committed count keeps everything committed before the failure —
    /// earlier groups and languages, and the failed group's chunks that
    /// succeeded — so a caller can resume by hand; nothing later is ever
    /// attempted.
    pub fn on_write_failed(&mut self, partial: usize)
        requires
            old(self).wf(),
            old(self).phase is Writing,
            old(self).committed + partial <= usize::MAX,
        ensures
            final(self).wf(),
            final(self).langs == old(self).langs,
            final(self).groups == old(self).groups,
            final(self).lang_idx == old(self).lang_idx,
            final(self).group_idx == old(self).group_idx,
            final(self).committed == old(self).committed + partial,
            final(self).skipped_langs == old(self).skipped_langs,
            final(self).skipped_groups == old(self).skipped_groups,
            final(self).phase is Failed,
    {
        self.committed = self.committed + partial;
        self.phase = Phase::Failed;
    }

    /// Step past the group in hand, to the next group, the next language,
    /// or the end of the run.
    fn advance_group(&mut self)
        requires
            old(self).wf(),
            old(self).lang_idx < old(self).langs@.len(),
            old(self).group_idx < old(self).groups@.len(),
        ensures
            final(self).wf(),
            final(self).langs == old(self).langs,
            final(self).groups == old(self).groups,
            final(self).committed == old(self).committed,
            final(self).skipped_langs == old(self).skipped_langs,
            final(self).skipped_groups == old(self).skipped_groups,
            final(self).group_advanced(*old(self)),
    {
        let n_groups: usize = self.groups.len();
        let n_langs: usize = self.langs.len();
        self.group_idx = self.group_idx + 1;
        if self.group_idx < n_groups {
            self.phase = Phase::LoadingMessages;
        } else {
            self.group_idx = 0;
            self.lang_idx = self.lang_idx + 1;
            if self.lang_idx < n_langs {
                self.phase = Phase::Idle;
            } else {
                self.phase = Phase::Done;
            }
        }
    }
}

} // verus!
