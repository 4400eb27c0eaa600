//! The decisions of the NLP job queue: which submissions are sent to the
//! worker, how repeated full-text reindex requests for one item coalesce into a
//! single rerun, and how entity extraction for an item is kept from running
//! twice at once. The worker loop itself (channels, database, events) drives
//! these transitions.

use vstd::prelude::*;
use crate::chars::{ascii_lower, chars_of, to_ascii_lower};
use crate::ner_types::{Entity, NerEngineKind};
use crate::text::trim;

verus! {

/// Whether two strings hold the same characters.
pub fn same_text(a: &str, b: &str) -> (r: bool)
    ensures
        r == (a@ == b@),
{
    let va = chars_of(a);
    let vb = chars_of(b);
    if va.len() != vb.len() {
        assert(a@.len() != b@.len());
        return false;
    }
    let mut i: usize = 0;
    while i < va.len()
        invariant
            va@ == a@,
            vb@ == b@,
            va.len() == vb.len(),
            i <= va.len(),
            forall|k: int| 0 <= k < i ==> va@[k] == vb@[k],
        decreases va.len() - i,
    {
        if va[i] != vb[i] {
            assert(a@[i as int] != b@[i as int]);
            return false;
        }
        i += 1;
    }
    assert(va@ =~= vb@);
    true
}

/// A unit of NLP work for the background worker.
#[derive(Debug)]
pub enum NlpJob {
    IndexFts { item_id: String },
    ExtractEntities { item_id: String },
    EnrichItem { item_id: String },
    ComputeAssetEmbedding { item_id: String, asset_id: String },
    ExtractEntitiesForAsset { item_id: String, asset_id: String },
}

/// Progress of a job, as reported to the interface.
pub struct NlpProgressPayload {
    pub item_id: String,
    pub job: String,
    pub pct: u8,
}

/// Completion of a job.
pub struct NlpCompletePayload {
    pub item_id: String,
    pub job: String,
}

/// Failure of a job.
pub struct NlpErrorPayload {
    pub item_id: String,
    pub job: String,
    pub error: String,
}

// ── Pending-work model ───────────────────────────────────────────────────────

/// Items whose entity extraction is queued or running.
pub type NerPending = Set<Seq<char>>;

/// Items whose full-text reindex is queued or running, each with whether a
/// further request arrived meanwhile (and one more pass is owed).
pub type FtsPending = Map<Seq<char>, bool>;

/// A reindex request: sent when the item is not pending (it becomes pending with
/// no rerun owed); otherwise coalesced into one owed rerun. Returns the new state
/// and whether the job is sent.
pub open spec fn fts_submit_step(m: FtsPending, item: Seq<char>) -> (FtsPending, bool) {
    if m.dom().contains(item) {
        (m.insert(item, true), false)
    } else {
        (m.insert(item, false), true)
    }
}

/// The end of a reindex pass: after a successful pass with a rerun owed, the
/// item stays pending with none owed and the pass runs again; otherwise the item
/// is no longer pending. Returns the new state and whether to run again.
pub open spec fn fts_done_step(m: FtsPending, item: Seq<char>, succeeded: bool) -> (
    FtsPending,
    bool,
) {
    if succeeded && m.dom().contains(item) && m[item] {
        (m.insert(item, false), true)
    } else {
        (m.remove(item), false)
    }
}

/// Registering an extraction: refused when the item is already pending.
pub open spec fn ner_register_step(s: NerPending, item: Seq<char>) -> (NerPending, bool) {
    if s.contains(item) {
        (s, false)
    } else {
        (s.insert(item), true)
    }
}

/// The list holds each pending item once, and nothing else.
pub closed spec fn ner_list_ok(ner: Seq<String>, model: NerPending) -> bool {
    &&& forall|i: int| 0 <= i < ner.len() ==> model.contains(#[trigger] ner[i]@)
    &&& forall|s: Seq<char>| #[trigger]
        model.contains(s) ==> exists|i: int| 0 <= i < ner.len() && ner[i]@ == s
    &&& forall|i: int, j: int| 0 <= i < j < ner.len() ==> (#[trigger] ner[i])@ != (#[trigger] ner[j])@
}

/// The list holds each pending item once with its rerun flag, and nothing else.
pub closed spec fn fts_list_ok(fts: Seq<(String, bool)>, model: FtsPending) -> bool {
    &&& forall|i: int|
        0 <= i < fts.len() ==> model.dom().contains((#[trigger] fts[i]).0@) && model[fts[i].0@]
            == fts[i].1
    &&& forall|s: Seq<char>| #[trigger]
        model.dom().contains(s) ==> exists|i: int| 0 <= i < fts.len() && fts[i].0@ == s
    &&& forall|i: int, j: int|
        0 <= i < j < fts.len() ==> (#[trigger] fts[i]).0@ != (#[trigger] fts[j]).0@
}

/// The pending sets shared by the queue and its worker.
pub struct PendingJobs {
    ner: Vec<String>,
    fts: Vec<(String, bool)>,
    ner_model: Ghost<NerPending>,
    fts_model: Ghost<FtsPending>,
}

impl View for PendingJobs {
    type V = (NerPending, FtsPending);

    closed spec fn view(&self) -> (NerPending, FtsPending) {
        (self.ner_model@, self.fts_model@)
    }
}

impl PendingJobs {
    /// The lists hold each item once and agree with the models.
    pub closed spec fn wf(&self) -> bool {
        &&& ner_list_ok(self.ner@, self.ner_model@)
        &&& fts_list_ok(self.fts@, self.fts_model@)
    }

    /// Nothing pending.
    pub fn new() -> (r: Self)
        ensures
            r.wf(),
            r@.0 == Set::<Seq<char>>::empty(),
            r@.1 == Map::<Seq<char>, bool>::empty(),
    {
        PendingJobs {
            ner: Vec::new(),
            fts: Vec::new(),
            ner_model: Ghost(Set::empty()),
            fts_model: Ghost(Map::empty()),
        }
    }

    fn find_ner(&self, item: &str) -> (r: Option<usize>)
        ensures
            r matches Some(i) ==> i < self.ner.len() && self.ner@[i as int]@ == item@,
            r is None ==> forall|i: int| 0 <= i < self.ner.len() ==> self.ner@[i]@ != item@,
    {
        let mut i: usize = 0;
        while i < self.ner.len()
            invariant
                i <= self.ner.len(),
                forall|k: int| 0 <= k < i ==> self.ner@[k]@ != item@,
            decreases self.ner.len() - i,
        {
            if same_text(self.ner[i].as_str(), item) {
                return Some(i);
            }
            i += 1;
        }
        None
    }

    fn find_fts(&self, item: &str) -> (r: Option<usize>)
        ensures
            r matches Some(i) ==> i < self.fts.len() && self.fts@[i as int].0@ == item@,
            r is None ==> forall|i: int| 0 <= i < self.fts.len() ==> self.fts@[i].0@ != item@,
    {
        let mut i: usize = 0;
        while i < self.fts.len()
            invariant
                i <= self.fts.len(),
                forall|k: int| 0 <= k < i ==> self.fts@[k].0@ != item@,
            decreases self.fts.len() - i,
        {
            if same_text(self.fts[i].0.as_str(), item) {
                return Some(i);
            }
            i += 1;
        }
        None
    }

    /// Whether entity extraction for `item` is queued or running.
    pub fn ner_is_pending(&self, item: &str) -> (r: bool)
        requires
            self.wf(),
        ensures
            r == self@.0.contains(item@),
    {
        match self.find_ner(item) {
            Some(_) => true,
            None => false,
        }
    }

    /// Marks `item` as pending extraction; `false` (and no change) when it
    /// already was.
    pub fn ner_register(&mut self, item: &str) -> (inserted: bool)
        requires
            old(self).wf(),
        ensures
            final(self).wf(),
            (final(self)@.0, inserted) == ner_register_step(old(self)@.0, item@),
            final(self)@.1 == old(self)@.1,
    {
        match self.find_ner(item) {
            Some(_) => false,
            None => {
                let ghost old_ner = self.ner@;
                let s = item.to_string();
                self.ner.push(s);
                proof {
                    self.ner_model@ = self.ner_model@.insert(item@);
                    assert forall|x: Seq<char>| #[trigger]
                        self.ner_model@.contains(x) implies exists|i: int|
                        0 <= i < self.ner.len() && self.ner@[i]@ == x by {
                        if x == item@ {
                            assert(self.ner@[old_ner.len() as int]@ == x);
                        } else {
                            let i = choose|i: int| 0 <= i < old_ner.len() && old_ner[i]@ == x;
                            assert(self.ner@[i]@ == x);
                        }
                    }
                }
                true
            },
        }
    }

    /// Marks `item` as no longer pending extraction.
    pub fn ner_release(&mut self, item: &str)
        requires
            old(self).wf(),
        ensures
            final(self).wf(),
            final(self)@.0 == old(self)@.0.remove(item@),
            final(self)@.1 == old(self)@.1,
    {
        match self.find_ner(item) {
            Some(i) => {
                let ghost old_ner = self.ner@;
                self.ner.remove(i);
                proof {
                    self.ner_model@ = self.ner_model@.remove(item@);
                    assert forall|x: Seq<char>| #[trigger]
                        self.ner_model@.contains(x) implies exists|k: int|
                        0 <= k < self.ner.len() && self.ner@[k]@ == x by {
                        let k = choose|k: int| 0 <= k < old_ner.len() && old_ner[k]@ == x;
                        if k < i {
                            assert(self.ner@[k]@ == x);
                        } else {
                            assert(k != i);
                            assert(self.ner@[k - 1]@ == x);
                        }
                    }
                    assert forall|a: int, b: int| 0 <= a < b < self.ner.len() implies (
                    #[trigger] self.ner@[a])@ != (#[trigger] self.ner@[b])@ by {
                        let a2 = if a < i { a } else { a + 1 };
                        let b2 = if b < i { b } else { b + 1 };
                        assert(self.ner@[a] == old_ner[a2]);
                        assert(self.ner@[b] == old_ner[b2]);
                    }
                    assert forall|k: int| 0 <= k < self.ner.len() implies self.ner_model@.contains(
                        #[trigger] self.ner@[k]@,
                    ) by {
                        let k2 = if k < i { k } else { k + 1 };
                        assert(self.ner@[k] == old_ner[k2]);
                        assert(k2 != i);
                    }
                }
            },
            None => {
                proof {
                    assert(!self.ner_model@.contains(item@));
                    assert(self.ner_model@.remove(item@) =~= self.ner_model@);
                }
            },
        }
    }

    /// A reindex request for `item`: `true` when the job must be sent to the
    /// worker, `false` when it was coalesced into the pending one.
    pub fn fts_submit(&mut self, item: &str) -> (send: bool)
        requires
            old(self).wf(),
        ensures
            final(self).wf(),
            (final(self)@.1, send) == fts_submit_step(old(self)@.1, item@),
            final(self)@.0 == old(self)@.0,
    {
        let ghost old_fts = self.fts@;
        match self.find_fts(item) {
            Some(i) => {
                let key = self.fts[i].0.clone();
                self.fts.set(i, (key, true));
                proof {
                    self.fts_model@ = self.fts_model@.insert(item@, true);
                    self.lemma_fts_after_set(old_fts, i as int, item@, true);
                }
                false
            },
            None => {
                let s = item.to_string();
                self.fts.push((s, false));
                proof {
                    self.fts_model@ = self.fts_model@.insert(item@, false);
                    assert forall|x: Seq<char>| #[trigger]
                        self.fts_model@.dom().contains(x) implies exists|k: int|
                        0 <= k < self.fts.len() && self.fts@[k].0@ == x by {
                        if x == item@ {
                            assert(self.fts@[old_fts.len() as int].0@ == x);
                        } else {
                            let k = choose|k: int| 0 <= k < old_fts.len() && old_fts[k].0@ == x;
                            assert(self.fts@[k].0@ == x);
                        }
                    }
                }
                true
            },
        }
    }

    proof fn lemma_fts_after_set(
        &self,
        old_fts: Seq<(String, bool)>,
        i: int,
        item: Seq<char>,
        v: bool,
    )
        requires
            0 <= i < old_fts.len(),
            old_fts[i].0@ == item,
            self.fts@.len() == old_fts.len(),
            self.fts@[i].0@ == item,
            self.fts@[i].1 == v,
            forall|k: int| 0 <= k < old_fts.len() && k != i ==> self.fts@[k] == old_fts[k],
            self.fts_model@.dom().contains(item),
            self.fts_model@[item] == v,
            forall|k: int|
                0 <= k < old_fts.len() && k != i ==> self.fts_model@.dom().contains(
                    (#[trigger] old_fts[k]).0@,
                ) && self.fts_model@[old_fts[k].0@] == old_fts[k].1,
            forall|x: Seq<char>| #[trigger]
                self.fts_model@.dom().contains(x) ==> exists|k: int|
                    0 <= k < old_fts.len() && old_fts[k].0@ == x,
            forall|a: int, b: int|
                0 <= a < b < old_fts.len() ==> (#[trigger] old_fts[a]).0@ != (
                #[trigger] old_fts[b]).0@,
        ensures
            forall|x: Seq<char>| #[trigger]
                self.fts_model@.dom().contains(x) ==> exists|k: int|
                    0 <= k < self.fts.len() && self.fts@[k].0@ == x,
            forall|a: int, b: int|
                0 <= a < b < self.fts.len() ==> (#[trigger] self.fts@[a]).0@ != (
                #[trigger] self.fts@[b]).0@,
            forall|k: int|
                0 <= k < self.fts.len() ==> self.fts_model@.dom().contains(
                    (#[trigger] self.fts@[k]).0@,
                ) && self.fts_model@[self.fts@[k].0@] == self.fts@[k].1,
    {
        assert forall|x: Seq<char>| #[trigger]
            self.fts_model@.dom().contains(x) implies exists|k: int|
            0 <= k < self.fts.len() && self.fts@[k].0@ == x by {
            let k = choose|k: int| 0 <= k < old_fts.len() && old_fts[k].0@ == x;
            if k == i {
                assert(self.fts@[i].0@ == x);
            } else {
                assert(self.fts@[k].0@ == x);
            }
        }
        assert forall|a: int, b: int| 0 <= a < b < self.fts.len() implies (
        #[trigger] self.fts@[a]).0@ != (#[trigger] self.fts@[b]).0@ by {
            assert(self.fts@[a].0@ == old_fts[a].0@);
            assert(self.fts@[b].0@ == old_fts[b].0@);
        }
        assert forall|k: int| 0 <= k < self.fts.len() implies self.fts_model@.dom().contains(
            (#[trigger] self.fts@[k]).0@,
        ) && self.fts_model@[self.fts@[k].0@] == self.fts@[k].1 by {
            if k != i {
                assert(self.fts@[k] == old_fts[k]);
            }
        }
    }

    fn fts_remove_at(&mut self, i: usize, Ghost(item): Ghost<Seq<char>>)
        requires
            old(self).wf(),
            i < old(self).fts.len(),
            old(self).fts@[i as int].0@ == item,
        ensures
            final(self).wf(),
            final(self)@.1 == old(self)@.1.remove(item),
            final(self)@.0 == old(self)@.0,
    {
        let ghost old_fts = self.fts@;
        self.fts.remove(i);
        proof {
            self.fts_model@ = self.fts_model@.remove(item);
            assert forall|x: Seq<char>| #[trigger]
                self.fts_model@.dom().contains(x) implies exists|k: int|
                0 <= k < self.fts.len() && self.fts@[k].0@ == x by {
                let k = choose|k: int| 0 <= k < old_fts.len() && old_fts[k].0@ == x;
                if k < i {
                    assert(self.fts@[k].0@ == x);
                } else {
                    assert(k != i);
                    assert(self.fts@[k - 1].0@ == x);
                }
            }
            assert forall|a: int, b: int| 0 <= a < b < self.fts.len() implies (
            #[trigger] self.fts@[a]).0@ != (#[trigger] self.fts@[b]).0@ by {
                let a2 = if a < i { a } else { a + 1 };
                let b2 = if b < i { b } else { b + 1 };
                assert(self.fts@[a] == old_fts[a2]);
                assert(self.fts@[b] == old_fts[b2]);
            }
            assert forall|k: int| 0 <= k < self.fts.len() implies self.fts_model@.dom().contains(
                (#[trigger] self.fts@[k]).0@,
            ) && self.fts_model@[self.fts@[k].0@] == self.fts@[k].1 by {
                let k2 = if k < i { k } else { k + 1 };
                assert(self.fts@[k] == old_fts[k2]);
                assert(k2 != i);
                assert(old_fts[k2].0@ != item);
            }
        }
    }

    /// The job for `item` could not be sent: it is no longer pending.
    pub fn fts_send_failed(&mut self, item: &str)
        requires
            old(self).wf(),
        ensures
            final(self).wf(),
            final(self)@.1 == old(self)@.1.remove(item@),
            final(self)@.0 == old(self)@.0,
    {
        match self.find_fts(item) {
            Some(i) => self.fts_remove_at(i, Ghost(item@)),
            None => {
                assert(self.fts_model@.remove(item@) =~= self.fts_model@);
            },
        }
    }

    /// The end of a reindex pass for `item`: `true` when one more pass must run.
    pub fn fts_pass_done(&mut self, item: &str, succeeded: bool) -> (rerun: bool)
        requires
            old(self).wf(),
        ensures
            final(self).wf(),
            (final(self)@.1, rerun) == fts_done_step(old(self)@.1, item@, succeeded),
            final(self)@.0 == old(self)@.0,
    {
        let ghost old_fts = self.fts@;
        match self.find_fts(item) {
            Some(i) => {
                if succeeded && self.fts[i].1 {
                    let key = self.fts[i].0.clone();
                    self.fts.set(i, (key, false));
                    proof {
                        self.fts_model@ = self.fts_model@.insert(item@, false);
                        self.lemma_fts_after_set(old_fts, i as int, item@, false);
                    }
                    true
                } else {
                    self.fts_remove_at(i, Ghost(item@));
                    false
                }
            },
            None => {
                assert(self.fts_model@.remove(item@) =~= self.fts_model@);
                false
            },
        }
    }

    /// Whether `item` has a reindex pending, and with a rerun owed.
    pub fn fts_entry(&self, item: &str) -> (r: Option<bool>)
        requires
            self.wf(),
        ensures
            r == (if self@.1.dom().contains(item@) {
                Some(self@.1[item@])
            } else {
                None::<bool>
            }),
    {
        match self.find_fts(item) {
            Some(i) => Some(self.fts[i].1),
            None => None,
        }
    }
}

/// Decides whether a submitted job is sent to the worker, recording reindex
/// requests: a reindex of an item already pending is coalesced (not sent).
pub fn admit_job(pending: &mut PendingJobs, job: &NlpJob) -> (send: bool)
    requires
        old(pending).wf(),
    ensures
        final(pending).wf(),
        match job {
            NlpJob::IndexFts { item_id } => (final(pending)@.1, send) == fts_submit_step(
                old(pending)@.1,
                item_id@,
            ) && final(pending)@.0 == old(pending)@.0,
            _ => send && final(pending)@ == old(pending)@,
        },
{
    match job {
        NlpJob::IndexFts { item_id } => pending.fts_submit(item_id.as_str()),
        _ => true,
    }
}

pub const ENQUEUE_FAILED: &'static str = "Failed to enqueue NLP job: ";

/// The end of a submission whose job was handed to the channel: when the
/// channel refused it (full or closed), a reindex request stops being pending
/// and the submission fails with `Failed to enqueue NLP job: ` and the
/// channel's reason; otherwise nothing changes.
pub fn finish_submit(pending: &mut PendingJobs, job: &NlpJob, sent: Result<(), String>) -> (r: Result<
    (),
    String,
>)
    requires
        old(pending).wf(),
    ensures
        final(pending).wf(),
        final(pending)@.0 == old(pending)@.0,
        match sent {
            Ok(()) => r is Ok && final(pending)@ == old(pending)@,
            Err(reason) => (r matches Err(e) && e@ == ENQUEUE_FAILED@ + reason@) && match job {
                NlpJob::IndexFts { item_id } => final(pending)@.1 == old(pending)@.1.remove(
                    item_id@,
                ),
                _ => final(pending)@ == old(pending)@,
            },
        },
{
    match sent {
        Ok(()) => Ok(()),
        Err(reason) => {
            match job {
                NlpJob::IndexFts { item_id } => pending.fts_send_failed(item_id.as_str()),
                _ => {},
            }
            let mut e = String::from_str(ENQUEUE_FAILED);
            e.append(reason.as_str());
            Err(e)
        },
    }
}

/// A submission that was sent but refused by the channel leaves the pending
/// reindex requests as they were before it.
pub proof fn law_refused_submission_restores_pending(m: FtsPending, item: Seq<char>)
    ensures
        fts_submit_step(m, item).1 ==> fts_submit_step(m, item).0.remove(item) == m,
{
    if fts_submit_step(m, item).1 {
        assert(m.insert(item, false).remove(item) =~= m);
    }
}

/// The start of an entity refresh for `item`: `false` (skip, nothing to send)
/// when one is already pending, else the item becomes pending.
pub fn begin_entity_refresh(pending: &mut PendingJobs, item: &str) -> (send: bool)
    requires
        old(pending).wf(),
    ensures
        final(pending).wf(),
        (final(pending)@.0, send) == ner_register_step(old(pending)@.0, item@),
        final(pending)@.1 == old(pending)@.1,
{
    pending.ner_register(item)
}

/// The end of an entity refresh whose submission returned `submitted`: on
/// failure the item is no longer pending and the error is returned as is.
pub fn finish_entity_refresh(pending: &mut PendingJobs, item: &str, submitted: Result<(), String>) -> (r:
    Result<(), String>)
    requires
        old(pending).wf(),
    ensures
        final(pending).wf(),
        r == submitted,
        final(pending)@.1 == old(pending)@.1,
        submitted is Ok ==> final(pending)@.0 == old(pending)@.0,
        submitted is Err ==> final(pending)@.0 == old(pending)@.0.remove(item@),
{
    if submitted.is_err() {
        pending.ner_release(item);
    }
    submitted
}

/// An entity refresh whose submission failed leaves the pending extractions as
/// they were before it.
pub proof fn law_failed_refresh_restores_pending(s: NerPending, item: Seq<char>)
    ensures
        ner_register_step(s, item).1 ==> ner_register_step(s, item).0.remove(item) == s,
{
    if ner_register_step(s, item).1 {
        assert(s.insert(item).remove(item) =~= s);
    }
}

/// The label under which a job reports progress.
pub open spec fn job_label_spec(job: NlpJob) -> Seq<char> {
    match job {
        NlpJob::IndexFts { .. } => "fts"@,
        NlpJob::ExtractEntities { .. } => "ner"@,
        NlpJob::EnrichItem { .. } => "fts"@,
        NlpJob::ComputeAssetEmbedding { .. } => "embed"@,
        NlpJob::ExtractEntitiesForAsset { .. } => "ner"@,
    }
}

pub fn job_label(job: &NlpJob) -> (r: &'static str)
    ensures
        r@ == job_label_spec(*job),
{
    match job {
        NlpJob::IndexFts { .. } => "fts",
        NlpJob::ExtractEntities { .. } => "ner",
        NlpJob::EnrichItem { .. } => "fts",
        NlpJob::ComputeAssetEmbedding { .. } => "embed",
        NlpJob::ExtractEntitiesForAsset { .. } => "ner",
    }
}

/// The entities to persist for a text: none when the text is blank.
pub fn entities_for_text(text: &str, entities: Vec<Entity>) -> (r: Vec<Entity>)
    ensures
        r@ == (if trim(text@).len() == 0 {
            Seq::<Entity>::empty()
        } else {
            entities@
        }),
{
    let t = crate::text::trim_chars(text);
    if t.len() == 0 {
        Vec::new()
    } else {
        entities
    }
}

/// The outcome of an embedding job once storage reported success: complete when
/// the vector is found in storage, otherwise an error.
pub fn embedding_persist_outcome(persisted: Result<bool, String>) -> (r: Result<(), String>)
    ensures
        persisted matches Ok(true) ==> r is Ok,
        persisted matches Ok(false) ==> r matches Err(e)
            && e@ == "Asset embedding job completed but no vector was persisted"@,
        persisted matches Err(e) ==> r == Err::<(), String>(e),
{
    match persisted {
        Ok(true) => Ok(()),
        Ok(false) => Err(String::from_str("Asset embedding job completed but no vector was persisted")),
        Err(e) => Err(e),
    }
}

/// The engine named by a setting: `rule`/`rule_based`, `onnx`, `spacy` (after
/// trimming, any ASCII case); anything else, or no setting, is the hybrid engine.
pub open spec fn engine_kind_for(setting: Option<Seq<char>>) -> NerEngineKind {
    match setting {
        None => NerEngineKind::Hybrid,
        Some(s) => {
            let v = trim(s).map_values(|c: char| ascii_lower(c));
            if v == "rule"@ || v == "rule_based"@ {
                NerEngineKind::RuleBased
            } else if v == "onnx"@ {
                NerEngineKind::Onnx
            } else if v == "spacy"@ {
                NerEngineKind::Spacy
            } else {
                NerEngineKind::Hybrid
            }
        },
    }
}

/// The NER engine selected by the engine setting, if one is set.
pub fn ner_engine_kind_from_setting(setting: Option<&str>) -> (r: NerEngineKind)
    ensures
        r == engine_kind_for(
            match setting {
                Some(s) => Some(s@),
                None => None,
            },
        ),
{
    match setting {
        None => NerEngineKind::Hybrid,
        Some(s) => {
            let t = crate::text::trim_chars(s);
            let mut low: Vec<char> = Vec::new();
            let mut i: usize = 0;
            while i < t.len()
                invariant
                    i <= t.len(),
                    low@ == t@.take(i as int).map_values(|c: char| ascii_lower(c)),
                decreases t.len() - i,
            {
                low.push(to_ascii_lower(t[i]));
                i += 1;
                assert(low@ =~= t@.take(i as int).map_values(|c: char| ascii_lower(c)));
            }
            assert(t@.take(t.len() as int) =~= t@);
            let v = crate::chars::string_from_chars(&low);
            if same_text(v.as_str(), "rule") || same_text(v.as_str(), "rule_based") {
                NerEngineKind::RuleBased
            } else if same_text(v.as_str(), "onnx") {
                NerEngineKind::Onnx
            } else if same_text(v.as_str(), "spacy") {
                NerEngineKind::Spacy
            } else {
                NerEngineKind::Hybrid
            }
        },
    }
}

// ── Laws ─────────────────────────────────────────────────────────────────────

/// While a reindex of an item is pending, further requests for it send nothing.
pub proof fn law_fts_pending_requests_coalesce(m: FtsPending, item: Seq<char>)
    requires
        m.dom().contains(item),
    ensures
        !fts_submit_step(m, item).1,
        fts_submit_step(m, item).0.dom() == m.dom(),
        fts_submit_step(m, item).0[item],
{
    assert(fts_submit_step(m, item).0.dom() =~= m.dom());
}

/// Any number of requests that arrive during a pass cause exactly one more
/// pass: after the sent request and `k` more, a successful pass runs again once,
/// and the pass after that ends the reindex.
pub proof fn law_fts_one_rerun_for_many_requests(m: FtsPending, item: Seq<char>, k: nat)
    requires
        !m.dom().contains(item),
        k > 0,
    ensures
        ({
            let first = fts_submit_step(m, item);
            let busy = repeat_submits(first.0, item, k);
            let pass1 = fts_done_step(busy, item, true);
            let pass2 = fts_done_step(pass1.0, item, true);
            &&& first.1
            &&& pass1.1
            &&& !pass2.1
            &&& !pass2.0.dom().contains(item)
        }),
{
    lemma_repeat_submits(fts_submit_step(m, item).0, item, k);
}

/// `k` further reindex requests for `item`.
pub open spec fn repeat_submits(m: FtsPending, item: Seq<char>, k: nat) -> FtsPending
    decreases k,
{
    if k == 0 {
        m
    } else {
        fts_submit_step(repeat_submits(m, item, (k - 1) as nat), item).0
    }
}

proof fn lemma_repeat_submits(m: FtsPending, item: Seq<char>, k: nat)
    requires
        m.dom().contains(item),
        k > 0,
    ensures
        repeat_submits(m, item, k).dom().contains(item),
        repeat_submits(m, item, k)[item],
    decreases k,
{
    if k > 1 {
        lemma_repeat_submits(m, item, (k - 1) as nat);
    } else {
        assert(repeat_submits(m, item, 0) == m);
    }
}

/// A failed pass ends the reindex without a rerun, whatever was owed.
pub proof fn law_fts_failure_clears(m: FtsPending, item: Seq<char>)
    ensures
        !fts_done_step(m, item, false).1,
        !fts_done_step(m, item, false).0.dom().contains(item),
{
}

/// An item is extracted once at a time: a second registration is refused until
/// the first is released.
pub proof fn law_ner_single_flight(s: NerPending, item: Seq<char>)
    ensures
        !ner_register_step(ner_register_step(s, item).0, item).1,
        ner_register_step(ner_register_step(s, item).0.remove(item), item).1,
{
}

// ── Worker ───────────────────────────────────────────────────────────────────

/// What the worker has set up so far: the entity-extraction registry is built
/// on the first job that needs it, and starting the embedding engine is tried
/// once, on the first embedding job.
#[derive(Debug, Clone, Copy, PartialEq, Eq, Structural)]
pub struct WorkerState {
    pub ner_ready: bool,
    pub embed_init_attempted: bool,
}

/// How the worker begins a job: the label of its first progress event (at
/// 10%), and which lazy set-up it performs first.
#[derive(Debug, Clone, Copy)]
pub struct JobStart {
    pub label: &'static str,
    pub build_ner: bool,
    pub start_embedder: bool,
}

/// The jobs that extract entities as their own work (a whole-item enrichment
/// decides that only after its reindex).
pub open spec fn extracts_entities(job: NlpJob) -> bool {
    job is ExtractEntities || job is ExtractEntitiesForAsset
}

/// The worker's state once it has begun `job`.
pub open spec fn state_after(st: WorkerState, job: NlpJob) -> WorkerState {
    WorkerState {
        ner_ready: st.ner_ready || extracts_entities(job),
        embed_init_attempted: st.embed_init_attempted || job is ComputeAssetEmbedding,
    }
}

impl WorkerState {
    /// Nothing set up yet.
    pub fn new() -> (r: Self)
        ensures
            !r.ner_ready,
            !r.embed_init_attempted,
    {
        WorkerState { ner_ready: false, embed_init_attempted: false }
    }

    /// Begins `job`: the registry is built when the job extracts entities and
    /// it is not built yet; the embedding engine is started when the job
    /// embeds and no start was tried yet.
    pub fn start_job(&mut self, job: &NlpJob) -> (s: JobStart)
        ensures
            s.label@ == job_label_spec(*job),
            s.build_ner == (extracts_entities(*job) && !old(self).ner_ready),
            s.start_embedder == (job is ComputeAssetEmbedding && !old(self).embed_init_attempted),
            *final(self) == state_after(*old(self), *job),
    {
        let label = job_label(job);
        let needs_ner = match job {
            NlpJob::ExtractEntities { .. } => true,
            NlpJob::ExtractEntitiesForAsset { .. } => true,
            _ => false,
        };
        let embeds = match job {
            NlpJob::ComputeAssetEmbedding { .. } => true,
            _ => false,
        };
        let build_ner = needs_ner && !self.ner_ready;
        let start_embedder = embeds && !self.embed_init_attempted;
        if needs_ner {
            self.ner_ready = true;
        }
        if embeds {
            self.embed_init_attempted = true;
        }
        JobStart { label, build_ner, start_embedder }
    }

    /// The extraction step of a whole-item enrichment, after its reindex:
    /// skipped (`None`, nothing changes) while an extraction of the item is
    /// pending; otherwise the item becomes pending and the result says whether
    /// the registry must be built first.
    pub fn begin_enrich_extraction(&mut self, pending: &mut PendingJobs, item: &str) -> (r: Option<
        bool,
    >)
        requires
            old(pending).wf(),
        ensures
            final(pending).wf(),
            final(pending)@.1 == old(pending)@.1,
            old(pending)@.0.contains(item@) ==> r is None && final(pending)@.0 == old(pending)@.0
                && *final(self) == *old(self),
            !old(pending)@.0.contains(item@) ==> r == Some(!old(self).ner_ready)
                && final(pending)@.0 == old(pending)@.0.insert(item@) && final(self).ner_ready
                && final(self).embed_init_attempted == old(self).embed_init_attempted,
    {
        if pending.ner_is_pending(item) {
            return None;
        }
        let build = !self.ner_ready;
        pending.ner_register(item);
        self.ner_ready = true;
        Some(build)
    }
}

/// How many times the jobs, begun in order from `st`, build the registry.
pub open spec fn registry_builds(st: WorkerState, jobs: Seq<NlpJob>) -> nat
    decreases jobs.len(),
{
    if jobs.len() == 0 {
        0
    } else {
        (if extracts_entities(jobs[0]) && !st.ner_ready {
            1nat
        } else {
            0nat
        }) + registry_builds(state_after(st, jobs[0]), jobs.skip(1))
    }
}

/// How many times the jobs, begun in order from `st`, start the embedding engine.
pub open spec fn embedder_starts(st: WorkerState, jobs: Seq<NlpJob>) -> nat
    decreases jobs.len(),
{
    if jobs.len() == 0 {
        0
    } else {
        (if jobs[0] is ComputeAssetEmbedding && !st.embed_init_attempted {
            1nat
        } else {
            0nat
        }) + embedder_starts(state_after(st, jobs[0]), jobs.skip(1))
    }
}

proof fn lemma_ready_builds_nothing(st: WorkerState, jobs: Seq<NlpJob>)
    requires
        st.ner_ready,
    ensures
        registry_builds(st, jobs) == 0,
    decreases jobs.len(),
{
    if jobs.len() > 0 {
        lemma_ready_builds_nothing(state_after(st, jobs[0]), jobs.skip(1));
    }
}

proof fn lemma_attempted_starts_nothing(st: WorkerState, jobs: Seq<NlpJob>)
    requires
        st.embed_init_attempted,
    ensures
        embedder_starts(st, jobs) == 0,
    decreases jobs.len(),
{
    if jobs.len() > 0 {
        lemma_attempted_starts_nothing(state_after(st, jobs[0]), jobs.skip(1));
    }
}

/// Over any run of jobs the registry is built at most once (never, once it is
/// built), and starting the embedding engine is tried at most once (never,
/// once it was tried), whether or not that start succeeded.
pub proof fn law_worker_sets_up_once(st: WorkerState, jobs: Seq<NlpJob>)
    ensures
        registry_builds(st, jobs) <= 1,
        st.ner_ready ==> registry_builds(st, jobs) == 0,
        embedder_starts(st, jobs) <= 1,
        st.embed_init_attempted ==> embedder_starts(st, jobs) == 0,
    decreases jobs.len(),
{
    if st.ner_ready {
        lemma_ready_builds_nothing(st, jobs);
    }
    if st.embed_init_attempted {
        lemma_attempted_starts_nothing(st, jobs);
    }
    if jobs.len() > 0 {
        let next = state_after(st, jobs[0]);
        law_worker_sets_up_once(next, jobs.skip(1));
        if extracts_entities(jobs[0]) {
            lemma_ready_builds_nothing(next, jobs.skip(1));
        }
        if jobs[0] is ComputeAssetEmbedding {
            lemma_attempted_starts_nothing(next, jobs.skip(1));
        }
    }
}

} // verus!
