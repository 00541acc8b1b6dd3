//! The job registry: the single piece of state shared between the
//! starter, the per-job reader task and cancellation.
//!
//! A registry entry owns its process handle exclusively.  Removal
//! transfers that ownership to whoever performs it, which is why
//! `remove` returns the whole entry; a second removal of the same id
//! finds nothing, so no handle can ever be handed out twice.  The
//! registry is generic in the handle type: the application instantiates
//! it with its process handle, tests with a stand-in.

use vstd::prelude::*;

use crate::models::ModelSize;

verus! {

/// One tracked worker invocation.
#[derive(Debug)]
pub struct TranscriptionJob<H> {
    pub id: u128,
    pub file_path: String,
    pub model_size: ModelSize,
    pub child: H,
}

/// Mathematical value of a registry entry: what was registered, with
/// the handle carried along so ownership transfer can be stated.
#[verifier::ext_equal]
pub struct JobModel<H> {
    pub file_path: Seq<char>,
    pub model_size: ModelSize,
    pub child: H,
}

impl<H> View for TranscriptionJob<H> {
    type V = JobModel<H>;

    open spec fn view(&self) -> JobModel<H> {
        JobModel {
            file_path: self.file_path@,
            model_size: self.model_size,
            child: self.child,
        }
    }
}

/// The shared mapping from job id to owned job entry.
pub struct JobRegistry<H> {
    jobs: Vec<TranscriptionJob<H>>,
}

impl<H> JobRegistry<H> {
    /// The registered ids, in insertion order.
    pub closed spec fn ids(&self) -> Seq<u128> {
        self.jobs@.map_values(|j: TranscriptionJob<H>| j.id)
    }

    /// At most one entry per id.
    pub closed spec fn wf(&self) -> bool {
        forall|p: int, q: int|
            0 <= p < q < self.jobs@.len() ==> self.jobs@[p].id != self.jobs@[q].id
    }

    /// Whether `id` is currently registered.
    pub closed spec fn contains_id(&self, id: u128) -> bool {
        exists|p: int| 0 <= p < self.jobs@.len() && self.jobs@[p].id == id
    }

    /// The entry registered under `id`; meaningful only while
    /// `contains_id(id)` holds.
    pub closed spec fn job_model(&self, id: u128) -> JobModel<H> {
        self.jobs@[choose|p: int| 0 <= p < self.jobs@.len() && self.jobs@[p].id == id]@
    }

    /// How many jobs are registered.
    pub closed spec fn job_count(&self) -> nat {
        self.jobs@.len()
    }

    /// The set of registered ids.
    pub open spec fn active_ids(&self) -> Set<u128> {
        Set::new(|id: u128| self.contains_id(id))
    }

    /// An empty registry.
    pub fn new() -> (r: JobRegistry<H>)
        ensures
            r.wf(),
            r.job_count() == 0,
            forall|id: u128| !r.contains_id(id),
    {
        JobRegistry { jobs: Vec::new() }
    }

    /// Index of the entry holding `id`, if any.
    fn find_index(&self, id: u128) -> (r: Option<usize>)
        ensures
            (match r {
                Some(p) => p < self.jobs@.len() && self.jobs@[p as int].id == id
                    && self.contains_id(id),
                None => !self.contains_id(id),
            }),
    {
        let mut p: usize = 0;
        while p < self.jobs.len()
            invariant
                p <= self.jobs@.len(),
                forall|q: int| 0 <= q < p ==> self.jobs@[q].id != id,
            decreases self.jobs@.len() - p,
        {
            if self.jobs[p].id == id {
                return Some(p);
            }
            p += 1;
        }
        None
    }

    /// Whether `id` is registered.
    pub fn exists_id(&self, id: u128) -> (r: bool)
        ensures
            r == self.contains_id(id),
    {
        self.find_index(id).is_some()
    }

    /// The number of registered jobs.
    pub fn count(&self) -> (r: usize)
        ensures
            r == self.job_count(),
    {
        self.jobs.len()
    }

    /// A registered id means the registry is not empty.
    pub proof fn lemma_contains_implies_nonempty(&self, id: u128)
        requires
            self.contains_id(id),
        ensures
            self.job_count() > 0,
    {
        let p = choose|p: int| 0 <= p < self.jobs@.len() && self.jobs@[p].id == id;
        assert(self.jobs@.len() > 0);
    }

    /// The set of registered ids is exactly as large as the registry:
    /// ids are unique while registered.
    pub proof fn lemma_count_matches_active(&self)
        requires
            self.wf(),
        ensures
            self.active_ids().finite(),
            self.active_ids().len() == self.job_count(),
    {
        broadcast use vstd::seq_lib::seq_to_set_is_finite;

        let ids = self.ids();
        assert(ids.len() == self.jobs@.len());
        assert(forall|p: int| 0 <= p < ids.len() ==> ids[p] == self.jobs@[p].id);
        assert(ids.no_duplicates());
        ids.unique_seq_to_set();
        assert(self.active_ids() =~= ids.to_set()) by {
            assert forall|x: u128| self.active_ids().contains(x) implies ids.to_set().contains(
                x,
            ) by {
                let p = choose|p: int| 0 <= p < self.jobs@.len() && self.jobs@[p].id == x;
                assert(ids[p] == x);
                assert(ids.contains(x));
            }
            assert forall|x: u128| ids.to_set().contains(x) implies self.active_ids().contains(
                x,
            ) by {
                let p = choose|p: int| 0 <= p < ids.len() && ids[p] == x;
                assert(self.jobs@[p].id == x);
            }
        }
    }

    /// Register a job under its id.  The id must be fresh: at most one
    /// entry per id is the registry's invariant.
    pub fn insert(&mut self, job: TranscriptionJob<H>)
        requires
            old(self).wf(),
            !old(self).contains_id(job.id),
        ensures
            final(self).wf(),
            final(self).job_count() == old(self).job_count() + 1,
            final(self).contains_id(job.id),
            final(self).job_model(job.id) == job@,
            forall|x: u128|
                x != job.id ==> final(self).contains_id(x) == old(self).contains_id(x),
            forall|x: u128|
                x != job.id && old(self).contains_id(x) ==> final(self).job_model(x) == old(
                    self,
                ).job_model(x),
    {
        let ghost oldreg = *self;
        let ghost oldjobs = self.jobs@;
        let ghost newjob = job;
        self.jobs.push(job);
        proof {
            let n = oldjobs.len() as int;
            assert(self.jobs@[n] == newjob);
            assert forall|p: int, q: int|
                0 <= p < q < self.jobs@.len() implies self.jobs@[p].id != self.jobs@[q].id by {
                if q < n {
                    assert(oldreg.jobs@[p].id != oldreg.jobs@[q].id);
                } else {
                    if self.jobs@[p].id == newjob.id {
                        assert(oldreg.contains_id(newjob.id));
                    }
                }
            }
            assert(self.contains_id(newjob.id));
            let c = choose|p: int| 0 <= p < self.jobs@.len() && self.jobs@[p].id == newjob.id;
            if c < n {
                assert(oldreg.jobs@[c].id == newjob.id);
                assert(oldreg.contains_id(newjob.id));
            }
            assert(self.job_model(newjob.id) == newjob@);
            assert forall|x: u128|
                x != newjob.id implies self.contains_id(x) == oldreg.contains_id(x) by {
                if self.contains_id(x) {
                    let p = choose|p: int|
                        0 <= p < self.jobs@.len() && self.jobs@[p].id == x;
                    assert(p < n);
                    assert(oldreg.jobs@[p].id == x);
                }
                if oldreg.contains_id(x) {
                    let p = choose|p: int|
                        0 <= p < oldreg.jobs@.len() && oldreg.jobs@[p].id == x;
                    assert(self.jobs@[p].id == x);
                }
            }
            assert forall|x: u128|
                x != newjob.id && oldreg.contains_id(x) implies self.job_model(x)
                    == oldreg.job_model(x) by {
                let p = choose|p: int|
                    0 <= p < self.jobs@.len() && self.jobs@[p].id == x;
                let q = choose|q: int|
                    0 <= q < oldreg.jobs@.len() && oldreg.jobs@[q].id == x;
                assert(p < n);
                assert(self.jobs@[p] == oldreg.jobs@[p]);
                if p != q {
                    assert(oldreg.jobs@[p].id != oldreg.jobs@[q].id);
                }
            }
        }
    }

    /// Remove the entry under `id`, handing its job — and with it the
    /// process handle — to the caller.  Removing an absent id is a
    /// harmless no-op that returns nothing.
    pub fn remove(&mut self, id: u128) -> (r: Option<TranscriptionJob<H>>)
        requires
            old(self).wf(),
        ensures
            final(self).wf(),
            (match r {
                Some(job) => old(self).contains_id(id) && job.id == id && job@ == old(
                    self,
                ).job_model(id) && final(self).job_count() == old(self).job_count() - 1,
                None => !old(self).contains_id(id) && *final(self) == *old(self),
            }),
            !final(self).contains_id(id),
            forall|x: u128| x != id ==> final(self).contains_id(x) == old(self).contains_id(x),
            forall|x: u128|
                x != id && old(self).contains_id(x) ==> final(self).job_model(x) == old(
                    self,
                ).job_model(x),
    {
        match self.find_index(id) {
            Some(p) => {
                let ghost oldreg = *self;
                let ghost oldjobs = self.jobs@;
                let job = self.jobs.remove(p);
                proof {
                    assert(self.jobs@ =~= oldjobs.subrange(0, p as int) + oldjobs.subrange(
                        p + 1,
                        oldjobs.len() as int,
                    ));
                    lemma_remove_keeps(oldjobs, self.jobs@, p as int, id);
                    let c = choose|q: int| 0 <= q < oldjobs.len() && oldjobs[q].id == id;
                    if c != p as int {
                        assert(oldjobs[c].id != oldjobs[p as int].id);
                    }
                    assert(job@ == oldreg.job_model(id));
                    assert forall|x: u128|
                        x != id implies self.contains_id(x) == oldreg.contains_id(x) by {
                        if self.contains_id(x) {
                            let a = choose|a: int|
                                0 <= a < self.jobs@.len() && self.jobs@[a].id == x;
                            assert(seq_has_id(self.jobs@, x));
                            assert(seq_has_id(oldjobs, x));
                            let b = choose|b: int| 0 <= b < oldjobs.len() && oldjobs[b].id == x;
                            assert(oldreg.jobs@[b].id == x);
                        }
                        if oldreg.contains_id(x) {
                            let b = choose|b: int|
                                0 <= b < oldjobs.len() && oldjobs[b].id == x;
                            assert(seq_has_id(oldjobs, x));
                            assert(seq_has_id(self.jobs@, x));
                            let a = choose|a: int|
                                0 <= a < self.jobs@.len() && self.jobs@[a].id == x;
                            assert(self.contains_id(x));
                        }
                    }
                    assert forall|x: u128|
                        x != id && oldreg.contains_id(x) implies self.job_model(x)
                            == oldreg.job_model(x) by {
                        assert(self.contains_id(x));
                        let a = choose|a: int|
                            0 <= a < self.jobs@.len() && self.jobs@[a].id == x;
                        assert(entry_from(oldjobs, self.jobs@, a));
                        let b = choose|b: int|
                            0 <= b < oldjobs.len() && oldjobs[b] == self.jobs@[a]
                                && oldjobs[b].id == self.jobs@[a].id;
                        let b2 = choose|q: int| 0 <= q < oldjobs.len() && oldjobs[q].id == x;
                        if b != b2 {
                            assert(oldjobs[b].id != oldjobs[b2].id);
                        }
                    }
                }
                Some(job)
            },
            None => None,
        }
    }
}

/// Some entry of `s` carries the id `x`.
spec fn seq_has_id<H>(s: Seq<TranscriptionJob<H>>, x: u128) -> bool {
    exists|a: int| 0 <= a < s.len() && s[a].id == x
}

/// The entry at `a` of `news` also stands somewhere in `olds`.
spec fn entry_from<H>(olds: Seq<TranscriptionJob<H>>, news: Seq<TranscriptionJob<H>>, a: int) -> bool {
    exists|b: int| 0 <= b < olds.len() && olds[b] == news[a] && olds[b].id == news[a].id
}

/// What removing one index does to the id facts of the remainder.
proof fn lemma_remove_keeps<H>(
    olds: Seq<TranscriptionJob<H>>,
    news: Seq<TranscriptionJob<H>>,
    p: int,
    id: u128,
)
    requires
        0 <= p < olds.len(),
        olds[p].id == id,
        forall|a: int, b: int| 0 <= a < b < olds.len() ==> olds[a].id != olds[b].id,
        news == olds.subrange(0, p) + olds.subrange(p + 1, olds.len() as int),
    ensures
        forall|a: int, b: int| 0 <= a < b < news.len() ==> news[a].id != news[b].id,
        forall|a: int| 0 <= a < news.len() ==> news[a].id != id,
        forall|x: u128|
            x != id ==> (#[trigger] seq_has_id(news, x) <==> seq_has_id(olds, x)),
        forall|a: int| 0 <= a < news.len() ==> #[trigger] entry_from(olds, news, a),
{
    assert forall|a: int| 0 <= a < news.len() implies news[a].id != id by {
        if a < p {
            assert(news[a] == olds[a]);
        } else {
            assert(news[a] == olds[a + 1]);
        }
    }
    assert forall|a: int, b: int| 0 <= a < b < news.len() implies news[a].id != news[b].id by {
        let a2 = if a < p {
            a
        } else {
            a + 1
        };
        let b2 = if b < p {
            b
        } else {
            b + 1
        };
        assert(news[a] == olds[a2]);
        assert(news[b] == olds[b2]);
    }
    assert forall|x: u128| x != id implies (#[trigger] seq_has_id(news, x) <==> seq_has_id(
        olds,
        x,
    )) by {
        if seq_has_id(olds, x) {
            let a = choose|a: int| 0 <= a < olds.len() && olds[a].id == x;
            if a < p {
                assert(news[a] == olds[a]);
            } else {
                assert(news[a - 1] == olds[a]);
            }
            assert(seq_has_id(news, x));
        }
        if seq_has_id(news, x) {
            let a = choose|a: int| 0 <= a < news.len() && news[a].id == x;
            if a < p {
                assert(olds[a] == news[a]);
            } else {
                assert(olds[a + 1] == news[a]);
            }
            assert(seq_has_id(olds, x));
        }
    }
    assert forall|a: int| 0 <= a < news.len() implies #[trigger] entry_from(olds, news, a) by {
        if a < p {
            assert(olds[a] == news[a]);
        } else {
            assert(olds[a + 1] == news[a]);
        }
    }
}

} // verus!
