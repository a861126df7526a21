//! The jobs that a miner may submit shares for.

use crate::hexcode;
use crate::job::{Job, JobView};
use crate::text::same_text;
use vstd::prelude::*;

verus! {

/// A job as it was handed to a miner.
pub struct ActiveJob {
    pub job: Job,
    /// The header hash that the miner works on, in hexadecimal.
    pub header_hash_hex: String,
    /// The merkle root of that header.
    pub merkle_root: [u8; 32],
}

/// An active job as a mathematical value.
pub struct ActiveJobView {
    pub job: JobView,
    pub header_hash_hex: Seq<char>,
    pub merkle_root: Seq<u8>,
}

impl View for ActiveJob {
    type V = ActiveJobView;

    open spec fn view(&self) -> ActiveJobView {
        ActiveJobView {
            job: self.job@,
            header_hash_hex: self.header_hash_hex@,
            merkle_root: self.merkle_root@,
        }
    }
}

/// The active job that `job` makes for a miner who is paid at `address`.
pub open spec fn active_job_for(job: JobView, address: Seq<char>) -> ActiveJobView {
    ActiveJobView {
        job,
        header_hash_hex: hexcode::encoded(job.header_hash(address)),
        merkle_root: job.merkle_root(address),
    }
}

impl ActiveJob {
    /// The active job that `job` makes for a miner who is paid at `address`.
    pub fn new(job: Job, address: &str) -> (active: ActiveJob)
        requires
            job@.minable(),
        ensures
            active@ == active_job_for(job@, address@),
            active.job == job,
    {
        let (hash, merkle_root) = job.header_hash(address);
        let header_hash_hex: String = hexcode::encode(hash.as_slice());
        ActiveJob { job, header_hash_hex, merkle_root }
    }
}

/// Active jobs by the id of the job, in the order in which their ids first came.
pub struct ActiveJobs {
    list: Vec<ActiveJob>,
}

/// What a list of active jobs holds for each id; of two with one id, the later one.
pub open spec fn by_id(list: Seq<ActiveJobView>) -> Map<Seq<char>, ActiveJobView>
    decreases list.len(),
{
    if list.len() == 0 {
        Map::empty()
    } else {
        by_id(list.drop_last()).insert(list.last().job.id, list.last())
    }
}

spec fn ids_differ(list: Seq<ActiveJobView>) -> bool {
    forall|i: int, j: int|
        0 <= i < j < list.len() ==> (#[trigger] list[i]).job.id != (#[trigger] list[j]).job.id
}

proof fn lemma_by_id(list: Seq<ActiveJobView>)
    requires
        ids_differ(list),
    ensures
        by_id(list).dom().finite(),
        by_id(list).dom().len() == list.len(),
        forall|i: int|
            0 <= i < list.len() ==> by_id(list).dom().contains((#[trigger] list[i]).job.id)
                && by_id(list)[list[i].job.id] == list[i],
        forall|id: Seq<char>| #[trigger]
            by_id(list).dom().contains(id) ==> exists|i: int|
                0 <= i < list.len() && (#[trigger] list[i]).job.id == id,
    decreases list.len(),
{
    if list.len() > 0 {
        let front = list.drop_last();
        assert(ids_differ(front)) by {
            assert forall|i: int, j: int| 0 <= i < j < front.len() implies (
            #[trigger] front[i]).job.id != (#[trigger] front[j]).job.id by {
                assert(front[i] == list[i] && front[j] == list[j]);
            }
        }
        lemma_by_id(front);
        let last = list.last();
        assert(!by_id(front).dom().contains(last.job.id)) by {
            if by_id(front).dom().contains(last.job.id) {
                let i = choose|i: int|
                    0 <= i < front.len() && (#[trigger] front[i]).job.id == last.job.id;
                assert(list[i] == front[i]);
                assert(list[list.len() - 1] == last);
            }
        }
        assert forall|i: int| 0 <= i < list.len() implies by_id(list).dom().contains(
            (#[trigger] list[i]).job.id,
        ) && by_id(list)[list[i].job.id] == list[i] by {
            if i < front.len() {
                assert(front[i] == list[i]);
            }
        }
        assert forall|id: Seq<char>| #[trigger] by_id(list).dom().contains(id) implies exists|
            i: int,
        |
            0 <= i < list.len() && (#[trigger] list[i]).job.id == id by {
            if id != last.job.id {
                let i = choose|i: int| 0 <= i < front.len() && (#[trigger] front[i]).job.id == id;
                assert(list[i].job.id == id);
            } else {
                assert(list[list.len() - 1].job.id == id);
            }
        }
    }
}

proof fn lemma_by_id_update(list: Seq<ActiveJobView>, at: int, entry: ActiveJobView)
    requires
        ids_differ(list),
        0 <= at < list.len(),
        list[at].job.id == entry.job.id,
    ensures
        ids_differ(list.update(at, entry)),
        by_id(list.update(at, entry)) == by_id(list).insert(entry.job.id, entry),
{
    let new = list.update(at, entry);
    assert forall|i: int, j: int| 0 <= i < j < new.len() implies (#[trigger] new[i]).job.id != (
    #[trigger] new[j]).job.id by {
        assert(new[i].job.id == list[i].job.id && new[j].job.id == list[j].job.id);
    }
    lemma_by_id(list);
    lemma_by_id(new);
    let want = by_id(list).insert(entry.job.id, entry);
    assert forall|id: Seq<char>| by_id(new).dom().contains(id) <==> want.dom().contains(id) by {
        if by_id(new).dom().contains(id) {
            let i = choose|i: int| 0 <= i < new.len() && (#[trigger] new[i]).job.id == id;
            assert(list[i].job.id == id);
        }
        if want.dom().contains(id) {
            if id == entry.job.id {
                assert(new[at].job.id == id);
            } else {
                let i = choose|i: int| 0 <= i < list.len() && (#[trigger] list[i]).job.id == id;
                assert(new[i].job.id == id);
            }
        }
    }
    assert forall|id: Seq<char>| #[trigger] by_id(new).dom().contains(id) implies by_id(new)[id]
        == want[id] by {
        let i = choose|i: int| 0 <= i < new.len() && (#[trigger] new[i]).job.id == id;
        if i == at {
            assert(new[at] == entry);
        } else {
            assert(new[i] == list[i]);
            assert(id != entry.job.id) by {
                assert(new[at].job.id == entry.job.id);
            }
        }
    }
    assert(by_id(new) =~= want);
}

proof fn lemma_by_id_push(list: Seq<ActiveJobView>, entry: ActiveJobView)
    requires
        ids_differ(list),
        forall|i: int| 0 <= i < list.len() ==> (#[trigger] list[i]).job.id != entry.job.id,
    ensures
        ids_differ(list.push(entry)),
        by_id(list.push(entry)) == by_id(list).insert(entry.job.id, entry),
{
    let new = list.push(entry);
    assert(new.drop_last() =~= list);
    assert forall|i: int, j: int| 0 <= i < j < new.len() implies (#[trigger] new[i]).job.id != (
    #[trigger] new[j]).job.id by {
        assert(new[i] == list[i]);
        if j < list.len() {
            assert(new[j] == list[j]);
        }
    }
}

impl ActiveJobs {
    spec fn views(self) -> Seq<ActiveJobView> {
        self.list@.map_values(|entry: ActiveJob| entry@)
    }

    /// No id stands twice.
    pub closed spec fn wf(self) -> bool {
        ids_differ(self.views())
    }
}

impl View for ActiveJobs {
    type V = Map<Seq<char>, ActiveJobView>;

    closed spec fn view(&self) -> Map<Seq<char>, ActiveJobView> {
        by_id(self.views())
    }
}

impl ActiveJobs {
    /// No jobs.
    pub fn new() -> (jobs: ActiveJobs)
        ensures
            jobs.wf(),
            jobs@ == Map::<Seq<char>, ActiveJobView>::empty(),
    {
        ActiveJobs { list: Vec::new() }
    }

    /// How many jobs there are.
    pub fn len(&self) -> (n: usize)
        requires
            self.wf(),
        ensures
            n == self@.dom().len(),
            self@.dom().finite(),
    {
        proof {
            lemma_by_id(self.views());
        }
        self.list.len()
    }

    /// Forgets all jobs.
    pub fn clear(&mut self)
        ensures
            final(self).wf(),
            final(self)@ == Map::<Seq<char>, ActiveJobView>::empty(),
    {
        self.list.clear();
        assert(self.views().len() == 0);
    }

    /// Adds a job, in the place of one with the same id.
    pub fn insert(&mut self, entry: ActiveJob)
        requires
            old(self).wf(),
        ensures
            final(self).wf(),
            final(self)@ == old(self)@.insert(entry@.job.id, entry@),
    {
        let ghost views = self.views();
        let total: usize = self.list.len();
        let mut i: usize = 0;
        while i < total
            invariant
                i <= total,
                total == self.list@.len(),
                self == old(self),
                views == self.views(),
                ids_differ(views),
                forall|j: int| 0 <= j < i ==> (#[trigger] views[j]).job.id != entry@.job.id,
            decreases total - i,
        {
            assert(views[i as int] == self.list@[i as int]@);
            if same_text(self.list[i].job.id.as_str(), entry.job.id.as_str()) {
                proof {
                    lemma_by_id_update(views, i as int, entry@);
                }
                self.list.set(i, entry);
                assert(self.views() =~= views.update(i as int, entry@));
                return;
            }
            i = i + 1;
        }
        proof {
            lemma_by_id_push(views, entry@);
        }
        self.list.push(entry);
        assert(self.views() =~= views.push(entry@));
    }

    /// The job with the id.
    pub fn get(&self, id: &str) -> (entry: Option<&ActiveJob>)
        requires
            self.wf(),
        ensures
            entry is Some <==> self@.dom().contains(id@),
            entry matches Some(e) ==> e@ == self@[id@],
    {
        let ghost views = self.views();
        proof {
            lemma_by_id(views);
        }
        let total: usize = self.list.len();
        let mut i: usize = 0;
        while i < total
            invariant
                i <= total,
                total == self.list@.len(),
                views == self.views(),
                self@ == by_id(views),
                forall|j: int| 0 <= j < i ==> (#[trigger] views[j]).job.id != id@,
                forall|j: int|
                    0 <= j < views.len() ==> by_id(views).dom().contains(
                        (#[trigger] views[j]).job.id,
                    ) && by_id(views)[views[j].job.id] == views[j],
            decreases total - i,
        {
            assert(views[i as int] == self.list@[i as int]@);
            if same_text(self.list[i].job.id.as_str(), id) {
                return Some(&self.list[i]);
            }
            i = i + 1;
        }
        None
    }
}

/// Whatever is held for an id is what some active job stands for.
pub proof fn stored_jobs_are_real(jobs: ActiveJobs, id: Seq<char>)
    requires
        jobs.wf(),
        jobs@.dom().contains(id),
    ensures
        exists|entry: ActiveJob| #[trigger] entry@ == jobs@[id],
{
    let views = jobs.views();
    lemma_by_id(views);
    let i = choose|i: int| 0 <= i < views.len() && (#[trigger] views[i]).job.id == id;
    assert(jobs.list@[i]@ == views[i]);
}

} // verus!
