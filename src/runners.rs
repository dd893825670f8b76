//! Cloud runner cleanup: finding the machines that no registered runner
//! accounts for, and small records of a cleanup.
use vstd::prelude::*;
use crate::text::text_equals;

verus! {

/// A CI runner as the CI service lists it.
#[derive(Debug)]
pub struct GitHubRunner {
    pub id: u64,
    /// The runner's name: the id of the machine it runs on.
    pub name: String,
    pub status: String,
}

/// A cloud machine.
#[derive(Debug)]
pub struct Ec2Instance {
    pub id: String,
    pub name: String,
    pub state: String,
}

impl Clone for Ec2Instance {
    fn clone(&self) -> (r: Self)
        ensures
            r == *self,
    {
        Ec2Instance { id: self.id.clone(), name: self.name.clone(), state: self.state.clone() }
    }
}

/// The runners and the machines of one runner group.
#[derive(Debug)]
pub struct RunnerPair {
    pub github_runners: Vec<GitHubRunner>,
    pub ec2_instances: Vec<Ec2Instance>,
}

/// Some runner is named after the machine `id`.
pub open spec fn has_runner(runners: Seq<GitHubRunner>, id: Seq<char>) -> bool {
    exists|i: int| 0 <= i < runners.len() && #[trigger] runners[i].name@ == id
}

/// The machines, in order, that no runner is named after.
pub open spec fn orphans(runners: Seq<GitHubRunner>, instances: Seq<Ec2Instance>) -> Seq<
    Ec2Instance,
>
    decreases instances.len(),
{
    if instances.len() == 0 {
        instances
    } else if has_runner(runners, instances.last().id@) {
        orphans(runners, instances.drop_last())
    } else {
        orphans(runners, instances.drop_last()).push(instances.last())
    }
}

fn runner_named(runners: &[GitHubRunner], id: &str) -> (r: bool)
    ensures
        r == has_runner(runners@, id@),
{
    let mut i: usize = 0;
    while i < runners.len()
        invariant
            i <= runners@.len(),
            forall|j: int| 0 <= j < i ==> runners@[j].name@ != id@,
        decreases runners@.len() - i,
    {
        if text_equals(runners[i].name.as_str(), id) {
            assert(runners@[i as int].name@ == id@);
            return true;
        }
        i = i + 1;
    }
    false
}

/// The machines that no runner accounts for: candidates for termination.
pub fn find_orphaned_instances(github_runners: &[GitHubRunner], ec2_instances: &[Ec2Instance]) -> (r:
    Vec<Ec2Instance>)
    ensures
        r@ == orphans(github_runners@, ec2_instances@),
{
    let mut out: Vec<Ec2Instance> = Vec::new();
    let mut i: usize = 0;
    proof {
        assert(ec2_instances@.take(0) =~= Seq::<Ec2Instance>::empty());
    }
    while i < ec2_instances.len()
        invariant
            i <= ec2_instances@.len(),
            out@ == orphans(github_runners@, ec2_instances@.take(i as int)),
        decreases ec2_instances@.len() - i,
    {
        proof {
            assert(ec2_instances@.take(i + 1).drop_last() =~= ec2_instances@.take(i as int));
        }
        if !runner_named(github_runners, ec2_instances[i].id.as_str()) {
            out.push(ec2_instances[i].clone());
        }
        i = i + 1;
    }
    proof {
        assert(ec2_instances@.take(ec2_instances@.len() as int) =~= ec2_instances@);
    }
    out
}

impl RunnerPair {
    /// The machines of the pair that none of its runners accounts for.
    pub fn find_orphaned_instances(&self) -> (r: Vec<Ec2Instance>)
        ensures
            r@ == orphans(self.github_runners@, self.ec2_instances@),
    {
        find_orphaned_instances(self.github_runners.as_slice(), self.ec2_instances.as_slice())
    }
}

/// Decides which listed resources a cleanup processes.
pub trait ResourceFilter<T> {
    fn should_process(&self, item: &T) -> bool;
}

/// Processes the runner groups that have orphaned machines.
pub struct OrphanedInstanceFilter;

impl OrphanedInstanceFilter {
    /// Whether the pair has a machine that none of its runners accounts for.
    pub fn has_orphans(&self, pair: &RunnerPair) -> (r: bool)
        ensures
            r == (orphans(pair.github_runners@, pair.ec2_instances@).len() > 0),
    {
        pair.find_orphaned_instances().len() > 0
    }
}

impl ResourceFilter<RunnerPair> for OrphanedInstanceFilter {
    fn should_process(&self, pair: &RunnerPair) -> bool {
        self.has_orphans(pair)
    }
}

/// The counts of one cleanup.
#[derive(Debug, Clone, Copy, PartialEq, Eq, Structural)]
pub struct CleanupResult {
    pub items_found: usize,
    pub items_processed: usize,
    pub items_failed: usize,
}

impl CleanupResult {
    pub fn new(found: usize, processed: usize, failed: usize) -> (r: CleanupResult)
        ensures
            r.items_found == found,
            r.items_processed == processed,
            r.items_failed == failed,
    {
        CleanupResult { items_found: found, items_processed: processed, items_failed: failed }
    }
}

/// Whether the data starts with the gzip magic bytes.
pub fn is_gzip_compressed(data: &[u8]) -> (r: bool)
    ensures
        r == (data@.len() >= 2 && data@[0] == 0x1fu8 && data@[1] == 0x8bu8),
{
    data.len() >= 2 && data[0] == 0x1f && data[1] == 0x8b
}

} // verus!
