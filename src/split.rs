use rand::seq::SliceRandom;
use vstd::prelude::*;

use crate::entry::FileEntry;

verus! {

/// The test group's size when no quota is given: a fifth of the files,
/// rounded down.
pub open spec fn default_test_size(n: nat) -> nat {
    n / 5
}

pub open spec fn resolved_test_size(n: nat, test: Option<u32>) -> nat {
    match test {
        Some(t) => t as nat,
        None => default_test_size(n),
    }
}

pub open spec fn resolved_val_size(val: Option<u32>) -> nat {
    match val {
        Some(v) => v as nat,
        None => 0,
    }
}

/// Whether the two quotas together leave room within `n` files.
pub open spec fn quotas_fit(n: nat, test: Option<u32>, val: Option<u32>) -> bool {
    resolved_test_size(n, test) + resolved_val_size(val) <= n
}

/// A quota combination that the files cannot satisfy.
#[derive(Debug, PartialEq, Eq, Structural)]
pub enum SplitError {
    QuotaExceedsFiles { requested: u64, available: usize },
}

/// Sizes of the three contiguous ranges of the shuffled files, in the order
/// test, validation, train.
#[derive(Debug, Clone, Copy, PartialEq, Eq, Structural)]
pub struct SplitPlan {
    pub test_size: usize,
    pub val_size: usize,
    pub train_size: usize,
    pub has_val: bool,
}

impl SplitPlan {
    /// The validation range is empty unless a validation group was asked for.
    pub open spec fn wf(self) -> bool {
        !self.has_val ==> self.val_size == 0
    }

    pub open spec fn total(self) -> nat {
        (self.test_size + self.val_size + self.train_size) as nat
    }
}

/// The three groups of a split.
#[derive(Debug)]
pub struct Partition {
    pub test: Vec<FileEntry>,
    pub val: Option<Vec<FileEntry>>,
    pub train: Vec<FileEntry>,
}

impl Partition {
    pub open spec fn val_seq(self) -> Seq<FileEntry> {
        match self.val {
            Some(v) => v@,
            None => Seq::empty(),
        }
    }

    /// All files of the split, in the order test, validation, train.
    pub open spec fn all(self) -> Seq<FileEntry> {
        self.test@ + self.val_seq() + self.train@
    }
}

pub fn default_test_size_of(n: usize) -> (r: usize)
    ensures
        r == default_test_size(n as nat),
{
    n / 5
}

/// Resolves both quotas against `total` files, and refuses a combination
/// that asks for more files than there are.
pub fn plan_split(total: usize, test: Option<u32>, val: Option<u32>) -> (r: Result<
    SplitPlan,
    SplitError,
>)
    ensures
        r is Ok <==> quotas_fit(total as nat, test, val),
        r matches Ok(p) ==> {
            &&& p.wf()
            &&& p.test_size == resolved_test_size(total as nat, test)
            &&& p.val_size == resolved_val_size(val)
            &&& p.total() == total
            &&& p.has_val == val is Some
        },
        r matches Err(e) ==> e == (SplitError::QuotaExceedsFiles {
            requested: (resolved_test_size(total as nat, test) + resolved_val_size(val)) as u64,
            available: total,
        }),
{
    let t: u64 = match test {
        Some(t) => t as u64,
        None => default_test_size_of(total) as u64,
    };
    let v: u64 = match val {
        Some(v) => v as u64,
        None => 0,
    };
    let requested: u64 = t + v;
    if requested > total as u64 {
        Err(SplitError::QuotaExceedsFiles { requested, available: total })
    } else {
        Ok(SplitPlan {
            test_size: t as usize,
            val_size: v as usize,
            train_size: total - (requested as usize),
            has_val: val.is_some(),
        })
    }
}

/// Cuts the files into the plan's three contiguous ranges.
pub fn split_by_plan(files: Vec<FileEntry>, plan: &SplitPlan) -> (r: Partition)
    requires
        plan.wf(),
        plan.total() == files@.len(),
    ensures
        r.test@ == files@.subrange(0, plan.test_size as int),
        r.val is Some <==> plan.has_val,
        r.val_seq() == files@.subrange(
            plan.test_size as int,
            plan.test_size + plan.val_size,
        ),
        r.train@ == files@.subrange(plan.test_size + plan.val_size, files@.len() as int),
{
    let mut test = files;
    let mut rest = test.split_off(plan.test_size);
    let train = rest.split_off(plan.val_size);
    let val = if plan.has_val {
        Some(rest)
    } else {
        None
    };
    Partition { test, val, train }
}

/// Relies on rand's `SliceRandom::shuffle` with the thread-local generator:
/// it only swaps elements, so the result holds the same entries.
#[verifier::external_body]
fn shuffle_entries(files: &mut Vec<FileEntry>)
    ensures
        final(files)@.len() == old(files)@.len(),
        final(files)@.to_multiset() == old(files)@.to_multiset(),
{
    files.shuffle(&mut rand::thread_rng());
}

/// Checks the quotas against the number of files, then shuffles the files
/// and splits them.
pub fn shuffle_and_split(files: Vec<FileEntry>, test: Option<u32>, val: Option<u32>) -> (r:
    Result<Partition, SplitError>)
    ensures
        r is Ok <==> quotas_fit(files@.len(), test, val),
        r matches Ok(p) ==> {
            &&& p.test@.len() == resolved_test_size(files@.len(), test)
            &&& p.val is Some <==> val is Some
            &&& p.val_seq().len() == resolved_val_size(val)
            &&& p.all().len() == files@.len()
            &&& p.all().to_multiset() == files@.to_multiset()
        },
        r matches Err(e) ==> e == (SplitError::QuotaExceedsFiles {
            requested: (resolved_test_size(files@.len(), test) + resolved_val_size(val)) as u64,
            available: files@.len() as usize,
        }),
{
    let plan = match plan_split(files.len(), test, val) {
        Ok(p) => p,
        Err(e) => return Err(e),
    };
    let mut files = files;
    let ghost before = files@;
    shuffle_entries(&mut files);
    let ghost shuffled = files@;
    let p = split_by_plan(files, &plan);
    proof {
        lemma_split_covers(shuffled, p, plan);
    }
    Ok(p)
}

/// A split partitions its input: the three groups hold as many files as the
/// input, and together exactly the input's files, each as often as there.
pub proof fn lemma_split_is_partition(files: Seq<FileEntry>, p: Partition)
    requires
        p.all().to_multiset() == files.to_multiset(),
    ensures
        p.test@.len() + p.val_seq().len() + p.train@.len() == files.len(),
        p.test@.to_multiset().add(p.val_seq().to_multiset()).add(p.train@.to_multiset())
            == files.to_multiset(),
{
    vstd::seq_lib::lemma_multiset_commutative(p.test@ + p.val_seq(), p.train@);
    vstd::seq_lib::lemma_multiset_commutative(p.test@, p.val_seq());
    p.all().to_multiset_ensures();
    files.to_multiset_ensures();
}

/// Without a test quota the test group takes a fifth of the files, rounded
/// down: the largest `k` with `5 * k <= n`.
pub proof fn lemma_default_test_size(n: nat)
    ensures
        resolved_test_size(n, None) * 5 <= n,
        n < (resolved_test_size(n, None) + 1) * 5,
{
}

/// The three ranges of a split put back in order give the files that were
/// split.
pub proof fn lemma_split_covers(files: Seq<FileEntry>, p: Partition, plan: SplitPlan)
    requires
        p.test@ == files.subrange(0, plan.test_size as int),
        p.val_seq() == files.subrange(plan.test_size as int, plan.test_size + plan.val_size),
        p.train@ == files.subrange(plan.test_size + plan.val_size, files.len() as int),
        plan.total() == files.len(),
    ensures
        p.all() == files,
{
    assert(p.all() =~= files);
}

} // verus!
