use vstd::prelude::*;

use crate::entry::FileEntry;
use crate::layout::{
    category_at, category_name, output_dirs, paths, plan_transfers, seen_before, split_dir_names,
    transfer_for, Transfer,
};
use crate::naming::join;
use crate::split::{
    quotas_fit, resolved_test_size, resolved_val_size, shuffle_and_split, Partition, SplitError,
};

verus! {

/// Where the split is written, and whether files are moved there (no output
/// root was given, so the input root is reused) or copied.
#[derive(Debug)]
pub struct Resolution {
    pub root: String,
    pub in_place: bool,
}

pub fn resolve_root(input: String, output: Option<String>) -> (r: Resolution)
    ensures
        r.in_place == output is None,
        r.root == match output {
            Some(o) => o,
            None => input,
        },
{
    match output {
        Some(o) => Resolution { root: o, in_place: false },
        None => Resolution { root: input, in_place: true },
    }
}

/// Everything a run does to the file system, decided before any of it is
/// done: the split, the directories to create, and one transfer per file.
#[derive(Debug)]
pub struct RunPlan {
    pub partition: Partition,
    pub dirs: Vec<String>,
    pub transfers: Vec<Transfer>,
}

/// Checks the quotas, shuffles and splits `files`, and plans the transfers
/// under `root`.
pub fn plan_run(files: Vec<FileEntry>, test: Option<u32>, val: Option<u32>, root: &str) -> (r:
    Result<RunPlan, SplitError>)
    ensures
        r is Ok <==> quotas_fit(files@.len(), test, val),
        r matches Err(e) ==> e == (SplitError::QuotaExceedsFiles {
            requested: (resolved_test_size(files@.len(), test) + resolved_val_size(val)) as u64,
            available: files@.len() as usize,
        }),
        r matches Ok(plan) ==> {
            let p = plan.partition;
            &&& p.test@.len() == resolved_test_size(files@.len(), test)
            &&& p.val is Some <==> val is Some
            &&& p.val_seq().len() == resolved_val_size(val)
            &&& p.all().to_multiset() == files@.to_multiset()
            &&& plan.dirs@.len() == split_dir_names(val is Some).len()
            &&& forall|i: int|
                0 <= i < plan.dirs@.len() ==> #[trigger] plan.dirs@[i]@ == join(
                    root@,
                    split_dir_names(val is Some)[i],
                )
            &&& plan.transfers@.len() == files@.len()
            &&& forall|i: int|
                0 <= i < plan.transfers@.len() ==> transfer_for(
                    #[trigger] plan.transfers@[i],
                    join(root@, category_name(category_at(p, i))),
                    p.all()[i],
                    seen_before(p.all(), i),
                )
        },
{
    // A vector's length fits in `usize`, and so does the split's total.
    let _len = files.len();
    let partition = match shuffle_and_split(files, test, val) {
        Ok(p) => p,
        Err(e) => return Err(e),
    };
    let dirs = output_dirs(root, val.is_some());
    let transfers = plan_transfers(&partition, root);
    Ok(RunPlan { partition, dirs, transfers })
}

proof fn lemma_paths_multiset(a: Seq<FileEntry>, b: Seq<FileEntry>)
    requires
        a.to_multiset() == b.to_multiset(),
    ensures
        paths(a).to_multiset() == paths(b).to_multiset(),
    decreases a.len(),
{
    a.to_multiset_ensures();
    b.to_multiset_ensures();
    paths(a).to_multiset_ensures();
    paths(b).to_multiset_ensures();
    if a.len() == 0 {
        assert(paths(a) =~= paths(b));
    } else {
        let x = a.last();
        let a2 = a.drop_last();
        assert(a =~= a2.push(x));
        a2.to_multiset_ensures();
        assert(a.to_multiset() == a2.to_multiset().insert(x));
        assert(b.to_multiset().count(x) > 0);
        assert(b.contains(x));
        let k = choose|k: int| 0 <= k < b.len() && b[k] == x;
        let b2 = b.remove(k);
        assert(a2.to_multiset() =~= b2.to_multiset());
        lemma_paths_multiset(a2, b2);
        assert(paths(a) =~= paths(a2).push(x.path@));
        assert(paths(b2) =~= paths(b).remove(k));
        paths(a2).to_multiset_ensures();
        assert(paths(b)[k] == x.path@);
        assert(paths(b).to_multiset() =~= paths(b2).to_multiset().insert(x.path@));
    }
}

/// Placing files loses none and invents none: the sources of the planned
/// transfers are the input files' paths, each exactly as often as in the
/// input. With an output root they are copied there, else moved.
pub proof fn lemma_every_file_placed_once(
    files: Seq<FileEntry>,
    p: Partition,
    transfers: Seq<Transfer>,
)
    requires
        p.all().to_multiset() == files.to_multiset(),
        transfers.len() == p.all().len(),
        forall|i: int| 0 <= i < transfers.len() ==> (#[trigger] transfers[i]).source@ == p.all()[i].path@,
    ensures
        transfers.map_values(|t: Transfer| t.source@).to_multiset() == paths(files).to_multiset(),
{
    lemma_paths_multiset(p.all(), files);
    assert(transfers.map_values(|t: Transfer| t.source@) =~= paths(p.all()));
}

} // verus!
