use vstd::prelude::*;

use crate::entry::FileEntry;
use crate::naming::{join, join_path, numbered, numbered_name};
use crate::registry::{times_seen, SeenRegistry};
use crate::split::{resolved_val_size, Partition};

verus! {

/// One of the directories that a split fills.
#[derive(Debug, Clone, Copy, PartialEq, Eq, Structural)]
pub enum Category {
    Test,
    Val,
    Train,
}

pub open spec fn category_name(c: Category) -> Seq<char> {
    match c {
        Category::Test => seq!['t', 'e', 's', 't'],
        Category::Val => seq!['v', 'a', 'l'],
        Category::Train => seq!['t', 'r', 'a', 'i', 'n'],
    }
}

/// Names of the directories created under the output root: `train` and
/// `test`, and `val` only when a validation group was asked for.
pub open spec fn split_dir_names(has_val: bool) -> Seq<Seq<char>> {
    if has_val {
        seq![category_name(Category::Train), category_name(Category::Test), category_name(Category::Val)]
    } else {
        seq![category_name(Category::Train), category_name(Category::Test)]
    }
}

/// The directory a file lands in: the category directory itself, or its
/// subdirectory named after the file's class.
pub open spec fn target_dir(category_dir: Seq<char>, class: Option<String>) -> Seq<char> {
    match class {
        Some(c) => join(category_dir, c@),
        None => category_dir,
    }
}

/// The file's name at its destination, after `prev` earlier placements of
/// the same source.
pub open spec fn placed_name(name: Seq<char>, prev: nat) -> Seq<char> {
    if prev == 0 {
        name
    } else {
        numbered_name(name, prev)
    }
}

/// A planned move or copy: the source file, the directory to make sure of,
/// and the destination path.
#[derive(Debug)]
pub struct Transfer {
    pub source: String,
    pub dir: String,
    pub dest: String,
}

pub open spec fn transfer_for(t: Transfer, category_dir: Seq<char>, e: FileEntry, prev: nat) -> bool {
    &&& t.source@ == e.path@
    &&& t.dir@ == target_dir(category_dir, e.class)
    &&& t.dest@ == join(t.dir@, placed_name(e.name@, prev))
}

/// The source paths of `s`, in order.
pub open spec fn paths(s: Seq<FileEntry>) -> Seq<Seq<char>> {
    s.map_values(|e: FileEntry| e.path@)
}

/// How often the source of the `i`-th file occurs among the files before it.
pub open spec fn seen_before(s: Seq<FileEntry>, i: int) -> nat {
    times_seen(paths(s).take(i), s[i].path@)
}

pub open spec fn category_at(p: Partition, i: int) -> Category {
    if i < p.test@.len() {
        Category::Test
    } else if i < p.test@.len() + p.val_seq().len() {
        Category::Val
    } else {
        Category::Train
    }
}

/// A `val` directory is made exactly when a validation quota is given; a
/// quota of zero makes it and leaves it empty.
pub proof fn lemma_val_dir_on_request(n: nat, test: Option<u32>, val: Option<u32>)
    ensures
        split_dir_names(val is Some).contains(category_name(Category::Val)) <==> val is Some,
        val == Some(0u32) ==> resolved_val_size(val) == 0,
{
    let names = split_dir_names(val is Some);
    if val is Some {
        assert(names[2] == category_name(Category::Val));
    } else {
        assert forall|i: int| 0 <= i < names.len() implies names[i] != category_name(
            Category::Val,
        ) by {
            assert(names[i][0] == 't');
        }
    }
}

/// In dataset-directory mode a file lands in the subdirectory named after
/// its class, directly under its category directory.
pub proof fn lemma_class_is_parent(t: Transfer, category_dir: Seq<char>, e: FileEntry, prev: nat)
    requires
        transfer_for(t, category_dir, e, prev),
        e.class is Some,
    ensures
        t.dest@ == category_dir + seq!['/'] + e.class.unwrap()@ + seq!['/'] + placed_name(
            e.name@,
            prev,
        ),
{
}

/// The first placement of a source keeps its name.
pub proof fn lemma_first_placement(s: Seq<FileEntry>, i: int)
    requires
        0 <= i < s.len(),
        forall|j: int| 0 <= j < i ==> s[j].path@ != s[i].path@,
    ensures
        seen_before(s, i) == 0,
{
    let before = paths(s).take(i);
    before.to_multiset_ensures();
    assert(!before.contains(s[i].path@)) by {
        assert forall|j: int| 0 <= j < before.len() implies before[j] != s[i].path@ by {
            assert(before[j] == s[j].path@);
        }
    }
}

/// Each later placement of the same source counts one more than the one
/// before it, so its name carries the next number.
pub proof fn lemma_next_placement(s: Seq<FileEntry>, i: int, j: int)
    requires
        0 <= i < j < s.len(),
        s[i].path@ == s[j].path@,
        forall|k: int| i < k < j ==> s[k].path@ != s[j].path@,
    ensures
        seen_before(s, j) == seen_before(s, i) + 1,
{
    let key = s[j].path@;
    let ps = paths(s);
    let mid = ps.subrange(i + 1, j);
    assert(ps.take(j) =~= ps.take(i) + seq![key] + mid);
    vstd::seq_lib::lemma_multiset_commutative(ps.take(i) + seq![key], mid);
    vstd::seq_lib::lemma_multiset_commutative(ps.take(i), seq![key]);
    mid.to_multiset_ensures();
    seq![key].to_multiset_ensures();
    assert(seq![key] =~= Seq::<Seq<char>>::empty().push(key));
    Seq::<Seq<char>>::empty().to_multiset_ensures();
    assert(!mid.contains(key)) by {
        assert forall|k: int| 0 <= k < mid.len() implies mid[k] != key by {
            assert(mid[k] == s[i + 1 + k].path@);
        }
    }
}

/// `root/train`, `root/test` or `root/val`.
pub fn category_dir(root: &str, c: Category) -> (r: String)
    ensures
        r@ == join(root@, category_name(c)),
{
    match c {
        Category::Test => {
            proof {
                reveal_strlit("test");
            }
            join_path(root, "test")
        },
        Category::Val => {
            proof {
                reveal_strlit("val");
            }
            join_path(root, "val")
        },
        Category::Train => {
            proof {
                reveal_strlit("train");
            }
            join_path(root, "train")
        },
    }
}

/// The split directories to create under `root`.
pub fn output_dirs(root: &str, has_val: bool) -> (r: Vec<String>)
    ensures
        r@.len() == split_dir_names(has_val).len(),
        forall|i: int| 0 <= i < r@.len() ==> #[trigger] r@[i]@ == join(root@, split_dir_names(has_val)[i]),
{
    let mut r: Vec<String> = Vec::new();
    r.push(category_dir(root, Category::Train));
    r.push(category_dir(root, Category::Test));
    if has_val {
        r.push(category_dir(root, Category::Val));
    }
    r
}

/// Where `entry` goes under `category_dir`, given how often its source has
/// been placed before in this run.
pub fn destination(category_dir: &str, entry: &FileEntry, prev: u64) -> (r: Transfer)
    ensures
        transfer_for(r, category_dir@, *entry, prev as nat),
{
    let dir = match &entry.class {
        Some(c) => join_path(category_dir, c.as_str()),
        None => String::from_str(category_dir),
    };
    let dest = if prev == 0 {
        join_path(dir.as_str(), entry.name.as_str())
    } else {
        let name = numbered(entry.name.as_str(), prev);
        join_path(dir.as_str(), name.as_str())
    };
    Transfer { source: entry.path.clone(), dir, dest }
}

fn place_group(
    group: &Vec<FileEntry>,
    category_dir: &String,
    reg: &mut SeenRegistry,
    out: &mut Vec<Transfer>,
)
    requires
        old(reg).wf(),
        old(reg)@.len() + group@.len() <= usize::MAX,
    ensures
        final(reg).wf(),
        final(reg)@ == old(reg)@ + paths(group@),
        final(out)@.len() == old(out)@.len() + group@.len(),
        forall|j: int| 0 <= j < old(out)@.len() ==> final(out)@[j] == old(out)@[j],
        forall|j: int|
            0 <= j < group@.len() ==> transfer_for(
                #[trigger] final(out)@[old(out)@.len() + j],
                category_dir@,
                group@[j],
                times_seen(old(reg)@ + paths(group@).take(j), group@[j].path@),
            ),
{
    let ghost reg0 = reg@;
    let ghost out0 = out@;
    let mut i: usize = 0;
    while i < group.len()
        invariant
            reg.wf(),
            reg0.len() + group@.len() <= usize::MAX,
            0 <= i <= group@.len(),
            reg@ == reg0 + paths(group@).take(i as int),
            out@.len() == out0.len() + i,
            forall|j: int| 0 <= j < out0.len() ==> out@[j] == out0[j],
            forall|j: int|
                0 <= j < i ==> transfer_for(
                    #[trigger] out@[out0.len() + j],
                    category_dir@,
                    group@[j],
                    times_seen(reg0 + paths(group@).take(j), group@[j].path@),
                ),
        decreases group@.len() - i,
    {
        let ghost before = reg@;
        let prev = reg.register(&group[i].path);
        let t = destination(category_dir.as_str(), &group[i], prev);
        out.push(t);
        proof {
            assert(reg@ =~= reg0 + paths(group@).take(i + 1));
        }
        i += 1;
    }
    proof {
        assert(paths(group@).take(group@.len() as int) =~= paths(group@));
    }
}

/// Plans where every file of the split goes under `root`: groups in the
/// order test, validation, train, each file in its category directory (and
/// class subdirectory), a repeated source numbered by how often it was
/// placed before.
pub fn plan_transfers(p: &Partition, root: &str) -> (r: Vec<Transfer>)
    requires
        p.all().len() <= usize::MAX,
    ensures
        r@.len() == p.all().len(),
        forall|i: int|
            0 <= i < r@.len() ==> transfer_for(
                #[trigger] r@[i],
                join(root@, category_name(category_at(*p, i))),
                p.all()[i],
                seen_before(p.all(), i),
            ),
{
    let mut reg = SeenRegistry::new();
    let mut out: Vec<Transfer> = Vec::new();
    let ghost all = p.all();
    let ghost t = p.test@;
    let ghost v = p.val_seq();
    let ghost n = p.train@;
    proof {
        assert(paths(all) =~= paths(t) + paths(v) + paths(n));
    }
    let test_dir = category_dir(root, Category::Test);
    place_group(&p.test, &test_dir, &mut reg, &mut out);
    let ghost out1 = out@;
    match &p.val {
        Some(val) => {
            let val_dir = category_dir(root, Category::Val);
            place_group(val, &val_dir, &mut reg, &mut out);
        },
        None => {},
    }
    let ghost out2 = out@;
    let train_dir = category_dir(root, Category::Train);
    place_group(&p.train, &train_dir, &mut reg, &mut out);
    proof {
        assert forall|i: int| 0 <= i < out@.len() implies transfer_for(
            #[trigger] out@[i],
            join(root@, category_name(category_at(*p, i))),
            all[i],
            seen_before(all, i),
        ) by {
            if i < t.len() {
                assert(paths(all).take(i) =~= Seq::<Seq<char>>::empty() + paths(t).take(i));
                assert(out@[i] == out1[0 + i]);
            } else if i < t.len() + v.len() {
                let j = i - t.len();
                assert(paths(all).take(i) =~= paths(t) + paths(v).take(j));
                assert(out@[i] == out2[t.len() + j]);
            } else {
                let j = i - t.len() - v.len();
                assert(paths(all).take(i) =~= paths(t) + paths(v) + paths(n).take(j));
            }
        }
    }
    out
}

} // verus!
