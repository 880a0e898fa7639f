use vstd::prelude::*;

use crate::layout::{category_name, Category};
use crate::naming::{join, join_path};

verus! {

/// Whether `name` is one of the split directories `train`, `test`, `val`.
pub open spec fn is_split_dir_name(name: Seq<char>) -> bool {
    name == category_name(Category::Train) || name == category_name(Category::Test) || name
        == category_name(Category::Val)
}

/// The names among `names` that are not split directories, in order.
pub open spec fn leftover_names(names: Seq<Seq<char>>) -> Seq<Seq<char>>
    decreases names.len(),
{
    if names.len() == 0 {
        Seq::empty()
    } else {
        let rest = leftover_names(names.drop_last());
        if is_split_dir_name(names.last()) {
            rest
        } else {
            rest.push(names.last())
        }
    }
}

pub open spec fn string_views(s: Seq<String>) -> Seq<Seq<char>> {
    s.map_values(|x: String| x@)
}

pub fn is_split_dir(name: &str) -> (r: bool)
    ensures
        r == is_split_dir_name(name@),
{
    proof {
        reveal_strlit("train");
        reveal_strlit("test");
        reveal_strlit("val");
        assert("train"@ =~= category_name(Category::Train));
        assert("test"@ =~= category_name(Category::Test));
        assert("val"@ =~= category_name(Category::Val));
    }
    let n = String::from_str(name);
    n == String::from_str("train") || n == String::from_str("test") || n == String::from_str("val")
}

/// The children of the output root to remove after a dataset-directory
/// split: every one but `train`, `test` and `val`. Nothing is removed in
/// flat mode.
pub fn cleanup_targets(root: &str, dataset: bool, children: &Vec<String>) -> (r: Vec<String>)
    ensures
        !dataset ==> r@.len() == 0,
        dataset ==> r@.len() == leftover_names(string_views(children@)).len(),
        dataset ==> forall|k: int|
            0 <= k < r@.len() ==> (#[trigger] r@[k])@ == join(
                root@,
                leftover_names(string_views(children@))[k],
            ),
{
    let mut r: Vec<String> = Vec::new();
    if !dataset {
        return r;
    }
    let ghost names = string_views(children@);
    let mut i: usize = 0;
    while i < children.len()
        invariant
            0 <= i <= children@.len(),
            names == string_views(children@),
            r@.len() == leftover_names(names.take(i as int)).len(),
            forall|k: int|
                0 <= k < r@.len() ==> (#[trigger] r@[k])@ == join(
                    root@,
                    leftover_names(names.take(i as int))[k],
                ),
        decreases children@.len() - i,
    {
        proof {
            assert(names.take(i + 1).drop_last() =~= names.take(i as int));
            assert(names.take(i + 1).last() == children@[i as int]@);
        }
        if !is_split_dir(children[i].as_str()) {
            r.push(join_path(root, children[i].as_str()));
        }
        i += 1;
    }
    proof {
        assert(names.take(children@.len() as int) =~= names);
    }
    r
}

} // verus!
