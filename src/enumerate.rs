use vstd::prelude::*;

use crate::entry::FileEntry;
use crate::naming::{join, join_path};

verus! {

/// A direct child of a directory, as listed: its name and whether it is a
/// regular file.
#[derive(Debug)]
pub struct DirChild {
    pub name: String,
    pub is_file: bool,
}

/// A shape of the input tree that the split does not expect.
#[derive(Debug, Clone, Copy, PartialEq, Eq, Structural)]
pub enum ViolationKind {
    /// A directory directly under the root in flat mode.
    DirectoryInRoot,
    /// A file directly under the root in dataset-directory mode.
    FileInRoot,
    /// A directory inside a class directory.
    DirectoryInClass,
}

/// A skipped child and why it was skipped.
#[derive(Debug)]
pub struct Violation {
    pub kind: ViolationKind,
    pub path: String,
}

/// The files found in one directory and the children that were skipped.
#[derive(Debug)]
pub struct Listing {
    pub entries: Vec<FileEntry>,
    pub violations: Vec<Violation>,
}

/// The classes under a dataset root and the children that were skipped.
#[derive(Debug)]
pub struct ClassListing {
    pub classes: Vec<String>,
    pub violations: Vec<Violation>,
}

/// Names of the children that are files (`files`) or are not, in order.
pub open spec fn names_where(kids: Seq<DirChild>, files: bool) -> Seq<Seq<char>>
    decreases kids.len(),
{
    if kids.len() == 0 {
        Seq::empty()
    } else {
        let rest = names_where(kids.drop_last(), files);
        if kids.last().is_file == files {
            rest.push(kids.last().name@)
        } else {
            rest
        }
    }
}

proof fn lemma_names_where_step(kids: Seq<DirChild>, i: int, files: bool)
    requires
        0 <= i < kids.len(),
    ensures
        names_where(kids.take(i + 1), files) == if kids[i].is_file == files {
            names_where(kids.take(i), files).push(kids[i].name@)
        } else {
            names_where(kids.take(i), files)
        },
{
    assert(kids.take(i + 1).drop_last() =~= kids.take(i));
}

/// Lists the files of `dir`, each labelled with `class`; in flat mode
/// (`class` is `None`) a subdirectory is a `DirectoryInRoot` violation, in a
/// class directory a `DirectoryInClass` one.
pub fn collect_files(dir: &str, class: &Option<String>, children: &Vec<DirChild>) -> (r: Listing)
    ensures
        r.entries@.len() == names_where(children@, true).len(),
        forall|k: int|
            0 <= k < r.entries@.len() ==> {
                &&& (#[trigger] r.entries@[k]).name@ == names_where(children@, true)[k]
                &&& r.entries@[k].path@ == join(dir@, names_where(children@, true)[k])
                &&& r.entries@[k].class == *class
            },
        r.violations@.len() == names_where(children@, false).len(),
        forall|k: int|
            0 <= k < r.violations@.len() ==> {
                &&& (#[trigger] r.violations@[k]).path@ == join(
                    dir@,
                    names_where(children@, false)[k],
                )
                &&& r.violations@[k].kind == if class is Some {
                    ViolationKind::DirectoryInClass
                } else {
                    ViolationKind::DirectoryInRoot
                }
            },
{
    let mut entries: Vec<FileEntry> = Vec::new();
    let mut violations: Vec<Violation> = Vec::new();
    let mut i: usize = 0;
    while i < children.len()
        invariant
            0 <= i <= children@.len(),
            entries@.len() == names_where(children@.take(i as int), true).len(),
            forall|k: int|
                0 <= k < entries@.len() ==> {
                    &&& (#[trigger] entries@[k]).name@ == names_where(children@.take(i as int), true)[k]
                    &&& entries@[k].path@ == join(dir@, names_where(children@.take(i as int), true)[k])
                    &&& entries@[k].class == *class
                },
            violations@.len() == names_where(children@.take(i as int), false).len(),
            forall|k: int|
                0 <= k < violations@.len() ==> {
                    &&& (#[trigger] violations@[k]).path@ == join(
                        dir@,
                        names_where(children@.take(i as int), false)[k],
                    )
                    &&& violations@[k].kind == if class is Some {
                        ViolationKind::DirectoryInClass
                    } else {
                        ViolationKind::DirectoryInRoot
                    }
                },
        decreases children@.len() - i,
    {
        proof {
            lemma_names_where_step(children@, i as int, true);
            lemma_names_where_step(children@, i as int, false);
        }
        let child = &children[i];
        let path = join_path(dir, child.name.as_str());
        if child.is_file {
            let c = match class {
                Some(c) => Some(c.clone()),
                None => None,
            };
            entries.push(FileEntry { path, name: child.name.clone(), class: c });
        } else {
            let kind = if class.is_some() {
                ViolationKind::DirectoryInClass
            } else {
                ViolationKind::DirectoryInRoot
            };
            violations.push(Violation { kind, path });
        }
        i += 1;
    }
    proof {
        assert(children@.take(children@.len() as int) =~= children@);
    }
    Listing { entries, violations }
}

/// Lists the class directories under a dataset root; a file there is a
/// `FileInRoot` violation.
pub fn collect_classes(root: &str, children: &Vec<DirChild>) -> (r: ClassListing)
    ensures
        r.classes@.len() == names_where(children@, false).len(),
        forall|k: int|
            0 <= k < r.classes@.len() ==> (#[trigger] r.classes@[k])@ == names_where(children@, false)[k],
        r.violations@.len() == names_where(children@, true).len(),
        forall|k: int|
            0 <= k < r.violations@.len() ==> {
                &&& (#[trigger] r.violations@[k]).path@ == join(root@, names_where(children@, true)[k])
                &&& r.violations@[k].kind == ViolationKind::FileInRoot
            },
{
    let mut classes: Vec<String> = Vec::new();
    let mut violations: Vec<Violation> = Vec::new();
    let mut i: usize = 0;
    while i < children.len()
        invariant
            0 <= i <= children@.len(),
            classes@.len() == names_where(children@.take(i as int), false).len(),
            forall|k: int|
                0 <= k < classes@.len() ==> (#[trigger] classes@[k])@ == names_where(
                    children@.take(i as int),
                    false,
                )[k],
            violations@.len() == names_where(children@.take(i as int), true).len(),
            forall|k: int|
                0 <= k < violations@.len() ==> {
                    &&& (#[trigger] violations@[k]).path@ == join(
                        root@,
                        names_where(children@.take(i as int), true)[k],
                    )
                    &&& violations@[k].kind == ViolationKind::FileInRoot
                },
        decreases children@.len() - i,
    {
        proof {
            lemma_names_where_step(children@, i as int, true);
            lemma_names_where_step(children@, i as int, false);
        }
        let child = &children[i];
        if child.is_file {
            let path = join_path(root, child.name.as_str());
            violations.push(Violation { kind: ViolationKind::FileInRoot, path });
        } else {
            classes.push(child.name.clone());
        }
        i += 1;
    }
    proof {
        assert(children@.take(children@.len() as int) =~= children@);
    }
    ClassListing { classes, violations }
}

} // verus!
