use vstd::prelude::*;

verus! {

/// One candidate file: its full source path, its base name, and in
/// dataset-directory mode the class it was found under.
#[derive(Debug)]
pub struct FileEntry {
    pub path: String,
    pub name: String,
    pub class: Option<String>,
}

impl FileEntry {
    /// An exact copy of the entry.
    pub fn duplicate(&self) -> (r: FileEntry)
        ensures
            r == *self,
    {
        let class = match &self.class {
            Some(c) => Some(c.clone()),
            None => None,
        };
        FileEntry { path: self.path.clone(), name: self.name.clone(), class }
    }
}

} // verus!
