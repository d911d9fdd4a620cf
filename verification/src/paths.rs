use vstd::prelude::*;

verus! {

/// The filesystem layout the tracker persists into: one tasks file and
/// one config file under the base directory, and one tasks file per
/// reportee in a subdirectory. The paths are plain strings; creating the
/// directories and touching the files is the caller's business.
pub struct DataPaths {
    pub base_dir: String,
}

impl DataPaths {
    /// A layout rooted at the given base directory.
    pub fn from_base(base_dir: String) -> (r: DataPaths)
        ensures
            r.base_dir == base_dir,
    {
        DataPaths { base_dir }
    }

    pub fn base_dir(&self) -> (r: &str)
        ensures
            r@ == self.base_dir@,
    {
        self.base_dir.as_str()
    }

    /// The primary owner's tasks file.
    pub fn tasks_file(&self) -> (r: String)
        ensures
            r@ == self.base_dir@ + "/tasks.json"@,
    {
        let mut s = self.base_dir.clone();
        s.append("/tasks.json");
        s
    }

    /// The settings file.
    pub fn config_file(&self) -> (r: String)
        ensures
            r@ == self.base_dir@ + "/config.json"@,
    {
        let mut s = self.base_dir.clone();
        s.append("/config.json");
        s
    }

    /// The directory holding one tasks file per reportee.
    pub fn reportees_dir(&self) -> (r: String)
        ensures
            r@ == self.base_dir@ + "/reportees"@,
    {
        let mut s = self.base_dir.clone();
        s.append("/reportees");
        s
    }

    /// The tasks file of the named reportee.
    pub fn reportee_tasks_file(&self, name: &str) -> (r: String)
        ensures
            r@ == self.base_dir@ + "/reportees/"@ + name@ + ".json"@,
    {
        let mut s = self.base_dir.clone();
        s.append("/reportees/");
        s.append(name);
        s.append(".json");
        proof {
            assert(s@ =~= self.base_dir@ + "/reportees/"@ + name@ + ".json"@);
        }
        s
    }
}

} // verus!
