//! A value-level snapshot of the part of the filesystem that resolution
//! consults: which paths are files (with their source text), which are
//! directories, and which package roots declare a manifest entry point.
//! The resolver and the graph builder are verified against this model; the
//! surrounding program fills it from the real disk before a run.
use vstd::prelude::*;

use crate::parse::fits_parser_input;
use crate::paths::CanonicalPath;

verus! {

/// One existing file: its path and its full source text.
pub struct FileEntry {
    pub path: CanonicalPath,
    pub text: String,
}

/// A package root together with the entry point its manifest declares.
pub struct PackageMain {
    pub root: CanonicalPath,
    pub entry: String,
}

/// The filesystem snapshot a resolution run works against.
pub struct FileSystem {
    pub files: Vec<FileEntry>,
    pub dirs: Vec<CanonicalPath>,
    pub mains: Vec<PackageMain>,
}

impl FileSystem {
    /// Each file path occurs at most once, each package root declares at
    /// most one entry point, and every file's text fits the parser's input
    /// limit.
    pub open spec fn wf(self) -> bool {
        &&& forall|i: int, j: int|
            0 <= i < j < self.files@.len() ==> self.files@[i].path@ != self.files@[j].path@
        &&& forall|i: int, j: int|
            0 <= i < j < self.mains@.len() ==> self.mains@[i].root@ != self.mains@[j].root@
        &&& forall|i: int|
            0 <= i < self.files@.len() ==> fits_parser_input((#[trigger] self.files@[i]).text@)
    }

    /// `p` names an existing file.
    pub open spec fn is_file(self, p: Seq<Seq<char>>) -> bool {
        exists|i: int| 0 <= i < self.files@.len() && self.files@[i].path@ == p
    }

    /// The text of the file at `p`; meaningful only when `is_file(p)` holds
    /// of a well-formed snapshot.
    pub open spec fn file_text(self, p: Seq<Seq<char>>) -> Seq<char> {
        let i = choose|i: int| 0 <= i < self.files@.len() && self.files@[i].path@ == p;
        self.files@[i].text@
    }

    /// `p` names an existing directory.
    pub open spec fn is_dir(self, p: Seq<Seq<char>>) -> bool {
        exists|i: int| 0 <= i < self.dirs@.len() && self.dirs@[i]@ == p
    }

    /// The manifest-declared entry point of the package rooted at `root`,
    /// if one is recorded.
    pub open spec fn main_entry(self, root: Seq<Seq<char>>) -> Option<Seq<char>> {
        if exists|i: int| 0 <= i < self.mains@.len() && self.mains@[i].root@ == root {
            let i = choose|i: int| 0 <= i < self.mains@.len() && self.mains@[i].root@ == root;
            Some(self.mains@[i].entry@)
        } else {
            None
        }
    }

    /// An empty snapshot: no files, directories, or manifest entries.
    pub fn new() -> (r: FileSystem)
        ensures
            r.wf(),
            forall|p: Seq<Seq<char>>| !r.is_file(p),
            forall|p: Seq<Seq<char>>| !r.is_dir(p),
            forall|p: Seq<Seq<char>>| r.main_entry(p) is None,
    {
        FileSystem { files: Vec::new(), dirs: Vec::new(), mains: Vec::new() }
    }

    /// Records a file with its text; a path already present keeps its first
    /// recording. The text must fit the parser's input limit.
    pub fn add_file(&mut self, path: CanonicalPath, text: String)
        requires
            old(self).wf(),
            fits_parser_input(text@),
        ensures
            final(self).wf(),
            forall|q: Seq<Seq<char>>|
                final(self).is_file(q) == (old(self).is_file(q) || q == path@),
            forall|q: Seq<Seq<char>>|
                old(self).is_file(q) ==> final(self).file_text(q) == old(self).file_text(q),
            !old(self).is_file(path@) ==> final(self).file_text(path@) == text@,
            final(self).dirs@ == old(self).dirs@,
            final(self).mains@ == old(self).mains@,
    {
        let present = self.is_file_q(&path);
        if !present {
            let ghost pv = path@;
            let ghost tv = text@;
            let ghost n = self.files@.len() as int;
            self.files.push(FileEntry { path, text });
            proof {
                assert(self.files@[n].path@ == pv);
                assert(self.wf());
                assert forall|q: Seq<Seq<char>>|
                    self.is_file(q) == (old(self).is_file(q) || q == pv) by {
                    if self.is_file(q) {
                        let i = choose|i: int|
                            0 <= i < self.files@.len() && self.files@[i].path@ == q;
                        if i < n {
                            assert(old(self).files@[i].path@ == q);
                        }
                    }
                    if old(self).is_file(q) {
                        let i = choose|i: int|
                            0 <= i < old(self).files@.len() && old(self).files@[i].path@ == q;
                        assert(self.files@[i].path@ == q);
                    }
                }
                assert forall|q: Seq<Seq<char>>|
                    old(self).is_file(q) implies self.file_text(q) == old(self).file_text(q) by {
                    let i = choose|i: int|
                        0 <= i < old(self).files@.len() && old(self).files@[i].path@ == q;
                    assert(self.files@[i].path@ == q);
                    let k = choose|k: int|
                        0 <= k < self.files@.len() && self.files@[k].path@ == q;
                    assert(k == i);
                    let j = choose|j: int|
                        0 <= j < old(self).files@.len() && old(self).files@[j].path@ == q;
                    assert(j == i);
                }
                assert(self.file_text(pv) == tv) by {
                    let k = choose|k: int|
                        0 <= k < self.files@.len() && self.files@[k].path@ == pv;
                    assert(k == n);
                }
            }
        }
    }

    /// Records a directory.
    pub fn add_dir(&mut self, path: CanonicalPath)
        requires
            old(self).wf(),
        ensures
            final(self).wf(),
            forall|q: Seq<Seq<char>>|
                final(self).is_dir(q) == (old(self).is_dir(q) || q == path@),
            final(self).files@ == old(self).files@,
            final(self).mains@ == old(self).mains@,
    {
        let ghost pv = path@;
        let ghost n = self.dirs@.len() as int;
        self.dirs.push(path);
        proof {
            assert(self.dirs@[n]@ == pv);
            assert forall|q: Seq<Seq<char>>|
                self.is_dir(q) == (old(self).is_dir(q) || q == pv) by {
                if self.is_dir(q) {
                    let i = choose|i: int| 0 <= i < self.dirs@.len() && self.dirs@[i]@ == q;
                    if i < n {
                        assert(old(self).dirs@[i]@ == q);
                    }
                }
                if old(self).is_dir(q) {
                    let i = choose|i: int|
                        0 <= i < old(self).dirs@.len() && old(self).dirs@[i]@ == q;
                    assert(self.dirs@[i]@ == q);
                }
            }
        }
    }

    /// Records a package manifest's declared entry point; a root already
    /// present keeps its first recording.
    pub fn add_package_main(&mut self, root: CanonicalPath, entry: String)
        requires
            old(self).wf(),
        ensures
            final(self).wf(),
            !(exists|i: int|
                0 <= i < old(self).mains@.len() && old(self).mains@[i].root@ == root@)
                ==> final(self).main_entry(root@) == Some::<Seq<char>>(entry@),
            forall|q: Seq<Seq<char>>|
                q != root@ ==> final(self).main_entry(q) == old(self).main_entry(q),
            final(self).files@ == old(self).files@,
            final(self).dirs@ == old(self).dirs@,
    {
        let mut present = false;
        let mut i: usize = 0;
        while i < self.mains.len()
            invariant
                i <= self.mains@.len(),
                present == exists|j: int| 0 <= j < i && self.mains@[j].root@ == root@,
            decreases self.mains@.len() - i,
        {
            if self.mains[i].root.path_eq(&root) {
                present = true;
            }
            i = i + 1;
        }
        if !present {
            let ghost rv = root@;
            let ghost ev = entry@;
            let ghost n = self.mains@.len() as int;
            self.mains.push(PackageMain { root, entry });
            proof {
                assert(self.mains@[n].root@ == rv);
                assert(self.wf());
                assert(self.main_entry(rv) == Some(ev)) by {
                    let k = choose|k: int|
                        0 <= k < self.mains@.len() && self.mains@[k].root@ == rv;
                    assert(k == n);
                }
                assert forall|q: Seq<Seq<char>>|
                    q != rv implies self.main_entry(q) == old(self).main_entry(q) by {
                    if exists|i: int|
                        0 <= i < old(self).mains@.len() && old(self).mains@[i].root@ == q {
                        let i = choose|i: int|
                            0 <= i < old(self).mains@.len() && old(self).mains@[i].root@ == q;
                        assert(self.mains@[i].root@ == q);
                        let k = choose|k: int|
                            0 <= k < self.mains@.len() && self.mains@[k].root@ == q;
                        assert(k == i);
                        let j = choose|j: int|
                            0 <= j < old(self).mains@.len() && old(self).mains@[j].root@ == q;
                        assert(j == i);
                    } else {
                        if exists|i: int|
                            0 <= i < self.mains@.len() && self.mains@[i].root@ == q {
                            let i = choose|i: int|
                                0 <= i < self.mains@.len() && self.mains@[i].root@ == q;
                            assert(i == n);
                        }
                    }
                }
            }
        }
    }

    /// Decides whether `p` names a file in the snapshot.
    pub fn is_file_q(&self, p: &CanonicalPath) -> (r: bool)
        ensures
            r == self.is_file(p@),
    {
        let mut i: usize = 0;
        while i < self.files.len()
            invariant
                i <= self.files@.len(),
                forall|j: int| 0 <= j < i ==> self.files@[j].path@ != p@,
            decreases self.files@.len() - i,
        {
            if self.files[i].path.path_eq(p) {
                return true;
            }
            i = i + 1;
        }
        false
    }

    /// Decides whether `p` names a directory in the snapshot.
    pub fn is_dir_q(&self, p: &CanonicalPath) -> (r: bool)
        ensures
            r == self.is_dir(p@),
    {
        let mut i: usize = 0;
        while i < self.dirs.len()
            invariant
                i <= self.dirs@.len(),
                forall|j: int| 0 <= j < i ==> self.dirs@[j]@ != p@,
            decreases self.dirs@.len() - i,
        {
            if self.dirs[i].path_eq(p) {
                return true;
            }
            i = i + 1;
        }
        false
    }

    /// Returns the text of the file at `p`, or `None` when no file exists
    /// there.
    pub fn read_file(&self, p: &CanonicalPath) -> (r: Option<String>)
        requires
            self.wf(),
        ensures
            match r {
                Some(t) => self.is_file(p@) && t@ == self.file_text(p@) && fits_parser_input(t@),
                None => !self.is_file(p@),
            },
    {
        let mut i: usize = 0;
        while i < self.files.len()
            invariant
                self.wf(),
                i <= self.files@.len(),
                forall|j: int| 0 <= j < i ==> self.files@[j].path@ != p@,
            decreases self.files@.len() - i,
        {
            if self.files[i].path.path_eq(p) {
                proof {
                    let k = choose|k: int|
                        0 <= k < self.files@.len() && self.files@[k].path@ == p@;
                    assert(k == i as int);
                }
                return Some(self.files[i].text.clone());
            }
            i = i + 1;
        }
        None
    }

    /// Looks up the manifest-declared entry point of the package rooted at
    /// `root`.
    pub fn package_main(&self, root: &CanonicalPath) -> (r: Option<String>)
        requires
            self.wf(),
        ensures
            match r {
                Some(e) => self.main_entry(root@) == Some(e@),
                None => self.main_entry(root@) is None,
            },
    {
        let mut i: usize = 0;
        while i < self.mains.len()
            invariant
                self.wf(),
                i <= self.mains@.len(),
                forall|j: int| 0 <= j < i ==> self.mains@[j].root@ != root@,
            decreases self.mains@.len() - i,
        {
            if self.mains[i].root.path_eq(root) {
                proof {
                    let k = choose|k: int|
                        0 <= k < self.mains@.len() && self.mains@[k].root@ == root@;
                    assert(k == i as int);
                }
                return Some(self.mains[i].entry.clone());
            }
            i = i + 1;
        }
        None
    }
}

} // verus!
