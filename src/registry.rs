use vstd::prelude::*;

use crate::error::{NX_FATDRIVE_ERR_FILE_NOT_FOUND, NX_FATDRIVE_ERR_UNKNOWN};

verus! {

/// An open file: its id, its absolute path and its handle.
pub struct FileSlot<F> {
    pub id: u64,
    pub path: String,
    pub handle: F,
}

/// An open directory: its id, its absolute path, its handle and the position
/// of the next entry to list.
pub struct DirSlot<Dh> {
    pub id: u64,
    pub path: String,
    pub handle: Dh,
    pub cursor: u64,
}

/// What `read_next_dirent` hands out: an entry's name, type and size.
#[derive(Clone, Debug, PartialEq, Eq)]
pub struct DirEntryData {
    pub name: String,
    pub type_val: u64,
    pub size: u64,
}

/// Listing type of a directory.
pub const DT_DIR: u64 = 0x4;

/// Listing type of a regular file.
pub const DT_REG: u64 = 0x1;

/// Listing type reported past the last entry.
pub const DT_END: u64 = 0xF;

impl DirEntryData {
    /// The listing entry of a file (or, when `is_file` is false, a directory).
    pub fn from_listing(name: String, is_file: bool, size: u64) -> (r: DirEntryData)
        ensures
            r.name@ == name@,
            r.type_val == if is_file {
                DT_REG
            } else {
                DT_DIR
            },
            r.size == size,
    {
        DirEntryData {
            name,
            type_val: if is_file {
                DT_REG
            } else {
                DT_DIR
            },
            size,
        }
    }
}

/// Where element `k` of `s.remove(i)` stood in `s`.
proof fn lemma_remove_index<T>(s: Seq<T>, i: int, k: int) -> (k2: int)
    requires
        0 <= i < s.len(),
        0 <= k < s.len() - 1,
    ensures
        k2 == if k < i {
            k
        } else {
            k + 1
        },
        s.remove(i)[k] == s[k2],
{
    if k < i {
        k
    } else {
        k + 1
    }
}

/// The id that follows `id`, wrapping to 0 after `u64::MAX`.
pub open spec fn next_after(id: u64) -> u64 {
    if id == u64::MAX {
        0
    } else {
        (id + 1) as u64
    }
}

/// The table of open files and directories, each known by an id that no
/// other open entry shares, and each path open at most once per table.
pub struct IdStore<F, Dh> {
    next_id: u64,
    files: Vec<FileSlot<F>>,
    dirs: Vec<DirSlot<Dh>>,
}

impl<F, Dh> IdStore<F, Dh> {
    /// The open files as (id, path), in the order they were opened.
    pub closed spec fn file_view(&self) -> Seq<(u64, Seq<char>)> {
        self.files@.map_values(|s: FileSlot<F>| (s.id, s.path@))
    }

    /// The open directories as (id, path, cursor), in the order they were opened.
    pub closed spec fn dir_view(&self) -> Seq<(u64, Seq<char>, u64)> {
        self.dirs@.map_values(|s: DirSlot<Dh>| (s.id, s.path@, s.cursor))
    }

    /// The id the next insertion takes.
    pub closed spec fn spec_next_id(&self) -> u64 {
        self.next_id
    }

    pub open spec fn file_open(&self, id: u64) -> bool {
        exists|i: int| 0 <= i < self.file_view().len() && self.file_view()[i].0 == id
    }

    pub open spec fn dir_open(&self, id: u64) -> bool {
        exists|i: int| 0 <= i < self.dir_view().len() && self.dir_view()[i].0 == id
    }

    pub open spec fn file_path_open(&self, path: Seq<char>) -> bool {
        exists|i: int| 0 <= i < self.file_view().len() && self.file_view()[i].1 == path
    }

    pub open spec fn dir_path_open(&self, path: Seq<char>) -> bool {
        exists|i: int| 0 <= i < self.dir_view().len() && self.dir_view()[i].1 == path
    }

    pub open spec fn wf(&self) -> bool {
        let fv = self.file_view();
        let dv = self.dir_view();
        &&& forall|i: int, j: int|
            0 <= i < fv.len() && 0 <= j < fv.len() && i != j ==> fv[i].0 != fv[j].0 && fv[i].1
                != fv[j].1
        &&& forall|i: int, j: int|
            0 <= i < dv.len() && 0 <= j < dv.len() && i != j ==> dv[i].0 != dv[j].0 && dv[i].1
                != dv[j].1
        &&& forall|i: int, j: int| 0 <= i < fv.len() && 0 <= j < dv.len() ==> fv[i].0 != dv[j].0
    }

    /// An empty table whose first id is 0.
    pub fn new() -> (r: Self)
        ensures
            r.wf(),
            r.file_view() == Seq::<(u64, Seq<char>)>::empty(),
            r.dir_view() == Seq::<(u64, Seq<char>, u64)>::empty(),
            r.spec_next_id() == 0,
    {
        let r = IdStore { next_id: 0, files: Vec::new(), dirs: Vec::new() };
        proof {
            assert(r.file_view() =~= Seq::<(u64, Seq<char>)>::empty());
            assert(r.dir_view() =~= Seq::<(u64, Seq<char>, u64)>::empty());
        }
        r
    }

    fn file_index(&self, id: u64) -> (r: Option<usize>)
        ensures
            match r {
                Some(i) => i < self.file_view().len() && self.file_view()[i as int].0 == id,
                None => !self.file_open(id),
            },
    {
        let mut i: usize = 0;
        while i < self.files.len()
            invariant
                i <= self.files@.len(),
                forall|k: int| 0 <= k < i ==> self.file_view()[k].0 != id,
            decreases self.files.len() - i,
        {
            if self.files[i].id == id {
                return Some(i);
            }
            i = i + 1;
        }
        None
    }

    fn dir_index(&self, id: u64) -> (r: Option<usize>)
        ensures
            match r {
                Some(i) => i < self.dir_view().len() && self.dir_view()[i as int].0 == id,
                None => !self.dir_open(id),
            },
    {
        let mut i: usize = 0;
        while i < self.dirs.len()
            invariant
                i <= self.dirs@.len(),
                forall|k: int| 0 <= k < i ==> self.dir_view()[k].0 != id,
            decreases self.dirs.len() - i,
        {
            if self.dirs[i].id == id {
                return Some(i);
            }
            i = i + 1;
        }
        None
    }

    /// The id under which `path` is open as a file, if it is.
    pub fn has_file(&self, path: &String) -> (r: Option<u64>)
        ensures
            match r {
                Some(id) => exists|i: int|
                    0 <= i < self.file_view().len() && self.file_view()[i] == (id, path@),
                None => !self.file_path_open(path@),
            },
    {
        let mut i: usize = 0;
        while i < self.files.len()
            invariant
                i <= self.files@.len(),
                forall|k: int| 0 <= k < i ==> self.file_view()[k].1 != path@,
            decreases self.files.len() - i,
        {
            if self.files[i].path == *path {
                assert(self.file_view()[i as int] == (self.files@[i as int].id, path@));
                return Some(self.files[i].id);
            }
            i = i + 1;
        }
        None
    }

    /// The id under which `path` is open as a directory, if it is.
    pub fn has_dir(&self, path: &String) -> (r: Option<u64>)
        ensures
            match r {
                Some(id) => exists|i: int|
                    0 <= i < self.dir_view().len() && self.dir_view()[i].0 == id && self.dir_view()[i].1
                        == path@,
                None => !self.dir_path_open(path@),
            },
    {
        let mut i: usize = 0;
        while i < self.dirs.len()
            invariant
                i <= self.dirs@.len(),
                forall|k: int| 0 <= k < i ==> self.dir_view()[k].1 != path@,
            decreases self.dirs.len() - i,
        {
            if self.dirs[i].path == *path {
                assert(self.dir_view()[i as int].1 == path@);
                return Some(self.dirs[i].id);
            }
            i = i + 1;
        }
        None
    }

    /// Takes the next id for a new entry, unless an open entry holds it
    /// (possible only after the ids have wrapped around).
    fn issue_id(&mut self) -> (r: Option<u64>)
        ensures
            final(self).file_view() == old(self).file_view(),
            final(self).dir_view() == old(self).dir_view(),
            final(self).spec_next_id() == next_after(old(self).spec_next_id()),
            !old(self).file_open(old(self).spec_next_id()) && !old(self).dir_open(
                old(self).spec_next_id(),
            ) ==> r == Some(old(self).spec_next_id()),
            old(self).file_open(old(self).spec_next_id()) || old(self).dir_open(
                old(self).spec_next_id(),
            ) ==> r is None,
    {
        let id = self.next_id;
        self.next_id = if id == u64::MAX {
            0
        } else {
            id + 1
        };
        assert(self.file_view() == old(self).file_view());
        assert(self.dir_view() == old(self).dir_view());
        if self.file_index(id).is_some() || self.dir_index(id).is_some() {
            None
        } else {
            Some(id)
        }
    }

    /// Registers an open file under a fresh id. Refused when the path is
    /// already open as a file, or when the fresh id is still in use.
    pub fn insert_file(&mut self, path: String, fl: F) -> (r: Result<u64, u32>)
        requires
            old(self).wf(),
        ensures
            final(self).wf(),
            final(self).dir_view() == old(self).dir_view(),
            final(self).spec_next_id() == next_after(old(self).spec_next_id()),
            match r {
                Ok(id) => {
                    &&& id == old(self).spec_next_id()
                    &&& !old(self).file_path_open(path@)
                    &&& final(self).file_view() == old(self).file_view().push((id, path@))
                },
                Err(e) => {
                    &&& e == NX_FATDRIVE_ERR_UNKNOWN
                    &&& old(self).file_path_open(path@) || old(self).file_open(
                        old(self).spec_next_id(),
                    ) || old(self).dir_open(old(self).spec_next_id())
                    &&& final(self).file_view() == old(self).file_view()
                },
            },
    {
        let taken = self.has_file(&path).is_some();
        let issued = self.issue_id();
        match issued {
            Some(id) => {
                if taken {
                    return Err(NX_FATDRIVE_ERR_UNKNOWN);
                }
                self.files.push(FileSlot { id, path, handle: fl });
                proof {
                    assert(self.file_view() =~= old(self).file_view().push((id, path@)));
                }
                Ok(id)
            },
            None => Err(NX_FATDRIVE_ERR_UNKNOWN),
        }
    }

    /// Registers an open directory under a fresh id, listing from its first
    /// entry. Refused as `insert_file` is.
    pub fn insert_dir(&mut self, path: String, dir: Dh) -> (r: Result<u64, u32>)
        requires
            old(self).wf(),
        ensures
            final(self).wf(),
            final(self).file_view() == old(self).file_view(),
            final(self).spec_next_id() == next_after(old(self).spec_next_id()),
            match r {
                Ok(id) => {
                    &&& id == old(self).spec_next_id()
                    &&& !old(self).dir_path_open(path@)
                    &&& final(self).dir_view() == old(self).dir_view().push((id, path@, 0u64))
                },
                Err(e) => {
                    &&& e == NX_FATDRIVE_ERR_UNKNOWN
                    &&& old(self).dir_path_open(path@) || old(self).file_open(
                        old(self).spec_next_id(),
                    ) || old(self).dir_open(old(self).spec_next_id())
                    &&& final(self).dir_view() == old(self).dir_view()
                },
            },
    {
        let taken = self.has_dir(&path).is_some();
        let issued = self.issue_id();
        match issued {
            Some(id) => {
                if taken {
                    return Err(NX_FATDRIVE_ERR_UNKNOWN);
                }
                self.dirs.push(DirSlot { id, path, handle: dir, cursor: 0 });
                proof {
                    assert(self.dir_view() =~= old(self).dir_view().push((id, path@, 0u64)));
                }
                Ok(id)
            },
            None => Err(NX_FATDRIVE_ERR_UNKNOWN),
        }
    }

    /// Opens `path` as a file through `open`, unless it is open already, in
    /// which case its id is returned and `open` is not called. `open` is
    /// handed the path; its error is returned as it is.
    pub fn open_file<Op>(&mut self, path: &str, open: Op) -> (r: Result<u64, u32>) where
        Op: FnOnce(String) -> Result<F, u32>,

        requires
            old(self).wf(),
            forall|p: String| #[trigger] open.requires((p,)),
        ensures
            final(self).wf(),
            final(self).dir_view() == old(self).dir_view(),
            old(self).file_path_open(path@) ==> {
                &&& r matches Ok(id) && exists|i: int|
                    0 <= i < old(self).file_view().len() && old(self).file_view()[i] == (id, path@)
                &&& final(self).file_view() == old(self).file_view()
                &&& final(self).spec_next_id() == old(self).spec_next_id()
            },
            !old(self).file_path_open(path@) ==> exists|arg: String, res: Result<F, u32>|
                {
                    &&& #[trigger] open.ensures((arg,), res)
                    &&& arg@ == path@
                    &&& match res {
                        Ok(_) => match r {
                            Ok(id) => {
                                &&& id == old(self).spec_next_id()
                                &&& final(self).file_view() == old(self).file_view().push(
                                    (id, path@),
                                )
                                &&& final(self).spec_next_id() == next_after(
                                    old(self).spec_next_id(),
                                )
                            },
                            Err(e) => {
                                &&& e == NX_FATDRIVE_ERR_UNKNOWN
                                &&& final(self).file_view() == old(self).file_view()
                            },
                        },
                        Err(e) => {
                            &&& r == Err::<u64, u32>(e)
                            &&& final(self).file_view() == old(self).file_view()
                            &&& final(self).spec_next_id() == old(self).spec_next_id()
                        },
                    }
                },
    {
        let owned: String = path.to_owned();
        if let Some(existing) = self.has_file(&owned) {
            return Ok(existing);
        }
        let arg = owned.clone();
        let ghost garg = arg;
        let res = open(arg);
        let ghost gres = res;
        match res {
            Ok(handle) => {
                let r = self.insert_file(owned, handle);
                proof {
                    assert(open.ensures((garg,), gres));
                }
                r
            },
            Err(e) => Err(e),
        }
    }

    /// Opens `path` as a directory through `open`, unless it is open already.
    /// The paths `""` and `"/"` name the root directory, for which `open` is
    /// handed `None`; any other path is handed as it is.
    pub fn open_dir<Op>(&mut self, path: &str, open: Op) -> (r: Result<u64, u32>) where
        Op: FnOnce(Option<String>) -> Result<Dh, u32>,

        requires
            old(self).wf(),
            forall|p: Option<String>| #[trigger] open.requires((p,)),
        ensures
            final(self).wf(),
            final(self).file_view() == old(self).file_view(),
            old(self).dir_path_open(path@) ==> {
                &&& r matches Ok(id) && exists|i: int|
                    0 <= i < old(self).dir_view().len() && old(self).dir_view()[i].0 == id
                        && old(self).dir_view()[i].1 == path@
                &&& final(self).dir_view() == old(self).dir_view()
                &&& final(self).spec_next_id() == old(self).spec_next_id()
            },
            !old(self).dir_path_open(path@) ==> exists|arg: Option<String>, res: Result<Dh, u32>|
                {
                    &&& #[trigger] open.ensures((arg,), res)
                    &&& (arg is None <==> (path@ == Seq::<char>::empty() || path@ == seq!['/']))
                    &&& (arg matches Some(p) ==> p@ == path@)
                    &&& match res {
                        Ok(_) => match r {
                            Ok(id) => {
                                &&& id == old(self).spec_next_id()
                                &&& final(self).dir_view() == old(self).dir_view().push(
                                    (id, path@, 0u64),
                                )
                                &&& final(self).spec_next_id() == next_after(
                                    old(self).spec_next_id(),
                                )
                            },
                            Err(e) => {
                                &&& e == NX_FATDRIVE_ERR_UNKNOWN
                                &&& final(self).dir_view() == old(self).dir_view()
                            },
                        },
                        Err(e) => {
                            &&& r == Err::<u64, u32>(e)
                            &&& final(self).dir_view() == old(self).dir_view()
                            &&& final(self).spec_next_id() == old(self).spec_next_id()
                        },
                    }
                },
    {
        let owned: String = path.to_owned();
        if let Some(existing) = self.has_dir(&owned) {
            return Ok(existing);
        }
        let slash: String = "/".to_owned();
        let empty: String = String::new();
        proof {
            reveal_strlit("/");
            assert(slash@ =~= seq!['/']);
            assert(empty@ =~= Seq::<char>::empty());
        }
        let is_root = owned == empty || owned == slash;
        let arg = if is_root {
            None
        } else {
            Some(owned.clone())
        };
        let ghost garg = arg;
        let res = open(arg);
        let ghost gres = res;
        match res {
            Ok(handle) => {
                let r = self.insert_dir(owned, handle);
                proof {
                    assert(open.ensures((garg,), gres));
                    assert(gres is Ok);
                    assert(garg is None <==> (path@ == Seq::<char>::empty() || path@ == seq!['/']));
                    assert(garg matches Some(p) ==> p@ == path@);
                }
                r
            },
            Err(e) => Err(e),
        }
    }

    /// Removes the file `id` from the table and hands its handle back, for the
    /// caller to flush and close.
    pub fn close_file(&mut self, id: u64) -> (r: Result<F, u32>)
        requires
            old(self).wf(),
        ensures
            final(self).wf(),
            final(self).dir_view() == old(self).dir_view(),
            final(self).spec_next_id() == old(self).spec_next_id(),
            match r {
                Ok(_) => exists|i: int|
                    0 <= i < old(self).file_view().len() && old(self).file_view()[i].0 == id
                        && final(self).file_view() == old(self).file_view().remove(i),
                Err(e) => {
                    &&& e == NX_FATDRIVE_ERR_FILE_NOT_FOUND
                    &&& !old(self).file_open(id)
                    &&& final(self).file_view() == old(self).file_view()
                },
            },
    {
        match self.file_index(id) {
            Some(i) => {
                let slot = self.files.remove(i);
                proof {
                    let ov = old(self).file_view();
                    let nv = self.file_view();
                    let dv = self.dir_view();
                    assert(dv == old(self).dir_view());
                    assert(nv =~= ov.remove(i as int));
                    assert forall|a: int, b: int|
                        0 <= a < nv.len() && 0 <= b < nv.len() && a != b implies nv[a].0 != nv[b].0
                        && nv[a].1 != nv[b].1 by {
                        let a2 = lemma_remove_index(ov, i as int, a);
                        let b2 = lemma_remove_index(ov, i as int, b);
                        assert(nv[a] == ov[a2]);
                        assert(nv[b] == ov[b2]);
                    }
                    assert forall|a: int, b: int|
                        0 <= a < nv.len() && 0 <= b < dv.len() implies nv[a].0 != dv[b].0 by {
                        let a2 = lemma_remove_index(ov, i as int, a);
                        assert(nv[a] == ov[a2]);
                        assert(ov[a2].0 != old(self).dir_view()[b].0);
                    }
                }
                Ok(slot.handle)
            },
            None => Err(NX_FATDRIVE_ERR_FILE_NOT_FOUND),
        }
    }

    /// Removes the directory `id` from the table, with its listing position.
    pub fn close_dir(&mut self, id: u64) -> (r: Result<(), u32>)
        requires
            old(self).wf(),
        ensures
            final(self).wf(),
            final(self).file_view() == old(self).file_view(),
            final(self).spec_next_id() == old(self).spec_next_id(),
            match r {
                Ok(_) => exists|i: int|
                    0 <= i < old(self).dir_view().len() && old(self).dir_view()[i].0 == id
                        && final(self).dir_view() == old(self).dir_view().remove(i),
                Err(e) => {
                    &&& e == NX_FATDRIVE_ERR_FILE_NOT_FOUND
                    &&& !old(self).dir_open(id)
                    &&& final(self).dir_view() == old(self).dir_view()
                },
            },
    {
        match self.dir_index(id) {
            Some(i) => {
                let _slot = self.dirs.remove(i);
                proof {
                    let ov = old(self).dir_view();
                    let nv = self.dir_view();
                    let fv = self.file_view();
                    assert(fv == old(self).file_view());
                    assert(nv =~= ov.remove(i as int));
                    assert forall|a: int, b: int|
                        0 <= a < nv.len() && 0 <= b < nv.len() && a != b implies nv[a].0 != nv[b].0
                        && nv[a].1 != nv[b].1 by {
                        let a2 = lemma_remove_index(ov, i as int, a);
                        let b2 = lemma_remove_index(ov, i as int, b);
                        assert(nv[a] == ov[a2]);
                        assert(nv[b] == ov[b2]);
                    }
                    assert forall|a: int, b: int|
                        0 <= a < fv.len() && 0 <= b < nv.len() implies fv[a].0 != nv[b].0 by {
                        let b2 = lemma_remove_index(ov, i as int, b);
                        assert(nv[b] == ov[b2]);
                        assert(old(self).file_view()[a].0 != ov[b2].0);
                    }
                }
                Ok(())
            },
            None => Err(NX_FATDRIVE_ERR_FILE_NOT_FOUND),
        }
    }

    /// The handle of the open file `id`.
    pub fn get_file_handle(&mut self, id: u64) -> (r: Result<&mut F, u32>)
        ensures
            final(self).file_view() == old(self).file_view(),
            final(self).dir_view() == old(self).dir_view(),
            final(self).spec_next_id() == old(self).spec_next_id(),
            old(self).file_open(id) <==> r is Ok,
            r is Err ==> r == Err::<&mut F, u32>(NX_FATDRIVE_ERR_FILE_NOT_FOUND),
    {
        match self.file_index(id) {
            Some(i) => Ok(&mut self.files[i].handle),
            None => Err(NX_FATDRIVE_ERR_FILE_NOT_FOUND),
        }
    }

    /// The handle of the open directory `id`.
    pub fn get_dir_handle(&mut self, id: u64) -> (r: Result<&mut Dh, u32>)
        ensures
            final(self).file_view() == old(self).file_view(),
            final(self).dir_view() == old(self).dir_view(),
            final(self).spec_next_id() == old(self).spec_next_id(),
            old(self).dir_open(id) <==> r is Ok,
            r is Err ==> r == Err::<&mut Dh, u32>(NX_FATDRIVE_ERR_FILE_NOT_FOUND),
    {
        match self.dir_index(id) {
            Some(i) => Ok(&mut self.dirs[i].handle),
            None => Err(NX_FATDRIVE_ERR_FILE_NOT_FOUND),
        }
    }

    /// Moves the listing of directory `id` one entry on, returning the
    /// position of the entry to hand out now.
    pub fn advance_dir_cursor(&mut self, id: u64) -> (r: Result<u64, u32>)
        requires
            old(self).wf(),
        ensures
            final(self).wf(),
            final(self).file_view() == old(self).file_view(),
            final(self).spec_next_id() == old(self).spec_next_id(),
            forall|i: int|
                0 <= i < old(self).dir_view().len() && old(self).dir_view()[i].0 == id && old(
                    self,
                ).dir_view()[i].2 < u64::MAX ==> r == Ok::<u64, u32>(old(self).dir_view()[i].2),
            match r {
                Ok(pos) => exists|i: int|
                    0 <= i < old(self).dir_view().len() && old(self).dir_view()[i].0 == id
                        && old(self).dir_view()[i].2 == pos && pos < u64::MAX && final(self).dir_view()
                        == old(self).dir_view().update(
                        i,
                        (id, old(self).dir_view()[i].1, (pos + 1) as u64),
                    ),
                Err(e) => {
                    &&& !old(self).dir_open(id) ==> e == NX_FATDRIVE_ERR_FILE_NOT_FOUND
                    &&& old(self).dir_open(id) ==> e == NX_FATDRIVE_ERR_UNKNOWN
                    &&& final(self).dir_view() == old(self).dir_view()
                },
            },
    {
        match self.dir_index(id) {
            Some(i) => {
                let pos = self.dirs[i].cursor;
                if pos == u64::MAX {
                    proof {
                        assert forall|k: int|
                            0 <= k < self.dir_view().len() && self.dir_view()[k].0 == id implies k
                            == i by {}
                    }
                    return Err(NX_FATDRIVE_ERR_UNKNOWN);
                }
                self.dirs[i].cursor = pos + 1;
                proof {
                    assert(self.dir_view() =~= old(self).dir_view().update(
                        i as int,
                        (id, old(self).dir_view()[i as int].1, (pos + 1) as u64),
                    ));
                    assert forall|k: int| 0 <= k < self.dir_view().len() implies self.dir_view()[k].0
                        == old(self).dir_view()[k].0 && self.dir_view()[k].1 == old(
                        self,
                    ).dir_view()[k].1 by {}
                    assert(self.file_view() == old(self).file_view());
                }
                Ok(pos)
            },
            None => Err(NX_FATDRIVE_ERR_FILE_NOT_FOUND),
        }
    }

    /// The path under which `id` was opened, as a file or else as a directory.
    pub fn get_path_for_id(&self, id: u64) -> (r: Result<&String, u32>)
        ensures
            match r {
                Ok(p) => (exists|i: int|
                    0 <= i < self.file_view().len() && self.file_view()[i] == (id, p@)) || (
                !self.file_open(id) && exists|i: int|
                    0 <= i < self.dir_view().len() && self.dir_view()[i].0 == id
                        && self.dir_view()[i].1 == p@),
                Err(e) => e == NX_FATDRIVE_ERR_FILE_NOT_FOUND && !self.file_open(id)
                    && !self.dir_open(id),
            },
    {
        if let Some(i) = self.file_index(id) {
            return Ok(&self.files[i].path);
        }
        match self.dir_index(id) {
            Some(i) => Ok(&self.dirs[i].path),
            None => Err(NX_FATDRIVE_ERR_FILE_NOT_FOUND),
        }
    }

    /// Before `path` is deleted: closes the file open under that path, if
    /// any, handing its handle back for the caller to flush.
    pub fn release_file_path(&mut self, path: &str) -> (r: Option<F>)
        requires
            old(self).wf(),
        ensures
            final(self).wf(),
            final(self).dir_view() == old(self).dir_view(),
            !final(self).file_path_open(path@),
            !old(self).file_path_open(path@) ==> r is None && final(self).file_view() == old(
                self,
            ).file_view(),
            old(self).file_path_open(path@) ==> r is Some && exists|i: int|
                0 <= i < old(self).file_view().len() && old(self).file_view()[i].1 == path@
                    && final(self).file_view() == old(self).file_view().remove(i),
    {
        let owned: String = path.to_owned();
        match self.has_file(&owned) {
            Some(id) => {
                let ghost old_view = self.file_view();
                match self.close_file(id) {
                    Ok(handle) => {
                        proof {
                            let i = choose|i: int|
                                0 <= i < old_view.len() && old_view[i].0 == id
                                    && self.file_view() == old_view.remove(i);
                            let j = choose|j: int|
                                0 <= j < old_view.len() && old_view[j] == (id, path@);
                            assert(i == j);
                            assert forall|k: int|
                                0 <= k < self.file_view().len() implies self.file_view()[k].1
                                != path@ by {
                                let k2 = lemma_remove_index(old_view, i, k);
                                assert(self.file_view()[k] == old_view[k2]);
                            }
                        }
                        Some(handle)
                    },
                    Err(_) => None,
                }
            },
            None => None,
        }
    }

    /// Before `path` is deleted: closes the directory open under that path,
    /// if any. Returns whether one was open.
    pub fn release_dir_path(&mut self, path: &str) -> (r: bool)
        requires
            old(self).wf(),
        ensures
            final(self).wf(),
            final(self).file_view() == old(self).file_view(),
            !final(self).dir_path_open(path@),
            r == old(self).dir_path_open(path@),
            !r ==> final(self).dir_view() == old(self).dir_view(),
            r ==> exists|i: int|
                0 <= i < old(self).dir_view().len() && old(self).dir_view()[i].1 == path@
                    && final(self).dir_view() == old(self).dir_view().remove(i),
    {
        let owned: String = path.to_owned();
        match self.has_dir(&owned) {
            Some(id) => {
                let ghost old_view = self.dir_view();
                match self.close_dir(id) {
                    Ok(()) => {
                        proof {
                            let i = choose|i: int|
                                0 <= i < old_view.len() && old_view[i].0 == id
                                    && self.dir_view() == old_view.remove(i);
                            let j = choose|j: int|
                                0 <= j < old_view.len() && old_view[j].0 == id && old_view[j].1
                                    == path@;
                            assert(i == j);
                            assert forall|k: int|
                                0 <= k < self.dir_view().len() implies self.dir_view()[k].1
                                != path@ by {
                                let k2 = lemma_remove_index(old_view, i, k);
                                assert(self.dir_view()[k] == old_view[k2]);
                            }
                        }
                        true
                    },
                    Err(_) => false,
                }
            },
            None => false,
        }
    }
}

} // verus!
