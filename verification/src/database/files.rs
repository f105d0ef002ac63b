//! Files that the database knows of.

use crate::database::access_modes::AccessModeID;
use crate::database::description::{clone_optional_description, optional_description, Description};
use crate::database::devices::DeviceID;
use crate::database::folders::{ProxFolder, ProxFolderView};
use crate::database::ids::{
    clone_ids, shift_id, shift_id_if, shift_ids_if, shifted, shifted_ids_if, shifted_if, ItemKind,
};
use crate::database::tags::TagID;
use crate::database::timestamp::Timestamp;
use crate::text::same_text;
use std::collections::HashSet;
use vstd::prelude::*;

verus! {

broadcast use vstd::std_specs::hash::group_hash_axioms;

pub type FileID = usize;

/// The path of a file or folder, from the root of its file system.
pub type AbsolutePath = String;

/// A file.
#[derive(PartialEq, Eq, Debug)]
pub struct ProxFile {
    pub id: FileID,
    pub absolute_path: AbsolutePath,
    pub tags: HashSet<TagID>,
    pub desc: Option<Description>,
    pub name: String,
    pub extension: Option<String>,
    pub from_device: DeviceID,
    pub added_at: Timestamp,
    pub last_modified: Timestamp,
    pub access_modes: HashSet<AccessModeID>,
}

/// The mathematical value of a [`ProxFile`].
pub struct ProxFileView {
    pub id: usize,
    pub absolute_path: Seq<char>,
    pub tags: Set<usize>,
    pub desc: Option<Seq<char>>,
    pub name: Seq<char>,
    pub extension: Option<Seq<char>>,
    pub from_device: usize,
    pub added_at: Timestamp,
    pub last_modified: Timestamp,
    pub access_modes: Set<usize>,
}

impl View for ProxFile {
    type V = ProxFileView;

    open spec fn view(&self) -> ProxFileView {
        ProxFileView {
            id: self.id,
            absolute_path: self.absolute_path@,
            tags: self.tags@,
            desc: optional_description(self.desc),
            name: self.name@,
            extension: match self.extension {
                Some(e) => Some(e@),
                None => None,
            },
            from_device: self.from_device,
            added_at: self.added_at,
            last_modified: self.last_modified,
            access_modes: self.access_modes@,
        }
    }
}

impl Clone for ProxFile {
    fn clone(&self) -> (r: Self)
        ensures
            r@ == self@,
    {
        ProxFile {
            id: self.id,
            absolute_path: self.absolute_path.clone(),
            tags: clone_ids(&self.tags),
            desc: clone_optional_description(&self.desc),
            name: self.name.clone(),
            extension: match &self.extension {
                Some(e) => Some(e.clone()),
                None => None,
            },
            from_device: self.from_device,
            added_at: self.added_at,
            last_modified: self.last_modified,
            access_modes: clone_ids(&self.access_modes),
        }
    }
}

impl ProxFile {
    /// The id of the file.
    pub fn get_id(&self) -> (r: FileID)
        ensures
            r == self@.id,
    {
        self.id
    }

    /// Gives the file a description and tags, in the place of those it had.
    pub fn add_desc_tags(&mut self, desc: Description, tags: HashSet<TagID>)
        ensures
            final(self)@ == (ProxFileView { desc: Some(desc@), tags: tags@, ..old(self)@ }),
    {
        self.desc = Some(desc);
        self.tags = tags;
    }

    /// Brings the references of the file up to date after an insertion of
    /// an item of `kind` at `at`.
    pub fn shift_references(&mut self, kind: ItemKind, at: usize)
        ensures
            final(self)@ == file_shifted(old(self)@, kind, at),
    {
        shift_ids_if(kind == ItemKind::Tag, &mut self.tags, at);
        shift_ids_if(kind == ItemKind::AccessMode, &mut self.access_modes, at);
        shift_id_if(kind == ItemKind::Device, &mut self.from_device, at);
    }

    /// The path of the file.
    pub fn get_path(&self) -> (r: AbsolutePath)
        ensures
            r@ == self@.absolute_path,
    {
        self.absolute_path.clone()
    }

    /// The description of the file, if it has one.
    pub fn get_desc(&self) -> (r: Option<Description>)
        ensures
            optional_description(r) == self@.desc,
    {
        clone_optional_description(&self.desc)
    }

    /// The name of the file.
    pub fn get_name_string_lossy(&self) -> (r: String)
        ensures
            r@ == self@.name,
    {
        self.name.clone()
    }

    /// The extension of the file, if it has one.
    pub fn get_extension_lossy(&self) -> (r: Option<String>)
        ensures
            match r {
                Some(e) => self@.extension == Some(e@),
                None => self@.extension is None,
            },
    {
        match &self.extension {
            Some(e) => Some(e.clone()),
            None => None,
        }
    }
}

/// A file after an insertion of an item of `kind` at `at`: its tags, its
/// access modes and its device are brought up to date where an item of
/// their kind was inserted.
pub open spec fn file_shifted(file: ProxFileView, kind: ItemKind, at: usize) -> ProxFileView {
    ProxFileView {
        tags: shifted_ids_if(kind == ItemKind::Tag, file.tags, at),
        access_modes: shifted_ids_if(kind == ItemKind::AccessMode, file.access_modes, at),
        from_device: shifted_if(kind == ItemKind::Device, file.from_device, at),
        ..file
    }
}

/// A file that is yet to be added.
#[derive(PartialEq, Eq, Debug)]
pub struct NewFile {
    pub absolute_path: AbsolutePath,
    pub from_device: DeviceID,
}

impl NewFile {
    /// The file at `absolute_path`, seen from `from_device`.
    pub fn new(absolute_path: AbsolutePath, from_device: DeviceID) -> (r: NewFile)
        ensures
            r.absolute_path@ == absolute_path@,
            r.from_device == from_device,
    {
        NewFile { absolute_path, from_device }
    }
}

/// The values of a sequence of files.
pub open spec fn file_views(files: Seq<ProxFile>) -> Seq<ProxFileView> {
    files.map_values(|f: ProxFile| f@)
}

/// Whether every file of `files` has its position as its id.
pub open spec fn files_dense(files: Seq<ProxFileView>) -> bool {
    forall|i: int| 0 <= i < files.len() ==> (#[trigger] files[i]).id == i
}

/// `files` with `file` inserted at the position that is its id, and the id
/// of each file behind it raised by one.
pub open spec fn files_inserted(files: Seq<ProxFileView>, file: ProxFileView) -> Seq<ProxFileView> {
    Seq::new(
        files.len() + 1,
        |i: int|
            if i < file.id {
                files[i]
            } else if i == file.id {
                file
            } else {
                (ProxFileView { id: shifted(files[i - 1].id, 0), ..files[i - 1] })
            },
    )
}

/// The index of the first file at `path`, or the number of files where
/// there is none.
pub open spec fn first_at_path(files: Seq<ProxFileView>, path: Seq<char>) -> int
    decreases files.len(),
{
    if files.len() == 0 || files[0].absolute_path == path {
        0
    } else {
        1 + first_at_path(files.drop_first(), path)
    }
}

proof fn lemma_first_at_path(files: Seq<ProxFileView>, path: Seq<char>, k: int)
    requires
        0 <= k <= files.len(),
        forall|i: int| 0 <= i < k ==> files[i].absolute_path != path,
        k < files.len() ==> files[k].absolute_path == path,
    ensures
        first_at_path(files, path) == k,
    decreases k,
{
    if k > 0 {
        lemma_first_at_path(files.drop_first(), path, k - 1);
    }
}

/// All files, each at the position that is its id.
#[derive(PartialEq, Eq, Debug)]
pub struct Files {
    all_files: Vec<ProxFile>,
    number_of_files: usize,
}

impl View for Files {
    type V = Seq<ProxFileView>;

    closed spec fn view(&self) -> Seq<ProxFileView> {
        file_views(self.all_files@)
    }
}

impl Clone for Files {
    fn clone(&self) -> (r: Self)
        ensures
            r@ == self@,
            r.taken() == self.taken(),
    {
        let all_files = self.all_files.clone();
        proof {
            assert(file_views(all_files@) =~= file_views(self.all_files@));
        }
        Files { all_files, number_of_files: self.number_of_files }
    }
}

impl Files {
    /// Whether every file has its position as its id.
    pub open spec fn wf(&self) -> bool {
        files_dense(self@)
    }

    /// No files, and a count of ids given out that stands at 0.
    pub fn new() -> (r: Files)
        ensures
            r@ == Seq::<ProxFileView>::empty(),
            r.taken() == 0,
            r.wf(),
    {
        let all_files: Vec<ProxFile> = Vec::new();
        proof {
            assert(file_views(all_files@) =~= Seq::<ProxFileView>::empty());
        }
        Files { all_files, number_of_files: 0 }
    }

    /// Whether every file has its position as its id.
    pub fn is_dense(&self) -> (r: bool)
        ensures
            r == files_dense(self@),
    {
        let mut i: usize = 0;
        while i < self.all_files.len()
            invariant
                i <= self.all_files.len(),
                forall|j: int| 0 <= j < i ==> (#[trigger] self@[j]).id == j,
            decreases self.all_files.len() - i,
        {
            if self.all_files[i].id != i {
                proof {
                    assert(self@[i as int].id != i);
                }
                return false;
            }
            i += 1;
        }
        true
    }

    /// The number of files.
    pub fn len(&self) -> (r: usize)
        ensures
            r == self@.len(),
    {
        self.all_files.len()
    }

    /// The number of ids that were given out by [`Files::take_next_file`].
    pub closed spec fn taken(&self) -> usize {
        self.number_of_files
    }

    /// Gives out the next id of the count that this keeps beside the files,
    /// and counts on; `None` where the count has reached its end.
    pub fn take_next_file(&mut self) -> (r: Option<FileID>)
        ensures
            final(self)@ == old(self)@,
            match r {
                Some(id) => id == old(self).taken() && final(self).taken() == id + 1,
                None => old(self).taken() == usize::MAX && final(self).taken() == usize::MAX,
            },
    {
        if self.number_of_files == usize::MAX {
            return None;
        }
        let id = self.number_of_files;
        self.number_of_files += 1;
        Some(id)
    }

    /// The file with the id `id`, to be changed in place.
    pub fn get_file_mut(&mut self, id: FileID) -> (r: &mut ProxFile)
        requires
            id < old(self)@.len(),
        ensures
            final(self).taken() == old(self).taken(),
            r@ == old(self)@[id as int],
            final(self)@ == old(self)@.update(id as int, final(r)@),
    {
        let ghost before = self.all_files@;
        let r = &mut self.all_files[id];
        proof {
            assert(file_views(before.update(id as int, *final(r))) =~= file_views(before).update(
                id as int,
                final(r)@,
            ));
        }
        r
    }

    /// The file with the id `id`.
    pub fn get_file_by_id(&self, id: FileID) -> (r: &ProxFile)
        requires
            id < self@.len(),
        ensures
            r@ == self@[id as int],
    {
        &self.all_files[id]
    }

    /// Whether a file at `path` is known.
    pub fn file_exists(&self, path: AbsolutePath) -> (r: bool)
        ensures
            r == (first_at_path(self@, path@) < self@.len()),
    {
        self.get_file_by_path(path).is_some()
    }

    /// The last file, if there is any.
    pub fn get_last_file(&self) -> (r: Option<&ProxFile>)
        ensures
            match r {
                Some(file) => self@.len() > 0 && file@ == self@.last(),
                None => self@.len() == 0,
            },
    {
        if self.all_files.len() > 0 {
            Some(&self.all_files[self.all_files.len() - 1])
        } else {
            None
        }
    }

    /// Adds `file` at the end, under the next id, which is returned.
    pub fn add_file_raw(&mut self, file: ProxFile) -> (id: FileID)
        ensures
            final(self).taken() == old(self).taken(),
            id == old(self)@.len(),
            final(self)@ == old(self)@.push((ProxFileView { id, ..file@ })),
            old(self).wf() ==> final(self).wf(),
    {
        let mut file = file;
        let file_id = self.all_files.len();
        file.id = file_id;
        let ghost before = self.all_files@;
        self.all_files.push(file);
        proof {
            assert(file_views(self.all_files@) =~= file_views(before).push(file@));
        }
        file_id
    }

    /// Adds the file `file`, called `name`, with the extension `extension`,
    /// as of the time of the call, unless a file at its path is known: at
    /// the end, under the next id, which is returned, without tags, in the
    /// global access mode. The file joins the files of `in_folder`.
    pub fn add_file(
        &mut self,
        file: NewFile,
        name: String,
        extension: Option<String>,
        in_folder: Option<&mut ProxFolder>,
    ) -> (r: Option<FileID>)
        ensures
            final(self).taken() == old(self).taken(),
            match r {
                Some(id) => {
                    &&& first_at_path(old(self)@, file.absolute_path@) >= old(self)@.len()
                    &&& id == old(self)@.len()
                    &&& final(self)@ == old(self)@.push(
                        ProxFileView {
                            id,
                            absolute_path: file.absolute_path@,
                            tags: Set::empty(),
                            desc: None,
                            name: name@,
                            extension: match extension {
                                Some(e) => Some(e@),
                                None => None,
                            },
                            from_device: file.from_device,
                            added_at: final(self)@.last().added_at,
                            last_modified: final(self)@.last().last_modified,
                            access_modes: Set::empty().insert(0),
                        },
                    )
                    &&& match in_folder {
                        Some(folder) => final(folder)@ == (ProxFolderView {
                            files: folder@.files.push(id),
                            ..folder@
                        }),
                        None => true,
                    }
                },
                None => {
                    &&& first_at_path(old(self)@, file.absolute_path@) < old(self)@.len()
                    &&& final(self)@ == old(self)@
                    &&& match in_folder {
                        Some(folder) => final(folder)@ == folder@,
                        None => true,
                    }
                },
            },
            old(self).wf() ==> final(self).wf(),
    {
        if self.file_exists(file.absolute_path.clone()) {
            return None;
        }
        let id = self.all_files.len();
        let mut access_modes: HashSet<AccessModeID> = HashSet::new();
        access_modes.insert(0);
        let new_file = ProxFile {
            access_modes,
            id,
            absolute_path: file.absolute_path,
            tags: HashSet::new(),
            desc: None,
            name,
            extension,
            from_device: file.from_device,
            added_at: Timestamp::now(),
            last_modified: Timestamp::now(),
        };
        let ghost before = self.all_files@;
        self.all_files.push(new_file);
        proof {
            assert(file_views(self.all_files@) =~= file_views(before).push(new_file@));
        }
        match in_folder {
            Some(folder) => {
                folder.add_file_child(id);
            },
            None => {},
        }
        Some(id)
    }

    /// Puts `file` in the place of the file that has its id.
    pub fn update_file(&mut self, file: ProxFile)
        requires
            file.id < old(self)@.len(),
        ensures
            final(self).taken() == old(self).taken(),
            final(self)@ == old(self)@.update(file.id as int, file@),
            old(self).wf() ==> final(self).wf(),
    {
        let id = file.id;
        let ghost before = self.all_files@;
        self.all_files[id] = file;
        proof {
            assert(file_views(self.all_files@) =~= file_views(before).update(id as int, file@));
        }
    }

    /// The id that the first file at `path` carries, if a file is there.
    pub fn get_file_by_path(&self, path: AbsolutePath) -> (r: Option<FileID>)
        ensures
            r == if first_at_path(self@, path@) < self@.len() {
                Some(self@[first_at_path(self@, path@)].id)
            } else {
                None
            },
    {
        let mut k: usize = 0;
        while k < self.all_files.len() && !same_text(
            self.all_files[k].absolute_path.as_str(),
            path.as_str(),
        )
            invariant
                k <= self.all_files.len(),
                forall|i: int| 0 <= i < k ==> self@[i].absolute_path != path@,
            decreases self.all_files.len() - k,
        {
            k += 1;
        }
        proof {
            lemma_first_at_path(self@, path@, k as int);
        }
        if k < self.all_files.len() {
            Some(self.all_files[k].id)
        } else {
            None
        }
    }

    /// Brings the references of every file up to date after an insertion of
    /// an item of `kind` at `at`.
    pub fn shift_references(&mut self, kind: ItemKind, at: usize)
        ensures
            final(self).taken() == old(self).taken(),
            final(self)@ == old(self)@.map_values(|x: ProxFileView| file_shifted(x, kind, at)),
    {
        let ghost before = self@;
        let mut i: usize = 0;
        while i < self.all_files.len()
            invariant
                self.taken() == old(self).taken(),
                i <= self.all_files.len(),
                self@.len() == before.len(),
                forall|j: int|
                    0 <= j < before.len() ==> #[trigger] self@[j] == if j < i {
                        file_shifted(before[j], kind, at)
                    } else {
                        before[j]
                    },
            decreases self.all_files.len() - i,
        {
            let ghost prev = self.all_files@;
            self.all_files[i].shift_references(kind, at);
            proof {
                assert forall|j: int| 0 <= j < before.len() implies #[trigger] self@[j] == if j
                    < i + 1 {
                    file_shifted(before[j], kind, at)
                } else {
                    before[j]
                } by {
                    assert(file_views(prev)[j] == prev[j]@);
                    if j != i {
                        assert(self.all_files@[j] == prev[j]);
                    }
                }
            }
            i += 1;
        }
        proof {
            assert(self@ =~= before.map_values(|x: ProxFileView| file_shifted(x, kind, at)));
        }
    }

    /// Inserts `file` at the position that is its id; the id of each file
    /// behind it goes up by one.
    pub fn insert_file(&mut self, file: ProxFile)
        requires
            file.id <= old(self)@.len(),
        ensures
            final(self).taken() == old(self).taken(),
            final(self)@ == files_inserted(old(self)@, file@),
            old(self).wf() ==> final(self).wf(),
    {
        let id = file.id;
        let ghost before = self@;
        let mut i: usize = id;
        while i < self.all_files.len()
            invariant
                self.taken() == old(self).taken(),
                id <= i <= self.all_files.len(),
                self@.len() == before.len(),
                forall|j: int|
                    0 <= j < before.len() ==> #[trigger] self@[j] == if id <= j < i {
                        (ProxFileView { id: shifted(before[j].id, 0), ..before[j] })
                    } else {
                        before[j]
                    },
            decreases self.all_files.len() - i,
        {
            let ghost prev = self.all_files@;
            let old_id = self.all_files[i].id;
            let new_id = shift_id(old_id, 0);
            self.all_files[i].id = new_id;
            proof {
                assert forall|j: int| 0 <= j < before.len() implies #[trigger] self@[j] == if id
                    <= j < i + 1 {
                    (ProxFileView { id: shifted(before[j].id, 0), ..before[j] })
                } else {
                    before[j]
                } by {
                    assert(file_views(prev)[j] == prev[j]@);
                    if j != i {
                        assert(self.all_files@[j] == prev[j]);
                    } else {
                        assert(self.all_files@[j]@ == (ProxFileView { id: new_id, ..prev[j]@ }));
                    }
                }
            }
            i += 1;
        }
        let ghost shifted_all = self@;
        self.all_files.insert(id, file);
        proof {
            assert forall|j: int| 0 <= j < self@.len() implies self@[j] == files_inserted(
                before,
                file@,
            )[j] by {
                if j < id {
                    assert(self@[j] == shifted_all[j]);
                } else if j > id {
                    assert(self@[j] == shifted_all[j - 1]);
                }
            }
            assert(self@ =~= files_inserted(before, file@));
            if old(self).wf() {
                assert forall|j: int| 0 <= j < self@.len() implies (#[trigger] self@[j]).id
                    == j by {
                    if j > id {
                        assert(before[j - 1].id == j - 1);
                    } else if j < id {
                        assert(before[j].id == j);
                    }
                }
            }
        }
    }
}

} // verus!
