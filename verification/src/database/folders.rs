//! Folders that the database knows of.

use crate::database::access_modes::AccessModeID;
use crate::database::description::{clone_optional_description, optional_description, Description};
use crate::database::devices::DeviceID;
use crate::database::files::{AbsolutePath, FileID};
use crate::database::ids::{
    clone_id_list, clone_ids, shift_id, shift_id_if, shift_ids_if, shift_list_if, shift_option_if,
    shifted, shifted_ids_if, shifted_if, shifted_list_if, shifted_option_if, ItemKind,
};
use crate::database::tags::TagID;
use crate::database::timestamp::Timestamp;
use crate::text::{same_text, text_views, trim_char, trim_char_text};
use std::collections::HashSet;
use vstd::prelude::*;

verus! {

broadcast use vstd::std_specs::hash::group_hash_axioms;

pub type FolderID = usize;

/// How far below a folder its contents are followed: not at all, so many
/// levels, or without end. The levels are ordered in that way.
#[derive(Clone, Copy, PartialEq, Eq, Structural, PartialOrd, Ord, Debug)]
pub enum RecursivityLevel {
    No,
    Fixed(usize),
    Infinite,
}

/// Whether the level `a` reaches at most as far as the level `b`.
pub open spec fn level_le(a: RecursivityLevel, b: RecursivityLevel) -> bool {
    match (a, b) {
        (RecursivityLevel::No, _) => true,
        (RecursivityLevel::Fixed(_), RecursivityLevel::No) => false,
        (RecursivityLevel::Fixed(x), RecursivityLevel::Fixed(y)) => x <= y,
        (RecursivityLevel::Fixed(_), RecursivityLevel::Infinite) => true,
        (RecursivityLevel::Infinite, RecursivityLevel::Infinite) => true,
        (RecursivityLevel::Infinite, _) => false,
    }
}

impl RecursivityLevel {
    /// Whether this level reaches at most as far as `other`.
    pub fn at_most(&self, other: &RecursivityLevel) -> (r: bool)
        ensures
            r == level_le(*self, *other),
    {
        match (*self, *other) {
            (RecursivityLevel::No, _) => true,
            (RecursivityLevel::Fixed(_), RecursivityLevel::No) => false,
            (RecursivityLevel::Fixed(x), RecursivityLevel::Fixed(y)) => x <= y,
            (RecursivityLevel::Fixed(_), RecursivityLevel::Infinite) => true,
            (RecursivityLevel::Infinite, RecursivityLevel::Infinite) => true,
            (RecursivityLevel::Infinite, _) => false,
        }
    }

    /// The one of the two levels that reaches further; `other` where both
    /// reach as far.
    pub fn furthest(self, other: RecursivityLevel) -> (r: RecursivityLevel)
        ensures
            r == if level_le(self, other) {
                other
            } else {
                self
            },
    {
        if self.at_most(&other) {
            other
        } else {
            self
        }
    }

    /// How far the folders inside a folder that is followed this far are
    /// followed in turn; `None` where the folder's entries are not read.
    pub fn below(self) -> (r: Option<RecursivityLevel>)
        ensures
            r == match self {
                RecursivityLevel::No => None::<RecursivityLevel>,
                RecursivityLevel::Fixed(levels) => if levels > 0 {
                    Some(RecursivityLevel::Fixed((levels - 1) as usize))
                } else {
                    None
                },
                RecursivityLevel::Infinite => Some(RecursivityLevel::Infinite),
            },
    {
        match self {
            RecursivityLevel::No => None,
            RecursivityLevel::Fixed(levels) => if levels > 0 {
                Some(RecursivityLevel::Fixed(levels - 1))
            } else {
                None
            },
            RecursivityLevel::Infinite => Some(RecursivityLevel::Infinite),
        }
    }
}

/// A folder.
#[derive(PartialEq, Eq, Debug)]
pub struct ProxFolder {
    pub id: FolderID,
    pub absolute_path: AbsolutePath,
    pub tags: HashSet<TagID>,
    pub desc: Option<Description>,
    pub name: String,
    pub added_at: Timestamp,
    pub last_updated: Option<Timestamp>,
    pub recursive: RecursivityLevel,
    pub children: Vec<FolderID>,
    pub parent: Option<FolderID>,
    pub files: Vec<FileID>,
    pub from_device: DeviceID,
    pub access_modes: HashSet<AccessModeID>,
}

/// The mathematical value of a [`ProxFolder`].
pub struct ProxFolderView {
    pub id: usize,
    pub absolute_path: Seq<char>,
    pub tags: Set<usize>,
    pub desc: Option<Seq<char>>,
    pub name: Seq<char>,
    pub added_at: Timestamp,
    pub last_updated: Option<Timestamp>,
    pub recursive: RecursivityLevel,
    pub children: Seq<usize>,
    pub parent: Option<usize>,
    pub files: Seq<usize>,
    pub from_device: usize,
    pub access_modes: Set<usize>,
}

impl View for ProxFolder {
    type V = ProxFolderView;

    open spec fn view(&self) -> ProxFolderView {
        ProxFolderView {
            id: self.id,
            absolute_path: self.absolute_path@,
            tags: self.tags@,
            desc: optional_description(self.desc),
            name: self.name@,
            added_at: self.added_at,
            last_updated: self.last_updated,
            recursive: self.recursive,
            children: self.children@,
            parent: self.parent,
            files: self.files@,
            from_device: self.from_device,
            access_modes: self.access_modes@,
        }
    }
}

impl Clone for ProxFolder {
    fn clone(&self) -> (r: Self)
        ensures
            r@ == self@,
    {
        ProxFolder {
            id: self.id,
            absolute_path: self.absolute_path.clone(),
            tags: clone_ids(&self.tags),
            desc: clone_optional_description(&self.desc),
            name: self.name.clone(),
            added_at: self.added_at,
            last_updated: self.last_updated,
            recursive: self.recursive,
            children: clone_id_list(&self.children),
            parent: self.parent,
            files: clone_id_list(&self.files),
            from_device: self.from_device,
            access_modes: clone_ids(&self.access_modes),
        }
    }
}

impl ProxFolder {
    /// A folder called `name` at `absolute_path`, added at the time of the
    /// call, without contents, tags or description, in the global access mode.
    pub fn new_empty(
        id: FolderID,
        absolute_path: AbsolutePath,
        name: String,
        parent: Option<FolderID>,
        recursive: RecursivityLevel,
        from_device: DeviceID,
    ) -> (r: ProxFolder)
        ensures
            r@ == (ProxFolderView {
                id,
                absolute_path: absolute_path@,
                tags: Set::empty(),
                desc: None,
                name: name@,
                added_at: r@.added_at,
                last_updated: None,
                recursive,
                children: Seq::empty(),
                parent,
                files: Seq::empty(),
                from_device,
                access_modes: Set::empty().insert(0),
            }),
    {
        let mut access_modes: HashSet<AccessModeID> = HashSet::new();
        access_modes.insert(0);
        ProxFolder {
            access_modes,
            id,
            from_device,
            absolute_path,
            tags: HashSet::new(),
            desc: None,
            name,
            added_at: Timestamp::now(),
            last_updated: None,
            recursive,
            children: Vec::new(),
            parent,
            files: Vec::new(),
        }
    }

    /// The id of the folder.
    pub fn get_id(&self) -> (r: FolderID)
        ensures
            r == self@.id,
    {
        self.id
    }

    /// Adds a file to the files of the folder.
    pub fn add_file_child(&mut self, file_id: FileID)
        ensures
            final(self)@ == (ProxFolderView { files: old(self)@.files.push(file_id), ..old(self)@ }),
    {
        self.files.push(file_id);
    }

    /// Gives the folder a description and tags, in the place of those it had.
    pub fn add_desc_tags(&mut self, desc: Description, tags: HashSet<TagID>)
        ensures
            final(self)@ == (ProxFolderView { desc: Some(desc@), tags: tags@, ..old(self)@ }),
    {
        self.desc = Some(desc);
        self.tags = tags;
    }

    /// Brings the references of the folder up to date after an insertion
    /// of an item of `kind` at `at`.
    pub fn shift_references(&mut self, kind: ItemKind, at: usize)
        ensures
            final(self)@ == folder_shifted(old(self)@, kind, at),
    {
        shift_ids_if(kind == ItemKind::Tag, &mut self.tags, at);
        shift_ids_if(kind == ItemKind::AccessMode, &mut self.access_modes, at);
        shift_id_if(kind == ItemKind::Device, &mut self.from_device, at);
        shift_list_if(kind == ItemKind::File, &mut self.files, at);
        shift_list_if(kind == ItemKind::Folder, &mut self.children, at);
        shift_option_if(kind == ItemKind::Folder, &mut self.parent, at);
    }

    /// The name of the folder.
    pub fn get_name_string(&self) -> (r: String)
        ensures
            r@ == self@.name,
    {
        self.name.clone()
    }

    /// The description of the folder, if it has one.
    pub fn get_desc(&self) -> (r: Option<Description>)
        ensures
            optional_description(r) == self@.desc,
    {
        clone_optional_description(&self.desc)
    }

    /// The path of the folder.
    pub fn get_full_path(&self) -> (r: AbsolutePath)
        ensures
            r@ == self@.absolute_path,
    {
        self.absolute_path.clone()
    }

    /// The folders directly in the folder.
    pub fn get_folder_children(&self) -> (r: &Vec<FolderID>)
        ensures
            r@ == self@.children,
    {
        &self.children
    }

    /// The files directly in the folder.
    pub fn get_file_children(&self) -> (r: &Vec<FileID>)
        ensures
            r@ == self@.files,
    {
        &self.files
    }
}

/// A folder after an insertion of an item of `kind` at `at`: its tags, its
/// access modes, its device, its files, its parent and the folders in it
/// are brought up to date where an item of their kind was inserted.
pub open spec fn folder_shifted(folder: ProxFolderView, kind: ItemKind, at: usize)
    -> ProxFolderView {
    ProxFolderView {
        tags: shifted_ids_if(kind == ItemKind::Tag, folder.tags, at),
        access_modes: shifted_ids_if(kind == ItemKind::AccessMode, folder.access_modes, at),
        from_device: shifted_if(kind == ItemKind::Device, folder.from_device, at),
        files: shifted_list_if(kind == ItemKind::File, folder.files, at),
        children: shifted_list_if(kind == ItemKind::Folder, folder.children, at),
        parent: shifted_option_if(kind == ItemKind::Folder, folder.parent, at),
        ..folder
    }
}

/// A folder that is yet to be added.
#[derive(PartialEq, Eq, Debug)]
pub struct NewFolder {
    pub absolute_path: AbsolutePath,
    pub recursivity: RecursivityLevel,
    pub from_device: DeviceID,
}

impl NewFolder {
    /// The folder at `absolute_path`, seen from `from_device`.
    pub fn new(absolute_path: AbsolutePath, recursivity: RecursivityLevel, from_device: DeviceID)
        -> (r: NewFolder)
        ensures
            r.absolute_path@ == absolute_path@,
            r.recursivity == recursivity,
            r.from_device == from_device,
    {
        NewFolder { absolute_path, recursivity, from_device }
    }
}

/// The values of a sequence of folders.
pub open spec fn folder_views(folders: Seq<ProxFolder>) -> Seq<ProxFolderView> {
    folders.map_values(|f: ProxFolder| f@)
}

/// Whether every folder of `folders` has its position as its id.
pub open spec fn folders_dense(folders: Seq<ProxFolderView>) -> bool {
    forall|i: int| 0 <= i < folders.len() ==> (#[trigger] folders[i]).id == i
}

/// `folders` with `folder` inserted at the position that is its id, and the id
/// of each folder behind it raised by one.
pub open spec fn folders_inserted(folders: Seq<ProxFolderView>, folder: ProxFolderView) -> Seq<
    ProxFolderView,
> {
    Seq::new(
        folders.len() + 1,
        |i: int|
            if i < folder.id {
                folders[i]
            } else if i == folder.id {
                folder
            } else {
                (ProxFolderView { id: shifted(folders[i - 1].id, 0), ..folders[i - 1] })
            },
    )
}

/// All folders, each at the position that is its id, with the folders that
/// scans start from and what scans pass over.
#[derive(PartialEq, Eq, Debug)]
pub struct Folders {
    all_folders: Vec<ProxFolder>,
    starting_points: HashSet<FolderID>,
    ignore_those_folders: Vec<AbsolutePath>,
    ignore_those_folder_names: Vec<String>,
    ignore_those_file_extensions: Vec<String>,
}

impl View for Folders {
    type V = Seq<ProxFolderView>;

    closed spec fn view(&self) -> Seq<ProxFolderView> {
        folder_views(self.all_folders@)
    }
}

/// What guides the scans of folders.
pub struct ScanRules {
    /// The folders that scans start from.
    pub starting_points: Set<usize>,
    /// The paths of the folders that are passed over.
    pub ignored_folders: Seq<Seq<char>>,
    /// The names of the folders that are passed over.
    pub ignored_names: Seq<Seq<char>>,
    /// The extensions of the files that are passed over.
    pub ignored_extensions: Seq<Seq<char>>,
}

impl ScanRules {
    /// Whether the folder called `name` at `path` is passed over: its path
    /// is among the paths, or its name, without the slashes around it,
    /// among the names.
    pub open spec fn passes_over(self, path: Seq<char>, name: Seq<char>) -> bool {
        self.ignored_folders.contains(path) || self.ignored_names.contains(trim_char(name, '/'))
    }
}

/// The rules after an insertion of an item of `kind` at `at`: the folders
/// that scans start from are brought up to date where a folder was inserted.
pub open spec fn rules_shifted(rules: ScanRules, kind: ItemKind, at: usize) -> ScanRules {
    ScanRules {
        starting_points: shifted_ids_if(kind == ItemKind::Folder, rules.starting_points, at),
        ..rules
    }
}

/// The index of the first folder at `path`, or the number of folders.
pub open spec fn folder_at(folders: Seq<ProxFolderView>, path: Seq<char>) -> int
    decreases folders.len(),
{
    if folders.len() == 0 || folders[0].absolute_path == path {
        0
    } else {
        1 + folder_at(folders.drop_first(), path)
    }
}

proof fn lemma_folder_at(folders: Seq<ProxFolderView>, path: Seq<char>, k: int)
    requires
        0 <= k <= folders.len(),
        forall|i: int| 0 <= i < k ==> folders[i].absolute_path != path,
        k < folders.len() ==> folders[k].absolute_path == path,
    ensures
        folder_at(folders, path) == k,
    decreases k,
{
    if k > 0 {
        lemma_folder_at(folders.drop_first(), path, k - 1);
    }
}

/// Why a folder was not taken in.
#[derive(Clone, Copy, PartialEq, Eq, Structural, Debug)]
pub enum FolderError {
    /// The folder is passed over.
    Ignored,
    /// The folder is known under another parent.
    ParentMismatch,
}

/// A copy of a list of texts.
pub fn clone_texts(texts: &Vec<String>) -> (r: Vec<String>)
    ensures
        text_views(r@) == text_views(texts@),
{
    let r = texts.clone();
    proof {
        assert(text_views(r@) =~= text_views(texts@));
    }
    r
}

fn holds_text(texts: &Vec<String>, text: &str) -> (r: bool)
    ensures
        r == text_views(texts@).contains(text@),
{
    let mut i: usize = 0;
    while i < texts.len()
        invariant
            i <= texts.len(),
            forall|j: int| 0 <= j < i ==> text_views(texts@)[j] != text@,
        decreases texts.len() - i,
    {
        if same_text(texts[i].as_str(), text) {
            proof {
                assert(text_views(texts@)[i as int] == text@);
            }
            return true;
        }
        i += 1;
    }
    false
}

impl Clone for Folders {
    fn clone(&self) -> (r: Self)
        ensures
            r@ == self@,
            r.rules() == self.rules(),
    {
        let all_folders = self.all_folders.clone();
        proof {
            assert(folder_views(all_folders@) =~= folder_views(self.all_folders@));
        }
        Folders {
            all_folders,
            starting_points: clone_ids(&self.starting_points),
            ignore_those_folders: clone_texts(&self.ignore_those_folders),
            ignore_those_folder_names: clone_texts(&self.ignore_those_folder_names),
            ignore_those_file_extensions: clone_texts(&self.ignore_those_file_extensions),
        }
    }
}

impl Folders {
    /// Whether every folder has its position as its id.
    pub open spec fn wf(&self) -> bool {
        folders_dense(self@)
    }

    /// What guides the scans of folders.
    pub closed spec fn rules(&self) -> ScanRules {
        ScanRules {
            starting_points: self.starting_points@,
            ignored_folders: text_views(self.ignore_those_folders@),
            ignored_names: text_views(self.ignore_those_folder_names@),
            ignored_extensions: text_views(self.ignore_those_file_extensions@),
        }
    }

    /// No folders, and nothing that scans pass over.
    pub fn new() -> (r: Folders)
        ensures
            r@ == Seq::<ProxFolderView>::empty(),
            r.rules() == (ScanRules {
                starting_points: Set::empty(),
                ignored_folders: Seq::empty(),
                ignored_names: Seq::empty(),
                ignored_extensions: Seq::empty(),
            }),
            r.wf(),
    {
        let all_folders: Vec<ProxFolder> = Vec::new();
        let ignore_those_folders: Vec<String> = Vec::new();
        let ignore_those_folder_names: Vec<String> = Vec::new();
        let ignore_those_file_extensions: Vec<String> = Vec::new();
        proof {
            assert(folder_views(all_folders@) =~= Seq::<ProxFolderView>::empty());
            assert(text_views(ignore_those_folders@) =~= Seq::empty());
            assert(text_views(ignore_those_folder_names@) =~= Seq::empty());
            assert(text_views(ignore_those_file_extensions@) =~= Seq::empty());
        }
        Folders {
            all_folders,
            starting_points: HashSet::new(),
            ignore_those_folders,
            ignore_those_folder_names,
            ignore_those_file_extensions,
        }
    }

    /// The folders that scans start from.
    pub fn get_starting_points(&self) -> (r: &HashSet<FolderID>)
        ensures
            r@ == self.rules().starting_points,
    {
        &self.starting_points
    }

    /// The paths of the folders that scans pass over.
    pub fn get_ignored_folders(&self) -> (r: &Vec<AbsolutePath>)
        ensures
            text_views(r@) == self.rules().ignored_folders,
    {
        &self.ignore_those_folders
    }

    /// The names of the folders that scans pass over.
    pub fn get_ignored_folder_names(&self) -> (r: &Vec<String>)
        ensures
            text_views(r@) == self.rules().ignored_names,
    {
        &self.ignore_those_folder_names
    }

    /// The extensions of the files that scans pass over.
    pub fn get_ignored_extensions(&self) -> (r: &Vec<String>)
        ensures
            text_views(r@) == self.rules().ignored_extensions,
    {
        &self.ignore_those_file_extensions
    }

    /// Has scans pass over the folders at the paths `folders`.
    pub fn add_to_ignore_list(&mut self, folders: Vec<AbsolutePath>)
        ensures
            final(self)@ == old(self)@,
            final(self).rules() == (ScanRules {
                ignored_folders: old(self).rules().ignored_folders + text_views(folders@),
                ..old(self).rules()
            }),
    {
        let mut folders = folders;
        let ghost before = self.ignore_those_folders@;
        let ghost added = folders@;
        self.ignore_those_folders.append(&mut folders);
        proof {
            assert(text_views(self.ignore_those_folders@) =~= text_views(before) + text_views(
                added,
            ));
        }
    }

    /// Has scans pass over the folders called by one of `names`.
    pub fn add_to_folder_name_ignore_list(&mut self, names: Vec<String>)
        ensures
            final(self)@ == old(self)@,
            final(self).rules() == (ScanRules {
                ignored_names: old(self).rules().ignored_names + text_views(names@),
                ..old(self).rules()
            }),
    {
        let mut names = names;
        let ghost before = self.ignore_those_folder_names@;
        let ghost added = names@;
        self.ignore_those_folder_names.append(&mut names);
        proof {
            assert(text_views(self.ignore_those_folder_names@) =~= text_views(before)
                + text_views(added));
        }
    }

    /// Has scans pass over the files with one of `extensions`.
    pub fn add_to_extension_ignore_list(&mut self, extensions: Vec<String>)
        ensures
            final(self)@ == old(self)@,
            final(self).rules() == (ScanRules {
                ignored_extensions: old(self).rules().ignored_extensions + text_views(
                    extensions@,
                ),
                ..old(self).rules()
            }),
    {
        let mut extensions = extensions;
        let ghost before = self.ignore_those_file_extensions@;
        let ghost added = extensions@;
        self.ignore_those_file_extensions.append(&mut extensions);
        proof {
            assert(text_views(self.ignore_those_file_extensions@) =~= text_views(before)
                + text_views(added));
        }
    }

    /// Whether scans pass over the folder called `name` at `path`.
    pub fn is_ignored(&self, path: &str, name: &str) -> (r: bool)
        ensures
            r == self.rules().passes_over(path@, name@),
    {
        holds_text(&self.ignore_those_folders, path) || holds_text(
            &self.ignore_those_folder_names,
            trim_char_text(name, '/').as_str(),
        )
    }

    /// Whether scans pass over the files with `extension`.
    pub fn is_ignored_extension(&self, extension: &str) -> (r: bool)
        ensures
            r == self.rules().ignored_extensions.contains(extension@),
    {
        holds_text(&self.ignore_those_file_extensions, extension)
    }

    /// The id of the first folder at `path`, if one is there.
    pub fn get_folder_if_already_exists(&self, path: AbsolutePath) -> (r: Option<FolderID>)
        ensures
            0 <= folder_at(self@, path@) <= self@.len(),
            r == if folder_at(self@, path@) < self@.len() {
                Some(folder_at(self@, path@) as usize)
            } else {
                None
            },
    {
        let mut k: usize = 0;
        while k < self.all_folders.len() && !same_text(
            self.all_folders[k].absolute_path.as_str(),
            path.as_str(),
        )
            invariant
                k <= self.all_folders.len(),
                forall|i: int| 0 <= i < k ==> self@[i].absolute_path != path@,
            decreases self.all_folders.len() - k,
        {
            k += 1;
        }
        proof {
            lemma_folder_at(self@, path@, k as int);
        }
        if k < self.all_folders.len() {
            Some(k)
        } else {
            None
        }
    }

    /// The id of the folder that a path lies in, where `parent_path`, the
    /// path of the folder above it, is that of a folder that is known.
    pub fn get_parent_to(&self, parent_path: Option<AbsolutePath>) -> (r: Option<FolderID>)
        ensures
            r == match parent_path {
                Some(path) => if folder_at(self@, path@) < self@.len() {
                    Some(folder_at(self@, path@) as usize)
                } else {
                    None
                },
                None => None,
            },
    {
        match parent_path {
            Some(path) => self.get_folder_if_already_exists(path),
            None => None,
        }
    }

    /// Makes the folder `id` one that scans start from.
    pub fn mark_starting_point(&mut self, id: FolderID)
        ensures
            final(self)@ == old(self)@,
            final(self).rules() == (ScanRules {
                starting_points: old(self).rules().starting_points.insert(id),
                ..old(self).rules()
            }),
    {
        self.starting_points.insert(id);
    }

    /// Takes in the folder `new_folder`, called `name`, under `parent_id`,
    /// before it is scanned. A folder that is passed over is refused. A
    /// folder whose path is known keeps its id, and is scanned as far as the
    /// further of what it was taken in with and what is asked now; it is
    /// refused where it is known under another parent. Every other folder
    /// is added at the end, as of the time of the call, under the next id.
    /// Returns the id and how far to scan.
    pub fn register_folder(&mut self, new_folder: NewFolder, name: String, parent_id: Option<
        FolderID,
    >) -> (r: Result<(FolderID, RecursivityLevel), FolderError>)
        ensures
            final(self).rules() == old(self).rules(),
            ({
                let known = folder_at(old(self)@, new_folder.absolute_path@);
                if old(self).rules().passes_over(new_folder.absolute_path@, name@) {
                    r == Err::<(FolderID, RecursivityLevel), FolderError>(FolderError::Ignored)
                        && final(self)@ == old(self)@
                } else if known < old(self)@.len() {
                    &&& final(self)@ == old(self)@
                    &&& r == if old(self)@[known].parent is Some && old(self)@[known].parent
                        != parent_id {
                        Err::<(FolderID, RecursivityLevel), FolderError>(
                            FolderError::ParentMismatch,
                        )
                    } else {
                        Ok::<(FolderID, RecursivityLevel), FolderError>(
                            (
                                known as usize,
                                if level_le(old(self)@[known].recursive, new_folder.recursivity) {
                                    new_folder.recursivity
                                } else {
                                    old(self)@[known].recursive
                                },
                            ),
                        )
                    }
                } else {
                    &&& r == Ok::<(FolderID, RecursivityLevel), FolderError>(
                        (old(self)@.len() as usize, new_folder.recursivity),
                    )
                    &&& final(self)@ == old(self)@.push(
                        ProxFolderView {
                            id: old(self)@.len() as usize,
                            absolute_path: new_folder.absolute_path@,
                            tags: Set::empty(),
                            desc: None,
                            name: name@,
                            added_at: final(self)@.last().added_at,
                            last_updated: None,
                            recursive: new_folder.recursivity,
                            children: Seq::empty(),
                            parent: parent_id,
                            files: Seq::empty(),
                            from_device: new_folder.from_device,
                            access_modes: Set::empty().insert(0),
                        },
                    )
                }
            }),
            old(self).wf() ==> final(self).wf(),
    {
        if self.is_ignored(new_folder.absolute_path.as_str(), name.as_str()) {
            return Err(FolderError::Ignored);
        }
        match self.get_folder_if_already_exists(new_folder.absolute_path.clone()) {
            Some(folder_id) => {
                proof {
                    let known = folder_at(self@, new_folder.absolute_path@);
                    assert(self@.len() == self.all_folders.len());
                    assert(known == folder_id as int);
                    assert(self@[known] == self.all_folders@[folder_id as int]@);
                    assert(self@[known].parent == self.all_folders@[folder_id as int].parent);
                    assert(self@[known].recursive == self.all_folders@[folder_id as int].recursive);
                }
                let old_folder = &self.all_folders[folder_id];
                let mismatch = match old_folder.parent {
                    Some(p) => match parent_id {
                        Some(q) => p != q,
                        None => true,
                    },
                    None => false,
                };
                if mismatch {
                    Err(FolderError::ParentMismatch)
                } else {
                    Ok((folder_id, old_folder.recursive.furthest(new_folder.recursivity)))
                }
            },
            None => {
                let id = self.all_folders.len();
                let folder = ProxFolder::new_empty(
                    id,
                    new_folder.absolute_path,
                    name,
                    parent_id,
                    new_folder.recursivity,
                    new_folder.from_device,
                );
                let ghost before = self.all_folders@;
                self.all_folders.push(folder);
                proof {
                    assert(folder_views(self.all_folders@) =~= folder_views(before).push(folder@));
                }
                Ok((id, new_folder.recursivity))
            },
        }
    }

    /// Ends the scan of the folder `id`: it joins the folders of its parent.
    pub fn complete_folder(&mut self, id: FolderID, parent_id: Option<FolderID>) -> (r: FolderID)
        requires
            match parent_id {
                Some(parent) => parent < old(self)@.len(),
                None => true,
            },
        ensures
            r == id,
            final(self).rules() == old(self).rules(),
            final(self)@ == match parent_id {
                Some(parent) => old(self)@.update(
                    parent as int,
                    ProxFolderView {
                        children: old(self)@[parent as int].children.push(id),
                        ..old(self)@[parent as int]
                    },
                ),
                None => old(self)@,
            },
            old(self).wf() ==> final(self).wf(),
    {
        match parent_id {
            Some(parent) => {
                let ghost before = self.all_folders@;
                self.all_folders[parent].children.push(id);
                proof {
                    assert(folder_views(self.all_folders@) =~= folder_views(before).update(
                        parent as int,
                        ProxFolderView {
                            children: before[parent as int]@.children.push(id),
                            ..before[parent as int]@
                        },
                    ));
                }
            },
            None => {},
        }
        id
    }

    /// Whether every folder has its position as its id.
    pub fn is_dense(&self) -> (r: bool)
        ensures
            r == folders_dense(self@),
    {
        let mut i: usize = 0;
        while i < self.all_folders.len()
            invariant
                i <= self.all_folders.len(),
                forall|j: int| 0 <= j < i ==> (#[trigger] self@[j]).id == j,
            decreases self.all_folders.len() - i,
        {
            if self.all_folders[i].id != i {
                proof {
                    assert(self@[i as int].id != i);
                }
                return false;
            }
            i += 1;
        }
        true
    }

    /// The number of folders.
    pub fn number_of_folders(&self) -> (r: usize)
        ensures
            r == self@.len(),
    {
        self.all_folders.len()
    }

    /// The folder with the id `id`, to be changed in place.
    pub fn get_folder_mut(&mut self, id: FolderID) -> (r: &mut ProxFolder)
        requires
            id < old(self)@.len(),
        ensures
            final(self).rules() == old(self).rules(),
            r@ == old(self)@[id as int],
            final(self)@ == old(self)@.update(id as int, final(r)@),
    {
        let ghost before = self.all_folders@;
        let r = &mut self.all_folders[id];
        proof {
            assert(folder_views(before.update(id as int, *final(r))) =~= folder_views(before).update(
                id as int,
                final(r)@,
            ));
        }
        r
    }

    /// The folder with the id `id`.
    pub fn get_folder_by_id(&self, id: FolderID) -> (r: &ProxFolder)
        requires
            id < self@.len(),
        ensures
            r@ == self@[id as int],
    {
        &self.all_folders[id]
    }

    /// The last folder, if there is any.
    pub fn get_last_folder(&self) -> (r: Option<&ProxFolder>)
        ensures
            match r {
                Some(folder) => self@.len() > 0 && folder@ == self@.last(),
                None => self@.len() == 0,
            },
    {
        if self.all_folders.len() > 0 {
            Some(&self.all_folders[self.all_folders.len() - 1])
        } else {
            None
        }
    }

    /// Adds `folder` at the end, under the next id, which is returned.
    pub fn add_folder_raw(&mut self, folder: ProxFolder) -> (id: FolderID)
        ensures
            final(self).rules() == old(self).rules(),
            id == old(self)@.len(),
            final(self)@ == old(self)@.push((ProxFolderView { id, ..folder@ })),
            old(self).wf() ==> final(self).wf(),
    {
        let mut folder = folder;
        let folder_id = self.all_folders.len();
        folder.id = folder_id;
        let ghost before = self.all_folders@;
        self.all_folders.push(folder);
        proof {
            assert(folder_views(self.all_folders@) =~= folder_views(before).push(folder@));
        }
        folder_id
    }

    /// Puts `folder` in the place of the folder that has its id.
    pub fn update_folder(&mut self, folder: ProxFolder)
        requires
            folder.id < old(self)@.len(),
        ensures
            final(self).rules() == old(self).rules(),
            final(self)@ == old(self)@.update(folder.id as int, folder@),
            old(self).wf() ==> final(self).wf(),
    {
        let id = folder.id;
        let ghost before = self.all_folders@;
        self.all_folders[id] = folder;
        proof {
            assert(folder_views(self.all_folders@) =~= folder_views(before).update(id as int, folder@));
        }
    }

    /// Brings the references of every folder, and the folders that scans
    /// start from, up to date after an insertion of an item of `kind` at `at`.
    pub fn shift_references(&mut self, kind: ItemKind, at: usize)
        ensures
            final(self).rules() == rules_shifted(old(self).rules(), kind, at),
            final(self)@ == old(self)@.map_values(|x: ProxFolderView| folder_shifted(x, kind, at)),
    {
        let ghost before = self@;
        shift_ids_if(kind == ItemKind::Folder, &mut self.starting_points, at);
        let mut i: usize = 0;
        while i < self.all_folders.len()
            invariant
                i <= self.all_folders.len(),
                self.rules() == rules_shifted(old(self).rules(), kind, at),
                self@.len() == before.len(),
                forall|j: int|
                    0 <= j < before.len() ==> #[trigger] self@[j] == if j < i {
                        folder_shifted(before[j], kind, at)
                    } else {
                        before[j]
                    },
            decreases self.all_folders.len() - i,
        {
            let ghost prev = self.all_folders@;
            self.all_folders[i].shift_references(kind, at);
            proof {
                assert forall|j: int| 0 <= j < before.len() implies #[trigger] self@[j] == if j
                    < i + 1 {
                    folder_shifted(before[j], kind, at)
                } else {
                    before[j]
                } by {
                    assert(folder_views(prev)[j] == prev[j]@);
                    if j != i {
                        assert(self.all_folders@[j] == prev[j]);
                    }
                }
            }
            i += 1;
        }
        proof {
            assert(self@ =~= before.map_values(|x: ProxFolderView| folder_shifted(x, kind, at)));
        }
    }

    /// Inserts `folder` at the position that is its id; the id of each folder
    /// behind it goes up by one.
    pub fn insert_folder(&mut self, folder: ProxFolder)
        requires
            folder.id <= old(self)@.len(),
        ensures
            final(self).rules() == old(self).rules(),
            final(self)@ == folders_inserted(old(self)@, folder@),
            old(self).wf() ==> final(self).wf(),
    {
        let id = folder.id;
        let ghost before = self@;
        let mut i: usize = id;
        while i < self.all_folders.len()
            invariant
                id <= i <= self.all_folders.len(),
                self.rules() == old(self).rules(),
                self@.len() == before.len(),
                forall|j: int|
                    0 <= j < before.len() ==> #[trigger] self@[j] == if id <= j < i {
                        (ProxFolderView { id: shifted(before[j].id, 0), ..before[j] })
                    } else {
                        before[j]
                    },
            decreases self.all_folders.len() - i,
        {
            let ghost prev = self.all_folders@;
            let old_id = self.all_folders[i].id;
            let new_id = shift_id(old_id, 0);
            self.all_folders[i].id = new_id;
            proof {
                assert forall|j: int| 0 <= j < before.len() implies #[trigger] self@[j] == if id
                    <= j < i + 1 {
                    (ProxFolderView { id: shifted(before[j].id, 0), ..before[j] })
                } else {
                    before[j]
                } by {
                    assert(folder_views(prev)[j] == prev[j]@);
                    if j != i {
                        assert(self.all_folders@[j] == prev[j]);
                    } else {
                        assert(self.all_folders@[j]@ == (ProxFolderView { id: new_id, ..prev[j]@ }));
                    }
                }
            }
            i += 1;
        }
        let ghost shifted_all = self@;
        self.all_folders.insert(id, folder);
        proof {
            assert forall|j: int| 0 <= j < self@.len() implies self@[j] == folders_inserted(
                before,
                folder@,
            )[j] by {
                if j < id {
                    assert(self@[j] == shifted_all[j]);
                } else if j > id {
                    assert(self@[j] == shifted_all[j - 1]);
                }
            }
            assert(self@ =~= folders_inserted(before, folder@));
            if old(self).wf() {
                assert forall|j: int| 0 <= j < self@.len() implies (#[trigger] self@[j]).id
                    == j by {
                    if j > id {
                        assert(before[j - 1].id == j - 1);
                    } else if j < id {
                        assert(before[j].id == j);
                    }
                }
            }
        }
    }
}

} // verus!
