//! The database: every item of the assistant, each kind in a container of
//! its own, with ids that are positions.

pub mod access_modes;
pub mod chats;
pub mod configuration;
pub mod context;
pub mod describing;
pub mod description;
pub mod devices;
pub mod files;
pub mod folders;
pub mod forest;
pub mod handler;
pub mod ids;
pub mod media;
pub mod tags;
pub mod timestamp;
pub mod user;

use crate::database::access_modes::{
    mode_shifted, modes_dense, modes_inserted, AccessMode, AccessModeView, AccessModes,
};
use crate::database::chats::{
    chat_shifted, chats_dense, chats_inserted, chats_valid, Chat, ChatView, Chats,
};
use crate::database::configuration::{
    config_shifted, configs_dense, configs_inserted, configs_valid, ChatConfiguration,
    ChatConfigurationView, ChatConfigurations,
};
use crate::database::description::{Description, DescriptionTarget};
use crate::database::devices::{devices_dense, devices_inserted, Device, DeviceView, Devices};
use crate::database::files::{file_shifted, files_dense, files_inserted, Files, ProxFile, ProxFileView};
use crate::database::folders::{
    folder_shifted, folders_dense, folders_inserted, rules_shifted, Folders, ProxFolder,
    ProxFolderView, ScanRules,
};
use crate::database::ids::{shifted, ItemKind};
use crate::database::forest::{lemma_forest_after_insert, lemma_forest_after_push, parents_inserted};
use crate::database::tags::{
    parents_exist, tag_parents, tag_shifted, tags_dense, tags_forest, tags_inserted, Tag,
    TagView, Tags,
};
use crate::database::user::{user_shifted, PersonalInformation, UserData, UserDataView};
use std::collections::HashSet;
use vstd::prelude::*;

verus! {

broadcast use vstd::std_specs::hash::group_hash_axioms;

/// The whole database.
#[derive(PartialEq, Eq, Debug)]
pub struct ProxDatabase {
    pub files: Files,
    pub folders: Folders,
    pub chats: Chats,
    pub tags: Tags,
    pub personal_info: PersonalInformation,
    pub database_folder: String,
    pub devices: Devices,
    pub access_modes: AccessModes,
    pub configs: ChatConfigurations,
}

/// The mathematical value of a [`ProxDatabase`].
pub struct ProxDatabaseView {
    pub files: Seq<ProxFileView>,
    pub folders: Seq<ProxFolderView>,
    pub chats: Map<usize, ChatView>,
    pub tags: Seq<TagView>,
    pub user: UserDataView,
    pub database_folder: Seq<char>,
    pub devices: Seq<DeviceView>,
    pub access_modes: Seq<AccessModeView>,
    pub configs: Seq<ChatConfigurationView>,
    pub scan_rules: ScanRules,
}

impl View for ProxDatabase {
    type V = ProxDatabaseView;

    open spec fn view(&self) -> ProxDatabaseView {
        ProxDatabaseView {
            files: self.files@,
            folders: self.folders@,
            chats: self.chats@,
            tags: self.tags@,
            user: self.personal_info@,
            database_folder: self.database_folder@,
            devices: self.devices@,
            access_modes: self.access_modes@,
            configs: self.configs@,
            scan_rules: self.folders.rules(),
        }
    }
}

impl ProxDatabaseView {
    /// What must hold of the database after every change: in each container
    /// the ids are the positions, the global access mode exists and holds
    /// every tag, the parent of every tag exists and the tags form a forest,
    /// every chat says truly
    /// whether a reply is awaited, and every configuration has the tools of
    /// its settings and the global access mode.
    pub open spec fn wf(self) -> bool {
        &&& files_dense(self.files)
        &&& folders_dense(self.folders)
        &&& chats_dense(self.chats)
        &&& chats_valid(self.chats)
        &&& tags_dense(self.tags)
        &&& parents_exist(self.tags)
        &&& tags_forest(self.tags)
        &&& devices_dense(self.devices)
        &&& self.access_modes.len() >= 1
        &&& modes_dense(self.access_modes)
        &&& configs_dense(self.configs)
        &&& configs_valid(self.configs)
        &&& forall|t: usize| t < self.tags.len() ==> self.access_modes[0].tags.contains(t)
    }

    /// The number of items of `kind`; the record of the user counts as one.
    pub open spec fn count(self, kind: ItemKind) -> nat {
        match kind {
            ItemKind::Device => self.devices.len(),
            ItemKind::Chat => self.chats.len(),
            ItemKind::Folder => self.folders.len(),
            ItemKind::File => self.files.len(),
            ItemKind::Tag => self.tags.len(),
            ItemKind::AccessMode => self.access_modes.len(),
            ItemKind::UserData => 1,
            ItemKind::ChatConfiguration => self.configs.len(),
        }
    }

    /// The database after an insertion of an item of `kind` at `at`, as far
    /// as references go: every reference to an item of that kind from `at`
    /// on is raised by one.
    pub open spec fn references_shifted(self, kind: ItemKind, at: usize) -> ProxDatabaseView {
        ProxDatabaseView {
            files: self.files.map_values(|x: ProxFileView| file_shifted(x, kind, at)),
            folders: self.folders.map_values(|x: ProxFolderView| folder_shifted(x, kind, at)),
            chats: self.chats.map_values(|c: ChatView| chat_shifted(c, kind, at)),
            tags: self.tags.map_values(|t: TagView| tag_shifted(t, kind, at)),
            user: user_shifted(self.user, kind, at),
            access_modes: self.access_modes.map_values(
                |m: AccessModeView| mode_shifted(m, kind, at),
            ),
            configs: self.configs.map_values(
                |x: ChatConfigurationView| config_shifted(x, kind, at),
            ),
            scan_rules: rules_shifted(self.scan_rules, kind, at),
            ..self
        }
    }
}

impl Clone for ProxDatabase {
    fn clone(&self) -> (r: Self)
        ensures
            r@ == self@,
    {
        ProxDatabase {
            files: self.files.clone(),
            folders: self.folders.clone(),
            chats: self.chats.clone(),
            tags: self.tags.clone(),
            personal_info: self.personal_info.clone(),
            database_folder: self.database_folder.clone(),
            devices: self.devices.clone(),
            access_modes: self.access_modes.clone(),
            configs: self.configs.clone(),
        }
    }
}

/// The id of an item: its kind and, but for the record of the user, its
/// position among the items of that kind.
#[derive(Clone, Copy, PartialEq, Eq, Structural, PartialOrd, Ord, Hash, Debug)]
pub enum DatabaseItemID {
    Device(usize),
    Chat(usize),
    Folder(usize),
    File(usize),
    Tag(usize),
    AccessMode(usize),
    UserData,
    ChatConfiguration(usize),
}

impl DatabaseItemID {
    /// The kind of item that the id names.
    pub open spec fn spec_kind(self) -> ItemKind {
        match self {
            DatabaseItemID::Device(_) => ItemKind::Device,
            DatabaseItemID::Chat(_) => ItemKind::Chat,
            DatabaseItemID::Folder(_) => ItemKind::Folder,
            DatabaseItemID::File(_) => ItemKind::File,
            DatabaseItemID::Tag(_) => ItemKind::Tag,
            DatabaseItemID::AccessMode(_) => ItemKind::AccessMode,
            DatabaseItemID::UserData => ItemKind::UserData,
            DatabaseItemID::ChatConfiguration(_) => ItemKind::ChatConfiguration,
        }
    }

    /// The position that the id names; 0 for the record of the user.
    pub open spec fn spec_index(self) -> usize {
        match self {
            DatabaseItemID::Device(i) => i,
            DatabaseItemID::Chat(i) => i,
            DatabaseItemID::Folder(i) => i,
            DatabaseItemID::File(i) => i,
            DatabaseItemID::Tag(i) => i,
            DatabaseItemID::AccessMode(i) => i,
            DatabaseItemID::UserData => 0,
            DatabaseItemID::ChatConfiguration(i) => i,
        }
    }

    /// The id of the item of `kind` at `index`.
    pub open spec fn spec_of(kind: ItemKind, index: usize) -> DatabaseItemID {
        match kind {
            ItemKind::Device => DatabaseItemID::Device(index),
            ItemKind::Chat => DatabaseItemID::Chat(index),
            ItemKind::Folder => DatabaseItemID::Folder(index),
            ItemKind::File => DatabaseItemID::File(index),
            ItemKind::Tag => DatabaseItemID::Tag(index),
            ItemKind::AccessMode => DatabaseItemID::AccessMode(index),
            ItemKind::UserData => DatabaseItemID::UserData,
            ItemKind::ChatConfiguration => DatabaseItemID::ChatConfiguration(index),
        }
    }

    /// The kind of item that the id names.
    #[verifier::when_used_as_spec(spec_kind)]
    pub fn kind(self) -> (r: ItemKind)
        ensures
            r == self.spec_kind(),
    {
        match self {
            DatabaseItemID::Device(_) => ItemKind::Device,
            DatabaseItemID::Chat(_) => ItemKind::Chat,
            DatabaseItemID::Folder(_) => ItemKind::Folder,
            DatabaseItemID::File(_) => ItemKind::File,
            DatabaseItemID::Tag(_) => ItemKind::Tag,
            DatabaseItemID::AccessMode(_) => ItemKind::AccessMode,
            DatabaseItemID::UserData => ItemKind::UserData,
            DatabaseItemID::ChatConfiguration(_) => ItemKind::ChatConfiguration,
        }
    }

    /// The position that the id names; 0 for the record of the user.
    #[verifier::when_used_as_spec(spec_index)]
    pub fn index(self) -> (r: usize)
        ensures
            r == self.spec_index(),
    {
        match self {
            DatabaseItemID::Device(i) => i,
            DatabaseItemID::Chat(i) => i,
            DatabaseItemID::Folder(i) => i,
            DatabaseItemID::File(i) => i,
            DatabaseItemID::Tag(i) => i,
            DatabaseItemID::AccessMode(i) => i,
            DatabaseItemID::UserData => 0,
            DatabaseItemID::ChatConfiguration(i) => i,
        }
    }

    /// The id of the item of `kind` at `index`.
    #[verifier::when_used_as_spec(spec_of)]
    pub fn of(kind: ItemKind, index: usize) -> (r: DatabaseItemID)
        ensures
            r == DatabaseItemID::spec_of(kind, index),
    {
        match kind {
            ItemKind::Device => DatabaseItemID::Device(index),
            ItemKind::Chat => DatabaseItemID::Chat(index),
            ItemKind::Folder => DatabaseItemID::Folder(index),
            ItemKind::File => DatabaseItemID::File(index),
            ItemKind::Tag => DatabaseItemID::Tag(index),
            ItemKind::AccessMode => DatabaseItemID::AccessMode(index),
            ItemKind::UserData => DatabaseItemID::UserData,
            ItemKind::ChatConfiguration => DatabaseItemID::ChatConfiguration(index),
        }
    }
}

/// An item of the database.
#[derive(PartialEq, Eq, Debug)]
pub enum DatabaseItem {
    Device(Device),
    Chat(Chat),
    Folder(ProxFolder),
    File(ProxFile),
    Tag(Tag),
    AccessMode(AccessMode),
    UserData(UserData),
    ChatConfig(ChatConfiguration),
}

/// The mathematical value of a [`DatabaseItem`].
pub enum DatabaseItemView {
    Device(DeviceView),
    Chat(ChatView),
    Folder(ProxFolderView),
    File(ProxFileView),
    Tag(TagView),
    AccessMode(AccessModeView),
    UserData(UserDataView),
    ChatConfig(ChatConfigurationView),
}

impl View for DatabaseItem {
    type V = DatabaseItemView;

    open spec fn view(&self) -> DatabaseItemView {
        match self {
            DatabaseItem::Device(x) => DatabaseItemView::Device(x@),
            DatabaseItem::Chat(x) => DatabaseItemView::Chat(x@),
            DatabaseItem::Folder(x) => DatabaseItemView::Folder(x@),
            DatabaseItem::File(x) => DatabaseItemView::File(x@),
            DatabaseItem::Tag(x) => DatabaseItemView::Tag(x@),
            DatabaseItem::AccessMode(x) => DatabaseItemView::AccessMode(x@),
            DatabaseItem::UserData(x) => DatabaseItemView::UserData(x@),
            DatabaseItem::ChatConfig(x) => DatabaseItemView::ChatConfig(x@),
        }
    }
}

impl Clone for DatabaseItem {
    fn clone(&self) -> (r: Self)
        ensures
            r@ == self@,
    {
        match self {
            DatabaseItem::Device(x) => DatabaseItem::Device(x.clone()),
            DatabaseItem::Chat(x) => DatabaseItem::Chat(x.clone()),
            DatabaseItem::Folder(x) => DatabaseItem::Folder(x.clone()),
            DatabaseItem::File(x) => DatabaseItem::File(x.clone()),
            DatabaseItem::Tag(x) => DatabaseItem::Tag(x.clone()),
            DatabaseItem::AccessMode(x) => DatabaseItem::AccessMode(x.clone()),
            DatabaseItem::UserData(x) => DatabaseItem::UserData(x.clone()),
            DatabaseItem::ChatConfig(x) => DatabaseItem::ChatConfig(x.clone()),
        }
    }
}

impl DatabaseItemView {
    /// The id that the item carries.
    pub open spec fn id(self) -> DatabaseItemID {
        match self {
            DatabaseItemView::AccessMode(x) => DatabaseItemID::AccessMode(x.id),
            DatabaseItemView::Chat(x) => DatabaseItemID::Chat(x.id),
            DatabaseItemView::Device(x) => DatabaseItemID::Device(x.id),
            DatabaseItemView::File(x) => DatabaseItemID::File(x.id),
            DatabaseItemView::Folder(x) => DatabaseItemID::Folder(x.id),
            DatabaseItemView::Tag(x) => DatabaseItemID::Tag(x.id),
            DatabaseItemView::ChatConfig(x) => DatabaseItemID::ChatConfiguration(x.id),
            DatabaseItemView::UserData(_) => DatabaseItemID::UserData,
        }
    }

    /// The item with the position `index` as its id.
    pub open spec fn with_index(self, index: usize) -> DatabaseItemView {
        match self {
            DatabaseItemView::AccessMode(x) => DatabaseItemView::AccessMode(
                AccessModeView { id: index, ..x },
            ),
            DatabaseItemView::Chat(x) => DatabaseItemView::Chat(ChatView { id: index, ..x }),
            DatabaseItemView::Device(x) => DatabaseItemView::Device(DeviceView { id: index, ..x }),
            DatabaseItemView::File(x) => DatabaseItemView::File(ProxFileView { id: index, ..x }),
            DatabaseItemView::Folder(x) => DatabaseItemView::Folder(
                ProxFolderView { id: index, ..x },
            ),
            DatabaseItemView::Tag(x) => DatabaseItemView::Tag(TagView { id: index, ..x }),
            DatabaseItemView::ChatConfig(x) => DatabaseItemView::ChatConfig(
                ChatConfigurationView { id: index, ..x },
            ),
            DatabaseItemView::UserData(x) => DatabaseItemView::UserData(x),
        }
    }

    /// The time that the item was made at, which tells it from every other
    /// item that may come to stand at its position. The record of the user
    /// has none.
    pub open spec fn made_at(self) -> Option<crate::database::timestamp::Timestamp> {
        match self {
            DatabaseItemView::AccessMode(x) => Some(x.added_on),
            DatabaseItemView::Chat(x) => Some(x.start_date),
            DatabaseItemView::Device(x) => Some(x.added_on),
            DatabaseItemView::File(x) => Some(x.added_at),
            DatabaseItemView::Folder(x) => Some(x.added_at),
            DatabaseItemView::Tag(x) => Some(x.created_at),
            DatabaseItemView::ChatConfig(x) => Some(x.created_on),
            DatabaseItemView::UserData(_) => None,
        }
    }
}

impl DatabaseItem {
    /// The id that the item carries.
    pub fn get_id(&self) -> (r: DatabaseItemID)
        ensures
            r == self@.id(),
    {
        match self {
            DatabaseItem::AccessMode(access_mode) => DatabaseItemID::AccessMode(
                access_mode.get_id(),
            ),
            DatabaseItem::Chat(chat) => DatabaseItemID::Chat(chat.get_id()),
            DatabaseItem::Device(device) => DatabaseItemID::Device(device.get_id()),
            DatabaseItem::File(file) => DatabaseItemID::File(file.get_id()),
            DatabaseItem::Folder(folder) => DatabaseItemID::Folder(folder.get_id()),
            DatabaseItem::Tag(tag) => DatabaseItemID::Tag(tag.get_id()),
            DatabaseItem::ChatConfig(config) => DatabaseItemID::ChatConfiguration(config.id),
            DatabaseItem::UserData(_) => DatabaseItemID::UserData,
        }
    }

    /// Gives the item the position of `new_id` as its id. The id has to be
    /// of the item's kind.
    pub fn set_id(&mut self, new_id: DatabaseItemID)
        requires
            new_id.kind() == old(self)@.id().kind(),
        ensures
            final(self)@ == old(self)@.with_index(new_id.index()),
    {
        let index = new_id.index();
        match self {
            DatabaseItem::AccessMode(access_mode) => access_mode.set_id(index),
            DatabaseItem::Chat(chat) => chat.id = index,
            DatabaseItem::Device(device) => device.id = index,
            DatabaseItem::File(file) => file.id = index,
            DatabaseItem::Folder(folder) => folder.id = index,
            DatabaseItem::Tag(tag) => tag.set_id(index),
            DatabaseItem::ChatConfig(config) => config.id = index,
            DatabaseItem::UserData(_) => (),
        }
    }
}

impl ProxDatabaseView {
    /// The item that `id` names, if there is one.
    pub open spec fn item(self, id: DatabaseItemID) -> Option<DatabaseItemView> {
        match id {
            DatabaseItemID::Device(i) => if i < self.devices.len() {
                Some(DatabaseItemView::Device(self.devices[i as int]))
            } else {
                None
            },
            DatabaseItemID::Chat(i) => if self.chats.contains_key(i) {
                Some(DatabaseItemView::Chat(self.chats[i]))
            } else {
                None
            },
            DatabaseItemID::Folder(i) => if i < self.folders.len() {
                Some(DatabaseItemView::Folder(self.folders[i as int]))
            } else {
                None
            },
            DatabaseItemID::File(i) => if i < self.files.len() {
                Some(DatabaseItemView::File(self.files[i as int]))
            } else {
                None
            },
            DatabaseItemID::Tag(i) => if i < self.tags.len() {
                Some(DatabaseItemView::Tag(self.tags[i as int]))
            } else {
                None
            },
            DatabaseItemID::AccessMode(i) => if i < self.access_modes.len() {
                Some(DatabaseItemView::AccessMode(self.access_modes[i as int]))
            } else {
                None
            },
            DatabaseItemID::UserData => Some(DatabaseItemView::UserData(self.user)),
            DatabaseItemID::ChatConfiguration(i) => if i < self.configs.len() {
                Some(DatabaseItemView::ChatConfig(self.configs[i as int]))
            } else {
                None
            },
        }
    }

    /// The access modes with `tag` added to the tags of the global mode.
    pub open spec fn modes_with_tag(self, tag: usize) -> Seq<AccessModeView> {
        self.access_modes.update(
            0,
            AccessModeView { tags: self.access_modes[0].tags.insert(tag), ..self.access_modes[0] },
        )
    }

    /// Whether what `item` holds can be kept: a chat says truly whether a
    /// reply is awaited, and a configuration has the tools of its settings
    /// and the global access mode.
    pub open spec fn content_ok(item: DatabaseItemView) -> bool {
        match item {
            DatabaseItemView::Chat(c) => c.wf(),
            DatabaseItemView::ChatConfig(c) => c.wf(),
            _ => true,
        }
    }

    /// Whether `item` can be added at the end of the items of its kind: its
    /// content can be kept, there is room for one more item of its kind, and
    /// a tag has no parent or one that exists.
    pub open spec fn accepts_new(self, item: DatabaseItemView) -> bool {
        &&& Self::content_ok(item)
        &&& self.count(item.id().kind()) < usize::MAX
        &&& match item {
            DatabaseItemView::Tag(t) => match t.parent {
                Some(p) => p < self.tags.len(),
                None => true,
            },
            _ => true,
        }
    }

    /// The database with `item` added at the end of the items of its kind,
    /// under the next id. A new tag joins the tags of the global access
    /// mode. The record of the user takes the place of the one before.
    pub open spec fn with_added(self, item: DatabaseItemView) -> ProxDatabaseView {
        match item {
            DatabaseItemView::Device(x) => ProxDatabaseView {
                devices: self.devices.push(DeviceView { id: self.devices.len() as usize, ..x }),
                ..self
            },
            DatabaseItemView::Chat(x) => ProxDatabaseView {
                chats: self.chats.insert(
                    self.chats.len() as usize,
                    ChatView { id: self.chats.len() as usize, ..x },
                ),
                ..self
            },
            DatabaseItemView::Folder(x) => ProxDatabaseView {
                folders: self.folders.push(
                    ProxFolderView { id: self.folders.len() as usize, ..x },
                ),
                ..self
            },
            DatabaseItemView::File(x) => ProxDatabaseView {
                files: self.files.push(ProxFileView { id: self.files.len() as usize, ..x }),
                ..self
            },
            DatabaseItemView::Tag(x) => ProxDatabaseView {
                tags: self.tags.push(TagView { id: self.tags.len() as usize, ..x }),
                access_modes: self.modes_with_tag(self.tags.len() as usize),
                ..self
            },
            DatabaseItemView::AccessMode(x) => ProxDatabaseView {
                access_modes: self.access_modes.push(
                    AccessModeView { id: self.access_modes.len() as usize, ..x },
                ),
                ..self
            },
            DatabaseItemView::UserData(x) => ProxDatabaseView { user: x, ..self },
            DatabaseItemView::ChatConfig(x) => ProxDatabaseView {
                configs: self.configs.push(
                    ChatConfigurationView { id: self.configs.len() as usize, ..x },
                ),
                ..self
            },
        }
    }
}

impl ProxDatabase {
    /// The empty database for the user `pseudonym`, but for the times it
    /// holds, which are those of `made`: no items but the global access
    /// mode, and nothing that guides scans.
    pub open spec fn empty_for(
        pseudonym: Seq<char>,
        password_hash: Seq<char>,
        made: ProxDatabaseView,
    ) -> ProxDatabaseView {
        ProxDatabaseView {
            files: Seq::empty(),
            folders: Seq::empty(),
            chats: Map::empty(),
            tags: Seq::empty(),
            user: UserDataView {
                name: None,
                pseudonym,
                password_hash,
                interests: Seq::empty(),
                last_updated: made.user.last_updated,
                current_description: "The user is currently anonymous, called by the name : "@
                    + pseudonym,
            },
            database_folder: "a/a/a/a/a/a/a/a"@,
            devices: Seq::empty(),
            access_modes: seq![
                AccessModeView {
                    id: 0,
                    tags: Set::empty(),
                    added_on: made.access_modes[0].added_on,
                    name: "global"@,
                },
            ],
            configs: Seq::empty(),
            scan_rules: ScanRules {
                starting_points: Set::empty(),
                ignored_folders: Seq::empty(),
                ignored_names: Seq::empty(),
                ignored_extensions: Seq::empty(),
            },
        }
    }

    /// The database made of the given containers.
    pub fn from_parts(
        files: Files,
        folders: Folders,
        chats: Chats,
        tags: Tags,
        personal_info: PersonalInformation,
        database_folder: String,
        devices: Devices,
        access_modes: AccessModes,
        configs: ChatConfigurations,
    ) -> (r: ProxDatabase)
        ensures
            r@ == (ProxDatabaseView {
                files: files@,
                folders: folders@,
                chats: chats@,
                tags: tags@,
                user: personal_info@,
                database_folder: database_folder@,
                devices: devices@,
                access_modes: access_modes@,
                configs: configs@,
                scan_rules: folders.rules(),
            }),
    {
        ProxDatabase {
            files,
            folders,
            chats,
            tags,
            personal_info,
            database_folder,
            devices,
            access_modes,
            configs,
        }
    }

    /// The database kept under `database_folder`: the one that was read
    /// from there, where one was; else an empty one for the user
    /// `pseudonym`, to be kept there.
    pub fn new(
        pseudonym: String,
        password_hash: String,
        database_folder: String,
        on_disk: Option<ProxDatabase>,
    ) -> (r: ProxDatabase)
        ensures
            match on_disk {
                Some(database) => r@ == database@,
                None => r@ == (ProxDatabaseView {
                    database_folder: database_folder@,
                    ..ProxDatabase::empty_for(pseudonym@, password_hash@, r@)
                }) && r@.wf(),
            },
    {
        match on_disk {
            Some(database) => database,
            None => {
                let mut fresh = ProxDatabase::new_just_data(pseudonym, password_hash);
                fresh.database_folder = database_folder;
                fresh
            },
        }
    }

    /// An empty database for the user `pseudonym`: no items but the global
    /// access mode.
    pub fn new_just_data(pseudonym: String, password_hash: String) -> (r: ProxDatabase)
        ensures
            r@ == ProxDatabase::empty_for(pseudonym@, password_hash@, r@),
            r@.wf(),
    {
        let r = ProxDatabase {
            files: Files::new(),
            folders: Folders::new(),
            tags: Tags::new(),
            personal_info: PersonalInformation::new(pseudonym, password_hash),
            database_folder: "a/a/a/a/a/a/a/a".to_string(),
            chats: Chats::new(),
            devices: Devices::new(),
            access_modes: AccessModes::new(),
            configs: ChatConfigurations::new(),
        };
        proof {
            assert(r@.access_modes =~= seq![r@.access_modes[0]]);
        }
        r
    }

    /// Gives a file or a folder a description and tags.
    pub fn add_desc_and_tags(
        &mut self,
        desc_type: DescriptionTarget,
        desc: Description,
        tags: HashSet<usize>,
    )
        requires
            match desc_type {
                DescriptionTarget::File(id) => id < old(self)@.files.len(),
                DescriptionTarget::Folder(id) => id < old(self)@.folders.len(),
            },
        ensures
            final(self)@ == match desc_type {
                DescriptionTarget::File(id) => ProxDatabaseView {
                    files: old(self)@.files.update(
                        id as int,
                        ProxFileView { desc: Some(desc@), tags: tags@, ..old(self)@.files[id as int] },
                    ),
                    ..old(self)@
                },
                DescriptionTarget::Folder(id) => ProxDatabaseView {
                    folders: old(self)@.folders.update(
                        id as int,
                        ProxFolderView {
                            desc: Some(desc@),
                            tags: tags@,
                            ..old(self)@.folders[id as int]
                        },
                    ),
                    ..old(self)@
                },
            },
    {
        match desc_type {
            DescriptionTarget::File(id) => self.files.get_file_mut(id).add_desc_tags(desc, tags),
            DescriptionTarget::Folder(id) => self.folders.get_folder_mut(id).add_desc_tags(
                desc,
                tags,
            ),
        }
    }

    /// Whether all holds that must hold of the database.
    pub fn is_well_formed(&self) -> (r: bool)
        ensures
            r == self@.wf(),
    {
        if !(self.files.is_dense() && self.folders.is_dense() && self.chats.is_well_formed()
            && self.tags.is_well_formed() && self.devices.is_dense()
            && self.access_modes.is_dense() && self.configs.is_well_formed()) {
            return false;
        }
        let modes = self.access_modes.get_modes();
        if modes.len() < 1 {
            return false;
        }
        proof {
            assert(self@.access_modes[0] == modes@[0]@);
        }
        modes[0].holds_all_tags(self.tags.get_tags().len())
    }

    /// The number of items of `kind`.
    pub fn count(&self, kind: ItemKind) -> (r: usize)
        ensures
            r == self@.count(kind),
    {
        match kind {
            ItemKind::Device => self.devices.get_devices().len(),
            ItemKind::Chat => self.chats.len(),
            ItemKind::Folder => self.folders.number_of_folders(),
            ItemKind::File => self.files.len(),
            ItemKind::Tag => self.tags.get_tags().len(),
            ItemKind::AccessMode => self.access_modes.get_modes().len(),
            ItemKind::UserData => 1,
            ItemKind::ChatConfiguration => self.configs.get_configs().len(),
        }
    }

    /// A copy of the item that `id` names, if there is one.
    pub fn get_item(&self, id: DatabaseItemID) -> (r: Option<DatabaseItem>)
        ensures
            match r {
                Some(item) => self@.item(id) == Some(item@),
                None => self@.item(id) is None,
            },
    {
        match id {
            DatabaseItemID::Tag(i) => {
                let all = self.tags.get_tags();
                if i < all.len() {
                    Some(DatabaseItem::Tag(all[i].clone()))
                } else {
                    None
                }
            },
            DatabaseItemID::AccessMode(i) => {
                let all = self.access_modes.get_modes();
                if i < all.len() {
                    Some(DatabaseItem::AccessMode(all[i].clone()))
                } else {
                    None
                }
            },
            DatabaseItemID::Device(i) => {
                let all = self.devices.get_devices();
                if i < all.len() {
                    Some(DatabaseItem::Device(all[i].clone()))
                } else {
                    None
                }
            },
            DatabaseItemID::Chat(i) => match self.chats.get_chat(i) {
                Some(chat) => Some(DatabaseItem::Chat(chat)),
                None => None,
            },
            DatabaseItemID::File(i) => if i < self.files.len() {
                Some(DatabaseItem::File(self.files.get_file_by_id(i).clone()))
            } else {
                None
            },
            DatabaseItemID::Folder(i) => if i < self.folders.number_of_folders() {
                Some(DatabaseItem::Folder(self.folders.get_folder_by_id(i).clone()))
            } else {
                None
            },
            DatabaseItemID::ChatConfiguration(i) => {
                let all = self.configs.get_configs();
                if i < all.len() {
                    Some(DatabaseItem::ChatConfig(all[i].clone()))
                } else {
                    None
                }
            },
            DatabaseItemID::UserData => Some(
                DatabaseItem::UserData(self.personal_info.user_data.clone()),
            ),
        }
    }

    /// Brings every reference to an item of `kind` up to date after an
    /// insertion at `at`, in one pass over all containers.
    pub fn shift_references(&mut self, kind: ItemKind, at: usize)
        requires
            chats_dense(old(self)@.chats),
        ensures
            final(self)@ == old(self)@.references_shifted(kind, at),
    {
        self.files.shift_references(kind, at);
        self.folders.shift_references(kind, at);
        self.chats.shift_references(kind, at);
        self.tags.shift_references(kind, at);
        self.personal_info.user_data.shift_references(kind, at);
        self.access_modes.shift_references(kind, at);
        self.configs.shift_references(kind, at);
    }

    /// Adds `item` at the end of the items of its kind and returns the id
    /// that it got.
    pub fn add_item(&mut self, item: DatabaseItem) -> (id: DatabaseItemID)
        requires
            old(self)@.wf(),
            old(self)@.accepts_new(item@),
        ensures
            id == DatabaseItemID::of(item@.id().kind(), old(self)@.count(item@.id().kind()) as usize)
                || (item is UserData && id == DatabaseItemID::UserData),
            final(self)@ == old(self)@.with_added(item@),
            final(self)@.wf(),
    {
        proof {
            lemma_added_wf(old(self)@, item@);
        }
        match item {
            DatabaseItem::Tag(tag) => {
                let id = self.tags.add_tag_raw(tag);
                self.access_modes.associate_tag_to_mode(0, id);
                proof {
                    assert(self@.access_modes =~= old(self)@.modes_with_tag(id));
                    assert forall|t: usize| t < self@.tags.len() implies self@.access_modes[0].tags.contains(
                        t,
                    ) by {
                        if t < id {
                            assert(old(self)@.access_modes[0].tags.contains(t));
                        }
                    }
                    assert forall|i: int| 0 <= i < self@.access_modes.len() implies (
                    #[trigger] self@.access_modes[i]).id == i by {
                        assert(old(self)@.access_modes[i].id == i);
                    }
                }
                DatabaseItemID::Tag(id)
            },
            DatabaseItem::AccessMode(access_mode) => {
                let id = self.access_modes.add_mode(access_mode);
                DatabaseItemID::AccessMode(id)
            },
            DatabaseItem::Device(device) => {
                let id = self.devices.add_device(device);
                DatabaseItemID::Device(id)
            },
            DatabaseItem::Chat(chat) => {
                let id = self.chats.add_chat_raw(chat);
                DatabaseItemID::Chat(id)
            },
            DatabaseItem::File(file) => {
                let id = self.files.add_file_raw(file);
                DatabaseItemID::File(id)
            },
            DatabaseItem::Folder(folder) => {
                let id = self.folders.add_folder_raw(folder);
                DatabaseItemID::Folder(id)
            },
            DatabaseItem::ChatConfig(config) => {
                let id = self.configs.add_config(config);
                DatabaseItemID::ChatConfiguration(id)
            },
            DatabaseItem::UserData(user_data) => {
                self.personal_info.user_data = user_data;
                DatabaseItemID::UserData
            },
        }
    }
}

impl ProxDatabaseView {
    /// Whether `item` can be inserted at the position that is its id: its
    /// content can be kept, the position is at most the number of items of
    /// its kind, which leaves room for one more, the global access mode
    /// keeps its place, and a tag has no parent or one that exists once the
    /// tag is in and is not the tag itself, so that the tags stay a forest.
    pub open spec fn accepts_at(self, item: DatabaseItemView) -> bool {
        &&& Self::content_ok(item)
        &&& item.id().index() <= self.count(item.id().kind()) < usize::MAX
        &&& match item {
            DatabaseItemView::Tag(t) => match t.parent {
                Some(p) => p <= self.tags.len() && p != t.id,
                None => true,
            },
            DatabaseItemView::AccessMode(m) => m.id >= 1,
            _ => true,
        }
    }

    /// Whether `item` can take the place of the item that has its id: its
    /// content can be kept, that item exists, a tag has no parent or one
    /// that exists, the tags form a forest with the tag in its place, so
    /// that no tag becomes its own ancestor, and the global access mode
    /// keeps every tag.
    pub open spec fn accepts_update(self, item: DatabaseItemView) -> bool {
        &&& Self::content_ok(item)
        &&& self.item(item.id()) is Some
        &&& match item {
            DatabaseItemView::Tag(t) => tags_forest(self.tags.update(t.id as int, t)) && match t.parent {
                Some(p) => p < self.tags.len(),
                None => true,
            },
            DatabaseItemView::AccessMode(m) => m.id == 0 ==> forall|t: usize|
                t < self.tags.len() ==> m.tags.contains(t),
            _ => true,
        }
    }

    /// The database with `item` in the place of the item that has its id.
    pub open spec fn with_updated(self, item: DatabaseItemView) -> ProxDatabaseView {
        match item {
            DatabaseItemView::Device(x) => ProxDatabaseView {
                devices: self.devices.update(x.id as int, x),
                ..self
            },
            DatabaseItemView::Chat(x) => ProxDatabaseView {
                chats: self.chats.insert(x.id, x),
                ..self
            },
            DatabaseItemView::Folder(x) => ProxDatabaseView {
                folders: self.folders.update(x.id as int, x),
                ..self
            },
            DatabaseItemView::File(x) => ProxDatabaseView {
                files: self.files.update(x.id as int, x),
                ..self
            },
            DatabaseItemView::Tag(x) => ProxDatabaseView {
                tags: self.tags.update(x.id as int, x),
                ..self
            },
            DatabaseItemView::AccessMode(x) => ProxDatabaseView {
                access_modes: self.access_modes.update(x.id as int, x),
                ..self
            },
            DatabaseItemView::UserData(x) => ProxDatabaseView { user: x, ..self },
            DatabaseItemView::ChatConfig(x) => ProxDatabaseView {
                configs: self.configs.update(x.id as int, x),
                ..self
            },
        }
    }

    /// The database with `item` inserted at the position that is its id:
    /// every later item of its kind moves up by one, with its id, and every
    /// reference to such an item follows it. A new tag joins the tags of the
    /// global access mode. The record of the user takes the place of the
    /// one before.
    pub open spec fn with_inserted(self, item: DatabaseItemView) -> ProxDatabaseView {
        let s = self.references_shifted(item.id().kind(), item.id().index());
        match item {
            DatabaseItemView::Device(x) => ProxDatabaseView {
                devices: devices_inserted(s.devices, x),
                ..s
            },
            DatabaseItemView::Chat(x) => ProxDatabaseView {
                chats: chats_inserted(s.chats, x),
                ..s
            },
            DatabaseItemView::Folder(x) => ProxDatabaseView {
                folders: folders_inserted(s.folders, x),
                ..s
            },
            DatabaseItemView::File(x) => ProxDatabaseView { files: files_inserted(s.files, x), ..s },
            DatabaseItemView::Tag(x) => ProxDatabaseView {
                tags: tags_inserted(s.tags, x),
                access_modes: s.modes_with_tag(x.id),
                ..s
            },
            DatabaseItemView::AccessMode(x) => ProxDatabaseView {
                access_modes: modes_inserted(s.access_modes, x),
                ..s
            },
            DatabaseItemView::UserData(x) => ProxDatabaseView { user: x, ..self },
            DatabaseItemView::ChatConfig(x) => ProxDatabaseView {
                configs: configs_inserted(s.configs, x),
                ..s
            },
        }
    }

    /// Whether `item` carries the time that the item at its id was made at,
    /// which makes it that same item, changed. The record of the user is
    /// always the same item.
    pub open spec fn overwrites(self, item: DatabaseItemView) -> bool {
        match self.item(item.id()) {
            Some(stored) => stored.made_at() == item.made_at(),
            None => false,
        }
    }
}

/// An insertion leaves a well-formed database well formed.
pub proof fn lemma_inserted_wf(db: ProxDatabaseView, item: DatabaseItemView)
    requires
        db.wf(),
        db.accepts_at(item),
    ensures
        db.with_inserted(item).wf(),
{
    let kind = item.id().kind();
    let at = item.id().index();
    let s = db.references_shifted(kind, at);
    let r = db.with_inserted(item);
    if item is UserData {
        return ;
    }
    assert(files_dense(s.files)) by {
        assert forall|i: int| 0 <= i < s.files.len() implies (#[trigger] s.files[i]).id == i by {
            assert(db.files[i].id == i);
        }
    }
    assert(folders_dense(s.folders)) by {
        assert forall|i: int| 0 <= i < s.folders.len() implies (#[trigger] s.folders[i]).id
            == i by {
            assert(db.folders[i].id == i);
        }
    }
    assert(chats_dense(s.chats) && chats_valid(s.chats) && s.chats.len() == db.chats.len()) by {
        assert(s.chats.dom() =~= db.chats.dom());
        assert forall|k: usize| s.chats.contains_key(k) implies (#[trigger] s.chats[k]).id == k
            && s.chats[k].wf() by {
            assert(db.chats[k].id == k);
            assert(db.chats[k].wf());
        }
    }
    assert(tags_dense(s.tags)) by {
        assert forall|i: int| 0 <= i < s.tags.len() implies (#[trigger] s.tags[i]).id == i by {
            assert(db.tags[i].id == i);
        }
    }
    assert(devices_dense(s.devices));
    assert(modes_dense(s.access_modes)) by {
        assert forall|i: int| 0 <= i < s.access_modes.len() implies (
        #[trigger] s.access_modes[i]).id == i by {
            assert(db.access_modes[i].id == i);
        }
    }
    assert(configs_dense(s.configs)) by {
        assert forall|i: int| 0 <= i < s.configs.len() implies (#[trigger] s.configs[i]).id
            == i by {
            assert(db.configs[i].id == i);
        }
    }
    assert(configs_valid(s.configs)) by {
        assert forall|i: int| 0 <= i < s.configs.len() implies (#[trigger] s.configs[i]).wf() by {
            assert(db.configs[i].wf());
            crate::database::configuration::lemma_shifted_config_wf(db.configs[i], kind, at);
        }
    }
    if kind != ItemKind::Tag {
        assert(tag_parents(s.tags) =~= tag_parents(db.tags));
    } else {
        let x = item->Tag_0;
        assert(tag_parents(r.tags) =~= parents_inserted(tag_parents(db.tags), x.id, x.parent))
            by {
            assert forall|j: int| 0 <= j < r.tags.len() implies tag_parents(r.tags)[j]
                == parents_inserted(tag_parents(db.tags), x.id, x.parent)[j] by {
                if j < x.id {
                    assert(s.tags[j] == tag_shifted(db.tags[j], kind, at));
                } else if j > x.id {
                    assert(s.tags[j - 1] == tag_shifted(db.tags[j - 1], kind, at));
                }
            }
        }
        lemma_forest_after_insert(tag_parents(db.tags), x.id, x.parent);
    }
    match item {
        DatabaseItemView::Device(x) => {
            assert(parents_exist(s.tags)) by {
                assert(s.tags =~= db.tags);
            }
            assert(s.access_modes =~= db.access_modes);
            assert forall|i: int| 0 <= i < r.devices.len() implies (#[trigger] r.devices[i]).id
                == i by {
                if i > x.id {
                    assert(db.devices[i - 1].id == i - 1);
                } else if i < x.id {
                    assert(db.devices[i].id == i);
                }
            }
        },
        DatabaseItemView::Chat(x) => {
            assert(s.tags =~= db.tags);
            assert(s.access_modes =~= db.access_modes);
            crate::database::chats::lemma_inserted_dense(s.chats, x);
        },
        DatabaseItemView::Folder(x) => {
            assert(s.tags =~= db.tags);
            assert(s.access_modes =~= db.access_modes);
            assert forall|i: int| 0 <= i < r.folders.len() implies (#[trigger] r.folders[i]).id
                == i by {
                if i > x.id {
                    assert(s.folders[i - 1].id == i - 1);
                } else if i < x.id {
                    assert(s.folders[i].id == i);
                }
            }
        },
        DatabaseItemView::File(x) => {
            assert(s.tags =~= db.tags);
            assert(s.access_modes =~= db.access_modes);
            assert forall|i: int| 0 <= i < r.files.len() implies (#[trigger] r.files[i]).id
                == i by {
                if i > x.id {
                    assert(s.files[i - 1].id == i - 1);
                } else if i < x.id {
                    assert(s.files[i].id == i);
                }
            }
        },
        DatabaseItemView::Tag(x) => {
            assert forall|i: int| 0 <= i < r.tags.len() implies (#[trigger] r.tags[i]).id == i
                && match r.tags[i].parent {
                Some(p) => p < r.tags.len(),
                None => true,
            } by {
                if i > x.id {
                    assert(s.tags[i - 1].id == i - 1);
                    assert(db.tags[i - 1].id == i - 1);
                    assert(s.tags[i - 1] == tag_shifted(db.tags[i - 1], kind, at));
                } else if i < x.id {
                    assert(s.tags[i].id == i);
                    assert(db.tags[i].id == i);
                    assert(s.tags[i] == tag_shifted(db.tags[i], kind, at));
                }
            }
            assert forall|i: int| 0 <= i < r.access_modes.len() implies (
            #[trigger] r.access_modes[i]).id == i by {
                assert(s.access_modes[i].id == i);
            }
            assert forall|t: usize| t < r.tags.len() implies r.access_modes[0].tags.contains(
                t,
            ) by {
                let old_tags = db.access_modes[0].tags;
                assert(s.access_modes[0].tags == crate::database::ids::shifted_ids(old_tags, at));
                if t < at {
                    assert(old_tags.contains(t) && crate::database::ids::shifted(t, at) == t);
                } else if t > at {
                    let u = (t - 1) as usize;
                    assert(old_tags.contains(u) && crate::database::ids::shifted(u, at) == t);
                }
            }
        },
        DatabaseItemView::AccessMode(x) => {
            assert(s.tags =~= db.tags);
            assert forall|i: int| 0 <= i < r.access_modes.len() implies (
            #[trigger] r.access_modes[i]).id == i by {
                if i > x.id {
                    assert(s.access_modes[i - 1].id == i - 1);
                } else if i < x.id {
                    assert(s.access_modes[i].id == i);
                }
            }
            assert(r.access_modes[0] == db.access_modes[0]);
        },
        DatabaseItemView::UserData(x) => {},
        DatabaseItemView::ChatConfig(x) => {
            assert(s.tags =~= db.tags);
            assert(s.access_modes =~= db.access_modes);
            assert forall|i: int| 0 <= i < r.configs.len() implies (#[trigger] r.configs[i]).id
                == i && r.configs[i].wf() by {
                if i > x.id {
                    assert(s.configs[i - 1].id == i - 1);
                    assert(s.configs[i - 1].wf());
                } else if i < x.id {
                    assert(s.configs[i].id == i);
                    assert(s.configs[i].wf());
                }
            }
        },
    }
}

/// Adding an item that can be added leaves a well-formed database well formed.
pub proof fn lemma_added_wf(db: ProxDatabaseView, item: DatabaseItemView)
    requires
        db.wf(),
        db.accepts_new(item),
    ensures
        db.with_added(item).wf(),
{
    let r = db.with_added(item);
    match item {
        DatabaseItemView::Chat(x) => {
            let n = db.chats.len() as usize;
            assert(!db.chats.contains_key(n));
            assert(r.chats.dom() =~= db.chats.dom().insert(n));
        },
        DatabaseItemView::Tag(x) => {
            let n = db.tags.len();
            assert(tag_parents(r.tags) =~= tag_parents(db.tags).push(x.parent));
            lemma_forest_after_push(tag_parents(db.tags), x.parent);
            assert forall|t: usize| t < r.tags.len() implies r.access_modes[0].tags.contains(
                t,
            ) by {
                if t < n {
                    assert(db.access_modes[0].tags.contains(t));
                }
            }
            assert forall|i: int| 0 <= i < r.access_modes.len() implies (
            #[trigger] r.access_modes[i]).id == i by {
                assert(db.access_modes[i].id == i);
            }
        },
        _ => {},
    }
}

/// Putting an item in the place of the item at its id, where it can take
/// that place, leaves a well-formed database well formed.
pub proof fn lemma_updated_wf(db: ProxDatabaseView, item: DatabaseItemView)
    requires
        db.wf(),
        db.accepts_update(item),
    ensures
        db.with_updated(item).wf(),
{
    let r = db.with_updated(item);
    match item {
        DatabaseItemView::Chat(x) => {
            assert(r.chats.dom() =~= db.chats.dom());
        },
        DatabaseItemView::Tag(x) => {
            assert forall|i: int| 0 <= i < r.tags.len() implies (#[trigger] r.tags[i]).id == i
                && match r.tags[i].parent {
                Some(p) => p < r.tags.len(),
                None => true,
            } by {
                if i != x.id {
                    assert(r.tags[i] == db.tags[i]);
                }
            }
        },
        _ => {},
    }
}

/// Bringing references up to date leaves dense, well-formed chats dense and
/// well formed, and as many.
pub proof fn lemma_chats_shifted(chats: Map<usize, ChatView>, kind: ItemKind, at: usize)
    requires
        chats_dense(chats),
        chats_valid(chats),
    ensures
        chats_dense(chats.map_values(|c: ChatView| chat_shifted(c, kind, at))),
        chats_valid(chats.map_values(|c: ChatView| chat_shifted(c, kind, at))),
        chats.map_values(|c: ChatView| chat_shifted(c, kind, at)).len() == chats.len(),
{
    let s = chats.map_values(|c: ChatView| chat_shifted(c, kind, at));
    assert(s.dom() =~= chats.dom());
    assert forall|k: usize| s.contains_key(k) implies (#[trigger] s[k]).id == k && s[k].wf() by {
        assert(chats[k].id == k);
        assert(chats[k].wf());
    }
}

/// After an insertion every reference leads to the item that it led to
/// before: the inserted item stands at its id, and the item of its kind
/// that stood at `x` stands where `x` is moved to, under that id, with its
/// own references brought up to date.
pub proof fn lemma_insertion_keeps_items(db: ProxDatabaseView, item: DatabaseItemView, x: usize)
    requires
        db.wf(),
        db.accepts_at(item),
        !(item is UserData),
        x < db.count(item.id().kind()),
    ensures
        db.with_inserted(item).item(item.id()) == Some(item),
        db.references_shifted(item.id().kind(), item.id().index()).item(
            DatabaseItemID::spec_of(item.id().kind(), x),
        ) is Some,
        db.with_inserted(item).item(
            DatabaseItemID::spec_of(item.id().kind(), shifted(x, item.id().index())),
        ) == Some(
            db.references_shifted(item.id().kind(), item.id().index()).item(
                DatabaseItemID::spec_of(item.id().kind(), x),
            )->0.with_index(shifted(x, item.id().index())),
        ),
{
    let kind = item.id().kind();
    let at = item.id().index();
    let moved = shifted(x, at);
    lemma_chats_shifted(db.chats, kind, at);
    match item {
        DatabaseItemView::Chat(c) => {
            let chats = db.references_shifted(kind, at).chats;
            let after = chats_inserted(chats, c);
            assert(chats.contains_key(x));
            assert(after.contains_key(moved));
            assert(after.contains_key(c.id));
            if x >= at {
                assert((moved - 1) as usize == x);
            }
        },
        _ => {},
    }
}

/// An insertion moves no item of another kind: each stands where it stood,
/// with its references brought up to date. Once a tag is inserted, the
/// global access mode holds it as well.
pub proof fn lemma_insertion_keeps_other_kinds(
    db: ProxDatabaseView,
    item: DatabaseItemView,
    id: DatabaseItemID,
)
    requires
        db.wf(),
        db.accepts_at(item),
        !(item is UserData),
        id.kind() != item.id().kind(),
    ensures
        db.with_inserted(item).item(id) == if item is Tag && id == DatabaseItemID::AccessMode(0) {
            let global = db.references_shifted(ItemKind::Tag, item.id().index()).access_modes[0];
            Some(
                DatabaseItemView::AccessMode(
                    AccessModeView { tags: global.tags.insert(item.id().index()), ..global },
                ),
            )
        } else {
            db.references_shifted(item.id().kind(), item.id().index()).item(id)
        },
{
}

impl ProxDatabase {
    /// Inserts `access_mode` at the position that is its id.
    pub fn insert_access_mode(&mut self, access_mode: AccessMode)
        requires
            old(self)@.wf(),
            old(self)@.accepts_at(DatabaseItemView::AccessMode(access_mode@)),
        ensures
            final(self)@ == old(self)@.with_inserted(DatabaseItemView::AccessMode(access_mode@)),
            final(self)@.wf(),
    {
        let id = access_mode.get_id();
        self.shift_references(ItemKind::AccessMode, id);
        self.access_modes.insert_mode(access_mode);
        proof {
            lemma_inserted_wf(old(self)@, DatabaseItemView::AccessMode(access_mode@));
        }
    }

    /// Inserts `tag` at the position that is its id, and adds it to the tags
    /// of the global access mode.
    pub fn insert_tag(&mut self, tag: Tag)
        requires
            old(self)@.wf(),
            old(self)@.accepts_at(DatabaseItemView::Tag(tag@)),
        ensures
            final(self)@ == old(self)@.with_inserted(DatabaseItemView::Tag(tag@)),
            final(self)@.wf(),
    {
        let id = tag.get_id();
        self.shift_references(ItemKind::Tag, id);
        let ghost s = self@;
        self.tags.insert_tag(tag);
        self.access_modes.associate_tag_to_mode(0, id);
        proof {
            assert(self@.access_modes =~= s.modes_with_tag(id));
            lemma_inserted_wf(old(self)@, DatabaseItemView::Tag(tag@));
        }
    }

    /// Inserts `chat` at the position that is its id.
    pub fn insert_chat(&mut self, chat: Chat)
        requires
            old(self)@.wf(),
            old(self)@.accepts_at(DatabaseItemView::Chat(chat@)),
        ensures
            final(self)@ == old(self)@.with_inserted(DatabaseItemView::Chat(chat@)),
            final(self)@.wf(),
    {
        let id = chat.get_id();
        self.shift_references(ItemKind::Chat, id);
        proof {
            lemma_chats_shifted(old(self)@.chats, ItemKind::Chat, id);
        }
        self.chats.insert_chat(chat);
        proof {
            lemma_inserted_wf(old(self)@, DatabaseItemView::Chat(chat@));
        }
    }

    /// Inserts `file` at the position that is its id.
    pub fn insert_file(&mut self, file: ProxFile)
        requires
            old(self)@.wf(),
            old(self)@.accepts_at(DatabaseItemView::File(file@)),
        ensures
            final(self)@ == old(self)@.with_inserted(DatabaseItemView::File(file@)),
            final(self)@.wf(),
    {
        let id = file.get_id();
        self.shift_references(ItemKind::File, id);
        self.files.insert_file(file);
        proof {
            lemma_inserted_wf(old(self)@, DatabaseItemView::File(file@));
        }
    }

    /// Inserts `folder` at the position that is its id.
    pub fn insert_folder(&mut self, folder: ProxFolder)
        requires
            old(self)@.wf(),
            old(self)@.accepts_at(DatabaseItemView::Folder(folder@)),
        ensures
            final(self)@ == old(self)@.with_inserted(DatabaseItemView::Folder(folder@)),
            final(self)@.wf(),
    {
        let id = folder.get_id();
        self.shift_references(ItemKind::Folder, id);
        self.folders.insert_folder(folder);
        proof {
            lemma_inserted_wf(old(self)@, DatabaseItemView::Folder(folder@));
        }
    }

    /// Inserts `device` at the position that is its id.
    pub fn insert_device(&mut self, device: Device)
        requires
            old(self)@.wf(),
            old(self)@.accepts_at(DatabaseItemView::Device(device@)),
        ensures
            final(self)@ == old(self)@.with_inserted(DatabaseItemView::Device(device@)),
            final(self)@.wf(),
    {
        let id = device.get_id();
        self.shift_references(ItemKind::Device, id);
        self.devices.insert_device(device);
        proof {
            lemma_inserted_wf(old(self)@, DatabaseItemView::Device(device@));
        }
    }

    /// Inserts `config` at the position that is its id.
    pub fn insert_config(&mut self, config: ChatConfiguration)
        requires
            old(self)@.wf(),
            old(self)@.accepts_at(DatabaseItemView::ChatConfig(config@)),
        ensures
            final(self)@ == old(self)@.with_inserted(DatabaseItemView::ChatConfig(config@)),
            final(self)@.wf(),
    {
        let id = config.id;
        self.shift_references(ItemKind::ChatConfiguration, id);
        self.configs.insert_config(config);
        proof {
            lemma_inserted_wf(old(self)@, DatabaseItemView::ChatConfig(config@));
        }
    }

    /// Inserts `item` at the position that is its id.
    pub fn insert_directly(&mut self, item: DatabaseItem)
        requires
            old(self)@.wf(),
            old(self)@.accepts_at(item@),
        ensures
            final(self)@ == old(self)@.with_inserted(item@),
            final(self)@.wf(),
    {
        match item {
            DatabaseItem::AccessMode(access_mode) => self.insert_access_mode(access_mode),
            DatabaseItem::Chat(chat) => self.insert_chat(chat),
            DatabaseItem::Device(device) => self.insert_device(device),
            DatabaseItem::File(file) => self.insert_file(file),
            DatabaseItem::Folder(folder) => self.insert_folder(folder),
            DatabaseItem::Tag(tag) => self.insert_tag(tag),
            DatabaseItem::ChatConfig(config) => self.insert_config(config),
            DatabaseItem::UserData(user_data) => {
                self.personal_info.user_data = user_data;
            },
        }
    }

    /// Puts `item` in the place of the item that has its id.
    pub fn update_item(&mut self, item: DatabaseItem)
        requires
            old(self)@.wf(),
            old(self)@.accepts_update(item@),
        ensures
            final(self)@ == old(self)@.with_updated(item@),
            final(self)@.wf(),
    {
        match item {
            DatabaseItem::AccessMode(access_mode) => {
                self.access_modes.update_mode(access_mode);
            },
            DatabaseItem::Chat(chat) => {
                self.chats.update_chat(chat);
            },
            DatabaseItem::Device(device) => {
                self.devices.update_device(device);
            },
            DatabaseItem::File(file) => {
                self.files.update_file(file);
            },
            DatabaseItem::Folder(folder) => {
                self.folders.update_folder(folder);
            },
            DatabaseItem::Tag(tag) => {
                let ghost id = tag@.id;
                self.tags.update_tag(tag);
                proof {
                    assert forall|i: int| 0 <= i < self@.tags.len() implies (
                    #[trigger] self@.tags[i]).id == i && match self@.tags[i].parent {
                        Some(p) => p < self@.tags.len(),
                        None => true,
                    } by {
                        if i != id {
                            assert(self@.tags[i] == old(self)@.tags[i]);
                        }
                    }
                }
            },
            DatabaseItem::ChatConfig(config) => {
                self.configs.update_config(config);
            },
            DatabaseItem::UserData(user_data) => {
                self.personal_info.user_data = user_data;
            },
        }
    }

    /// Whether `item` can be added at the end of the items of its kind.
    pub fn can_add(&self, item: &DatabaseItem) -> (r: bool)
        ensures
            r == self@.accepts_new(item@),
    {
        if self.count(item.get_id().kind()) == usize::MAX {
            return false;
        }
        match item {
            DatabaseItem::Chat(chat) => chat.is_well_formed(),
            DatabaseItem::ChatConfig(config) => config.is_well_formed(),
            DatabaseItem::Tag(tag) => match tag.get_parent() {
                Some(p) => p < self.tags.get_tags().len(),
                None => true,
            },
            _ => true,
        }
    }

    /// Whether `item` can be inserted at the position that is its id.
    pub fn can_insert(&self, item: &DatabaseItem) -> (r: bool)
        ensures
            r == self@.accepts_at(item@),
    {
        let id = item.get_id();
        let count = self.count(id.kind());
        if !(id.index() <= count && count < usize::MAX) {
            return false;
        }
        match item {
            DatabaseItem::Chat(chat) => chat.is_well_formed(),
            DatabaseItem::ChatConfig(config) => config.is_well_formed(),
            DatabaseItem::Tag(tag) => match tag.get_parent() {
                Some(p) => p <= self.tags.get_tags().len() && p != tag.get_id(),
                None => true,
            },
            DatabaseItem::AccessMode(mode) => mode.get_id() >= 1,
            _ => true,
        }
    }

    /// Whether `item` can take the place of the item that has its id.
    pub fn can_update(&self, item: &DatabaseItem) -> (r: bool)
        ensures
            r == self@.accepts_update(item@),
    {
        match item {
            DatabaseItem::Chat(chat) => chat.is_well_formed() && self.chats.get_chats().contains_key(
                &chat.id,
            ),
            DatabaseItem::ChatConfig(config) => config.is_well_formed() && config.id
                < self.configs.get_configs().len(),
            DatabaseItem::Tag(tag) => tag.get_id() < self.tags.get_tags().len()
                && self.tags.is_forest_with(tag) && match tag.get_parent() {
                Some(p) => p < self.tags.get_tags().len(),
                None => true,
            },
            DatabaseItem::AccessMode(mode) => mode.get_id() < self.access_modes.get_modes().len()
                && (mode.get_id() != 0 || mode.holds_all_tags(self.tags.get_tags().len())),
            DatabaseItem::Device(device) => device.id < self.devices.get_devices().len(),
            DatabaseItem::File(file) => file.id < self.files.len(),
            DatabaseItem::Folder(folder) => folder.id < self.folders.number_of_folders(),
            DatabaseItem::UserData(_) => true,
        }
    }

    /// Whether `item` carries the time that the item at its id was made at.
    pub fn same_item(&self, item: &DatabaseItem) -> (r: bool)
        ensures
            r == self@.overwrites(item@),
    {
        match item {
            DatabaseItem::AccessMode(x) => {
                let all = self.access_modes.get_modes();
                x.get_id() < all.len() && all[x.get_id()].get_added_on().same_as(&x.get_added_on())
            },
            DatabaseItem::Chat(x) => match self.chats.get_chats().get(&x.id) {
                Some(stored) => stored.start_date.same_as(&x.start_date),
                None => false,
            },
            DatabaseItem::Device(x) => {
                let all = self.devices.get_devices();
                x.id < all.len() && all[x.id].added_on.same_as(&x.added_on)
            },
            DatabaseItem::File(x) => x.id < self.files.len() && self.files.get_file_by_id(
                x.id,
            ).added_at.same_as(&x.added_at),
            DatabaseItem::Folder(x) => x.id < self.folders.number_of_folders()
                && self.folders.get_folder_by_id(x.id).added_at.same_as(&x.added_at),
            DatabaseItem::Tag(x) => {
                let all = self.tags.get_tags();
                x.get_id() < all.len() && all[x.get_id()].get_created_at().same_as(
                    &x.get_created_at(),
                )
            },
            DatabaseItem::ChatConfig(x) => {
                let all = self.configs.get_configs();
                x.id < all.len() && all[x.id].created_on.same_as(&x.created_on)
            },
            DatabaseItem::UserData(_) => true,
        }
    }

    /// Overwrites the item at the id of `item` where `item` carries the time
    /// that it was made at, and inserts `item` at that id otherwise.
    /// Returns whether it overwrote.
    pub fn insert_or_update(&mut self, item: DatabaseItem) -> (r: bool)
        requires
            old(self)@.wf(),
            old(self)@.overwrites(item@) ==> old(self)@.accepts_update(item@),
            !old(self)@.overwrites(item@) ==> old(self)@.accepts_at(item@),
        ensures
            r == old(self)@.overwrites(item@),
            r ==> final(self)@ == old(self)@.with_updated(item@),
            !r ==> final(self)@ == old(self)@.with_inserted(item@),
            final(self)@.wf(),
    {
        if self.same_item(&item) {
            self.update_item(item);
            true
        } else {
            self.insert_directly(item);
            false
        }
    }
}

} // verus!
