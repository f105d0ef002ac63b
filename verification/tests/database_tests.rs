use proxima_backend::ai_interaction::tools::{
    AgentRecord, AgentRegistry, AgentStatus, ProximaTool, ProximaToolData, Tools,
};
use proxima_backend::database::access_modes::{AccessMode, AccessModes};
use proxima_backend::database::chats::{Chat, Chats};
use proxima_backend::database::configuration::{ChatConfiguration, ChatConfigurations, ChatSetting};
use proxima_backend::database::context::{ContextData, ContextPart, ContextPosition, WholeContext};
use proxima_backend::database::description::{Description, DescriptionTarget};
use proxima_backend::database::devices::{Device, DeviceType, Devices};
use proxima_backend::database::files::{Files, NewFile, ProxFile};
use proxima_backend::database::folders::{Folders, NewFolder, ProxFolder, RecursivityLevel};
use proxima_backend::database::handler::{
    DatabaseError, DatabaseHandler, DatabaseInfoReply, DatabaseInfoRequest, DatabaseReplyVariant,
    DatabaseRequest, DatabaseRequestVariant, HandlerOutcome,
};
use proxima_backend::database::ids::{clone_ids, shift_id, shift_ids, ItemKind};
use proxima_backend::database::tags::{NewTag, Tag, Tags};
use proxima_backend::database::timestamp::Timestamp;
use proxima_backend::database::user::PersonalInformation;
use proxima_backend::database::{DatabaseItem, DatabaseItemID, ProxDatabase};
use std::collections::HashSet;

fn s(x: &str) -> String {
    x.to_string()
}

fn set(ids: &[usize]) -> HashSet<usize> {
    ids.iter().copied().collect()
}

fn device(name: &str) -> Device {
    Device::new(0, s(name), DeviceType::Laptop, s("linux"), s("model"))
}

fn tag(name: &str, parent: Option<usize>) -> Tag {
    Tag::new(0, s(name), Description::new(s("d")), parent)
}

fn chat(parts: Vec<ContextPart>) -> Chat {
    let mut chats = Chats::new();
    let id = chats.create_chat(WholeContext::new(parts), None, 0, None);
    chats.get_chat(id).unwrap()
}

fn user_part(text: &str) -> ContextPart {
    ContextPart::new(vec![ContextData::Text(s(text))], ContextPosition::User)
}

fn file(path: &str, tags: &[usize], device: usize) -> ProxFile {
    ProxFile {
        id: 0,
        absolute_path: s(path),
        tags: set(tags),
        desc: None,
        name: s("f"),
        extension: None,
        from_device: device,
        added_at: Timestamp::new(1, 0),
        last_modified: Timestamp::new(1, 0),
        access_modes: set(&[0]),
    }
}

fn handler() -> DatabaseHandler {
    DatabaseHandler::new(ProxDatabase::new_just_data(s("ada"), s("hash"))).unwrap()
}

fn reply(h: &mut DatabaseHandler, variant: DatabaseRequestVariant, key: Option<&str>) -> DatabaseReplyVariant {
    match h.handle_request(DatabaseRequest::new(variant, key.map(s))) {
        HandlerOutcome::Reply(reply) => reply,
        other => panic!("unexpected outcome {:?}", other),
    }
}

fn new_key(h: &mut DatabaseHandler) -> String {
    match reply(h, DatabaseRequestVariant::NewAuthKey, None) {
        DatabaseReplyVariant::NewAuth(key) => key,
        other => panic!("unexpected reply {:?}", other),
    }
}

fn updates(h: &mut DatabaseHandler, key: &str) -> Vec<(DatabaseItemID, DatabaseItem)> {
    match reply(h, DatabaseRequestVariant::Info(DatabaseInfoRequest::UnknownUpdates { access_key: s(key) }), None) {
        DatabaseReplyVariant::Info(DatabaseInfoReply::UnknownUpdates { updates }) => updates,
        other => panic!("unexpected reply {:?}", other),
    }
}

fn ids_are_dense(db: &ProxDatabase) {
    for (i, d) in db.devices.get_devices().iter().enumerate() {
        assert_eq!(d.id, i);
    }
    for (i, t) in db.tags.get_tags().iter().enumerate() {
        assert_eq!(t.get_id(), i);
        if let Some(p) = t.get_parent() {
            assert!(p < db.tags.get_tags().len());
        }
        assert!(db.access_modes.get_modes()[0].get_tags().contains(&i));
    }
    for (i, m) in db.access_modes.get_modes().iter().enumerate() {
        assert_eq!(m.get_id(), i);
    }
    for (i, c) in db.configs.get_configs().iter().enumerate() {
        assert_eq!(c.id, i);
        assert!(c.is_well_formed());
    }
    for i in 0..db.files.len() {
        assert_eq!(db.files.get_file_by_id(i).get_id(), i);
    }
    for i in 0..db.folders.number_of_folders() {
        assert_eq!(db.folders.get_folder_by_id(i).get_id(), i);
    }
    assert_eq!(db.chats.get_chats().len(), db.chats.len());
    for i in 0..db.chats.len() {
        let c = db.chats.get_chats().get(&i).unwrap();
        assert_eq!(c.id, i);
        assert!(c.is_well_formed());
    }
}

#[test]
fn timestamps_compare_by_both_fields() {
    let a = Timestamp::new(5, 7);
    assert!(a.same_as(&Timestamp { seconds: 5, nanos: 7 }));
    assert!(!a.same_as(&Timestamp::new(5, 8)));
    assert!(!a.same_as(&Timestamp::new(6, 7)));
}

#[test]
fn new_items_carry_a_recent_time() {
    let d = device("a");
    assert!(d.added_on.seconds > 1_600_000_000);
    assert!(d.added_on.nanos < 2_000_000_000);
}

#[test]
fn id_shifts_move_later_references_up() {
    assert_eq!(shift_id(3, 5), 3);
    assert_eq!(shift_id(5, 5), 6);
    assert_eq!(shift_id(9, 5), 10);
    assert_eq!(shift_id(usize::MAX, 5), usize::MAX);
    assert_eq!(shift_ids(&set(&[0, 2, 3, 7]), 3), set(&[0, 2, 4, 8]));
    assert_eq!(shift_ids(&set(&[]), 0), set(&[]));
    assert_eq!(clone_ids(&set(&[4, 1])), set(&[1, 4]));
}

#[test]
fn devices_get_dense_ids() {
    let mut devices = Devices::new();
    assert_eq!(devices.add_device(device("a")), 0);
    assert_eq!(devices.add_device(device("b")), 1);
    let mut changed = device("b2");
    changed.id = 1;
    devices.update_device(changed);
    assert_eq!(devices.get_devices()[1].device_name, "b2");
    let mut inserted = device("c");
    inserted.id = 0;
    devices.insert_device(inserted);
    let names: Vec<&str> = devices.get_devices().iter().map(|d| d.device_name.as_str()).collect();
    assert_eq!(names, vec!["c", "a", "b2"]);
    let ids: Vec<usize> = devices.get_devices().iter().map(|d| d.id).collect();
    assert_eq!(ids, vec![0, 1, 2]);
    devices.get_devices_mut().pop();
    assert_eq!(devices.get_devices().len(), 2);
}

#[test]
fn tags_are_found_by_name_and_parents_are_checked() {
    let mut tags = Tags::new();
    assert_eq!(tags.add_tag(NewTag::new(s("a"), Description::new(s("da")), Some(9))), 0);
    assert_eq!(tags.get_tags()[0].get_parent(), None);
    assert_eq!(tags.add_tag(NewTag::new(s("b"), Description::new(s("db")), Some(0))), 1);
    assert_eq!(tags.get_tags()[1].get_parent(), Some(0));
    assert_eq!(tags.get_tagid_of(s("b")), Some(1));
    assert_eq!(tags.get_tagid_of(s("zz")), None);
    assert_eq!(tags.get_tag_from_tagid(1).unwrap().get_name(), "b");
    assert_eq!(tags.get_tag_from_tagid(1).unwrap().get_desc().get_text(), "db");
    assert!(tags.get_tag_from_tagid(2).is_none());
    let id = tags.add_tag_with_parent_name(NewTag::new(s("c"), Description::new(s("dc")), None), Some(s("new parent")));
    assert_eq!(id, 3);
    assert_eq!(tags.get_tags()[2].get_name(), "new parent");
    assert_eq!(tags.get_tags()[2].get_desc().get_text(), "Missing description");
    assert_eq!(tags.get_tags()[3].get_parent(), Some(2));
    let id = tags.add_tag_with_parent_name(NewTag::new(s("d"), Description::new(s("dd")), Some(1)), Some(s("a")));
    assert_eq!(id, 4);
    assert_eq!(tags.get_tags()[4].get_parent(), Some(1));
    assert_eq!(tags.add_tag_raw(tag("e", None)), 5);
    let mut renamed = tag("a2", None);
    renamed.set_id(0);
    tags.update_tag(renamed);
    assert_eq!(tags.get_tags()[0].get_name(), "a2");
    tags.get_tags_mut().clear();
    assert_eq!(tags.get_tags().len(), 0);
}

#[test]
fn access_modes_start_with_the_global_mode() {
    let mut modes = AccessModes::new();
    assert_eq!(modes.get_modes().len(), 1);
    assert_eq!(modes.get_modes()[0].get_name(), "global");
    assert_eq!(modes.get_modes()[0].get_id(), 0);
    assert_eq!(modes.add_mode(AccessMode::new(9, set(&[]), s("work"))), 1);
    assert!(modes.associate_tag_to_mode(1, 4));
    assert!(!modes.associate_tag_to_mode(1, 4));
    assert!(!modes.associate_tag_to_mode(0, 4));
    assert!(modes.get_modes()[0].get_tags().contains(&4));
    assert_eq!(modes.get_modes()[1].get_tags(), &set(&[4]));
    assert!(modes.get_modes()[0].holds_all_tags(0));
    assert!(!modes.get_modes()[0].holds_all_tags(5));
    let mut home = AccessMode::new(1, set(&[1]), s("home"));
    home.set_id(1);
    modes.update_mode(home);
    assert_eq!(modes.get_modes()[1].get_name(), "home");
    modes.get_modes_mut().truncate(1);
    assert_eq!(modes.get_modes().len(), 1);
}

#[test]
fn chats_track_whether_a_reply_is_awaited() {
    let mut c = chat(vec![user_part("hi")]);
    assert!(!c.is_waiting_on_response());
    assert!(c.last_response_is_user());
    assert!(c.is_well_formed());
    c.add_to_context(ContextPart::new(vec![], ContextPosition::AI));
    assert!(c.is_waiting_on_response());
    assert!(!c.last_response_is_user());
    c.add_to_context(ContextPart::new(vec![], ContextPosition::System));
    assert!(!c.is_waiting_on_response());
    assert_eq!(c.get_context().len(), 3);
    assert_eq!(c.get_title(), &None);
    assert_eq!(c.get_session_id(), &None);
    assert_eq!(c.get_id(), 0);
    c.waiting_on_response = true;
    assert!(!c.is_well_formed());
    assert!(!chat(vec![]).is_waiting_on_response());
}

#[test]
fn chats_insert_moves_later_chats_up() {
    let mut chats = Chats::new();
    for name in ["a", "b", "c"] {
        chats.add_chat_raw(chat(vec![user_part(name)]));
    }
    let mut inserted = chat(vec![user_part("new")]);
    inserted.id = 1;
    chats.insert_chat(inserted);
    assert_eq!(chats.len(), 4);
    let texts: Vec<String> = (0..4)
        .map(|i| chats.get_chats().get(&i).unwrap().get_context().get_parts()[0].joined_text())
        .collect();
    assert_eq!(texts, vec!["a", "new", "b", "c"]);
    for i in 0..4 {
        assert_eq!(chats.get_chats().get(&i).unwrap().id, i);
    }
    assert_eq!(chats.get_last_chat().unwrap().id, 3);
    chats.add_context_part_to(ContextPart::new(vec![], ContextPosition::AI), 2);
    assert!(chats.get_chat(2).unwrap().is_waiting_on_response());
    chats.add_context_part_to(ContextPart::new(vec![], ContextPosition::AI), 17);
    assert_eq!(chats.len(), 4);
    let mut updated = chat(vec![]);
    updated.id = 0;
    chats.update_chat(updated);
    assert_eq!(chats.get_chat(0).unwrap().get_context().len(), 0);
    chats.get_chats_mut().clear();
    assert!(chats.get_last_chat().is_none());
}

#[test]
fn configurations_insert_and_update() {
    let mut configs = ChatConfigurations::new();
    assert_eq!(configs.add_config(ChatConfiguration::new(s("a"), vec![])), 0);
    assert_eq!(configs.add_config(ChatConfiguration::new(s("b"), vec![])), 1);
    let mut c = ChatConfiguration::new(s("c"), vec![ChatSetting::Temperature(1)]);
    c.id = 1;
    configs.insert_config(c);
    let names: Vec<&str> = configs.get_configs().iter().map(|c| c.name.as_str()).collect();
    assert_eq!(names, vec!["a", "c", "b"]);
    let ids: Vec<usize> = configs.get_configs().iter().map(|c| c.id).collect();
    assert_eq!(ids, vec![0, 1, 2]);
    let mut d = ChatConfiguration::new_with_tags_access_modes(s("d"), vec![], set(&[3]), set(&[2]));
    assert_eq!(d.access_modes, set(&[0, 2]));
    d.id = 2;
    configs.update_config(d);
    assert_eq!(configs.get_configs()[2].name, "d");
    assert_eq!(configs.get_configs()[2].get_raw_settings().len(), 0);
    configs.get_configs_mut().clear();
    assert_eq!(configs.get_configs().len(), 0);
}

#[test]
fn files_and_folders_keep_dense_ids() {
    let mut files = Files::new();
    assert_eq!(files.add_file_raw(file("/a", &[], 0)), 0);
    assert_eq!(files.add_file_raw(file("/b", &[], 0)), 1);
    assert!(files.file_exists(s("/b")));
    assert!(!files.file_exists(s("/c")));
    assert_eq!(files.get_file_by_path(s("/b")), Some(1));
    assert_eq!(files.get_last_file().unwrap().get_path(), "/b");
    files.get_file_mut(0).add_desc_tags(Description::new(s("d")), set(&[1]));
    assert_eq!(files.get_file_by_id(0).get_desc(), Some(Description::new(s("d"))));
    assert_eq!(files.get_file_by_id(0).get_name_string_lossy(), "f");
    assert_eq!(files.get_file_by_id(0).get_extension_lossy(), None);
    let mut c = file("/c", &[], 0);
    c.id = 0;
    files.insert_file(c);
    assert_eq!(files.len(), 3);
    assert_eq!(files.get_file_by_path(s("/b")), Some(2));
    let nf = NewFile::new(s("/x"), 4);
    assert_eq!(nf.from_device, 4);

    let mut folders = Folders::new();
    let f = ProxFolder::new_empty(0, s("/home/ada"), s("ada"), None, RecursivityLevel::Fixed(2), 1);
    assert_eq!(folders.add_folder_raw(f), 0);
    let mut child = ProxFolder::new_empty(0, s("/home/ada/x"), s("x"), Some(0), RecursivityLevel::No, 1);
    child.add_file_child(5);
    assert_eq!(folders.add_folder_raw(child), 1);
    assert_eq!(folders.number_of_folders(), 2);
    assert_eq!(folders.get_folder_by_id(1).get_file_children(), &vec![5]);
    assert_eq!(folders.get_folder_by_id(1).get_name_string(), "x");
    assert_eq!(folders.get_folder_by_id(1).get_full_path(), "/home/ada/x");
    assert_eq!(folders.get_folder_by_id(0).get_folder_children().len(), 0);
    assert_eq!(folders.get_folder_by_id(0).get_desc(), None);
    folders.get_folder_mut(0).add_desc_tags(Description::new(s("home")), set(&[]));
    assert_eq!(folders.get_last_folder().unwrap().get_id(), 1);
    let nfo = NewFolder::new(s("/y"), RecursivityLevel::Infinite, 2);
    assert_eq!(nfo.recursivity, RecursivityLevel::Infinite);
}

#[test]
fn recursivity_levels_are_ordered() {
    let all = [
        RecursivityLevel::No,
        RecursivityLevel::Fixed(0),
        RecursivityLevel::Fixed(3),
        RecursivityLevel::Infinite,
    ];
    for (i, a) in all.iter().enumerate() {
        for (j, b) in all.iter().enumerate() {
            assert_eq!(a.at_most(b), i <= j);
            assert_eq!(a.at_most(b), a <= b);
            assert_eq!(a.furthest(*b), *a.max(b));
        }
    }
}

#[test]
fn new_database_holds_only_the_global_mode() {
    let db = ProxDatabase::new_just_data(s("ada"), s("hash"));
    assert_eq!(db.count(ItemKind::AccessMode), 1);
    for kind in [ItemKind::Device, ItemKind::Chat, ItemKind::Folder, ItemKind::File, ItemKind::Tag, ItemKind::ChatConfiguration] {
        assert_eq!(db.count(kind), 0);
    }
    assert_eq!(db.count(ItemKind::UserData), 1);
    assert_eq!(db.personal_info.user_data.pseudonym, "ada");
    assert_eq!(db.personal_info.user_data.get_desc().get_text(), "The user is currently anonymous, called by the name : ada");
    assert_eq!(PersonalInformation::new(s("x"), s("y")).user_data.password_hash, "y");
    ids_are_dense(&db);
}

#[test]
fn insert_tag_shifts_every_reference() {
    let mut db = ProxDatabase::new_just_data(s("ada"), s("hash"));
    for name in ["t0", "t1", "t2"] {
        db.add_item(DatabaseItem::Tag(tag(name, None)));
    }
    let mut child = tag("t3", Some(1));
    child.set_id(3);
    db.add_item(DatabaseItem::Tag(child));
    db.add_item(DatabaseItem::File(file("/a", &[0, 2], 0)));
    db.add_item(DatabaseItem::AccessMode(AccessMode::new(0, set(&[1, 2]), s("work"))));
    let mut c = chat(vec![user_part("x")]);
    c.tags = set(&[2, 3]);
    db.add_item(DatabaseItem::Chat(c));
    db.add_item(DatabaseItem::ChatConfig(ChatConfiguration::new_with_tags_access_modes(s("c"), vec![], set(&[1]), set(&[1]))));
    let mut inserted = tag("new", Some(4));
    inserted.set_id(1);
    assert!(db.can_insert(&DatabaseItem::Tag(tag("bad", Some(6)))) == false);
    assert!(db.can_insert(&DatabaseItem::Tag(inserted.clone())));
    db.insert_tag(inserted);
    let names: Vec<&str> = db.tags.get_tags().iter().map(|t| t.get_name().as_str()).collect();
    assert_eq!(names, vec!["t0", "new", "t1", "t2", "t3"]);
    assert_eq!(db.tags.get_tags()[4].get_parent(), Some(2));
    assert_eq!(db.tags.get_tags()[1].get_parent(), Some(4));
    assert_eq!(db.files.get_file_by_id(0).tags, set(&[0, 3]));
    assert_eq!(db.access_modes.get_modes()[1].get_tags(), &set(&[2, 3]));
    assert_eq!(db.access_modes.get_modes()[0].get_tags(), &set(&[0, 1, 2, 3, 4]));
    assert_eq!(db.chats.get_chat(0).unwrap().tags, set(&[3, 4]));
    assert_eq!(db.configs.get_configs()[0].tags, set(&[2]));
    assert_eq!(db.configs.get_configs()[0].access_modes, set(&[0, 1]));
    ids_are_dense(&db);
}

#[test]
fn insert_device_mode_file_folder_config_shift_references() {
    let mut db = ProxDatabase::new_just_data(s("ada"), s("hash"));
    db.add_item(DatabaseItem::Device(device("d0")));
    db.add_item(DatabaseItem::Device(device("d1")));
    db.add_item(DatabaseItem::AccessMode(AccessMode::new(0, set(&[]), s("m1"))));
    db.add_item(DatabaseItem::ChatConfig(ChatConfiguration::new(s("c0"), vec![])));
    let mut f = file("/a", &[], 1);
    f.access_modes = set(&[0, 1]);
    db.add_item(DatabaseItem::File(f));
    let mut folder = ProxFolder::new_empty(0, s("/p"), s("p"), None, RecursivityLevel::No, 1);
    folder.add_file_child(0);
    db.add_item(DatabaseItem::Folder(folder));
    let mut sub = ProxFolder::new_empty(0, s("/p/q"), s("q"), Some(0), RecursivityLevel::No, 0);
    sub.access_modes = set(&[1]);
    db.add_item(DatabaseItem::Folder(sub));
    let mut c = chat(vec![user_part("x")]);
    c.origin_device = 1;
    c.access_modes = set(&[0, 1]);
    c.config = Some(0);
    c.latest_used_config = Some(ChatConfiguration::new(s("c0"), vec![]));
    db.add_item(DatabaseItem::Chat(c));

    let mut d = device("new");
    d.id = 1;
    db.insert_device(d);
    assert_eq!(db.files.get_file_by_id(0).from_device, 2);
    assert_eq!(db.folders.get_folder_by_id(0).from_device, 2);
    assert_eq!(db.folders.get_folder_by_id(1).from_device, 0);
    assert_eq!(db.chats.get_chat(0).unwrap().origin_device, 2);

    let mut m = AccessMode::new(0, set(&[]), s("new mode"));
    m.set_id(1);
    db.insert_access_mode(m);
    assert_eq!(db.files.get_file_by_id(0).access_modes, set(&[0, 2]));
    assert_eq!(db.folders.get_folder_by_id(1).access_modes, set(&[2]));
    assert_eq!(db.chats.get_chat(0).unwrap().access_modes, set(&[0, 2]));
    assert_eq!(db.access_modes.get_modes()[2].get_name(), "m1");
    let mut zero = AccessMode::new(0, set(&[]), s("zero"));
    zero.set_id(0);
    assert!(!db.can_insert(&DatabaseItem::AccessMode(zero)));

    let mut nf = file("/new", &[], 0);
    nf.id = 0;
    db.insert_file(nf);
    assert_eq!(db.folders.get_folder_by_id(0).get_file_children(), &vec![1]);

    let mut nfo = ProxFolder::new_empty(0, s("/n"), s("n"), None, RecursivityLevel::No, 0);
    nfo.id = 0;
    db.insert_folder(nfo);
    assert_eq!(db.folders.get_folder_by_id(2).parent, Some(1));

    let mut nc = ChatConfiguration::new(s("new config"), vec![]);
    nc.id = 0;
    db.insert_config(nc);
    let stored = db.chats.get_chat(0).unwrap();
    assert_eq!(stored.config, Some(1));
    assert_eq!(stored.latest_used_config.unwrap().id, 1);

    let mut nch = chat(vec![user_part("first")]);
    nch.id = 0;
    db.insert_directly(DatabaseItem::Chat(nch));
    assert_eq!(db.chats.len(), 2);
    assert_eq!(db.chats.get_chat(1).unwrap().origin_device, 2);
    ids_are_dense(&db);
}

#[test]
fn add_desc_and_tags_reaches_files_and_folders() {
    let mut db = ProxDatabase::new_just_data(s("ada"), s("hash"));
    db.add_item(DatabaseItem::File(file("/a", &[], 0)));
    db.add_item(DatabaseItem::Folder(ProxFolder::new_empty(0, s("/p"), s("p"), None, RecursivityLevel::No, 0)));
    db.add_desc_and_tags(DescriptionTarget::File(0), Description::new(s("a file")), set(&[2]));
    db.add_desc_and_tags(DescriptionTarget::Folder(0), Description::new(s("a folder")), set(&[3]));
    assert_eq!(db.files.get_file_by_id(0).get_desc(), Some(Description::new(s("a file"))));
    assert_eq!(db.folders.get_folder_by_id(0).tags, set(&[3]));
}

#[test]
fn item_ids_name_kind_and_index() {
    let id = DatabaseItemID::of(ItemKind::Tag, 4);
    assert_eq!(id, DatabaseItemID::Tag(4));
    assert_eq!(id.kind(), ItemKind::Tag);
    assert_eq!(id.index(), 4);
    assert_eq!(DatabaseItemID::of(ItemKind::UserData, 9), DatabaseItemID::UserData);
    assert_eq!(DatabaseItemID::UserData.index(), 0);
    let mut item = DatabaseItem::Device(device("a"));
    item.set_id(DatabaseItemID::Device(5));
    assert_eq!(item.get_id(), DatabaseItemID::Device(5));
}

#[test]
fn added_item_is_returned_under_its_new_id() {
    let mut h = handler();
    let mut d = device("laptop");
    d.id = 77;
    let added = reply(&mut h, DatabaseRequestVariant::Add(DatabaseItem::Device(d.clone())), None);
    assert_eq!(added, DatabaseReplyVariant::AddedItem(DatabaseItemID::Device(0)));
    d.id = 0;
    assert_eq!(
        reply(&mut h, DatabaseRequestVariant::Get(DatabaseItemID::Device(0)), None),
        DatabaseReplyVariant::ReturnedItem(DatabaseItem::Device(d))
    );
    let t = tag("t", None);
    assert_eq!(
        reply(&mut h, DatabaseRequestVariant::Add(DatabaseItem::Tag(t)), None),
        DatabaseReplyVariant::AddedItem(DatabaseItemID::Tag(0))
    );
    assert!(h.get_database().access_modes.get_modes()[0].get_tags().contains(&0));
    ids_are_dense(h.get_database());
}

#[test]
fn invalid_requests_get_error_replies() {
    let mut h = handler();
    assert_eq!(
        reply(&mut h, DatabaseRequestVariant::Get(DatabaseItemID::Chat(3)), None),
        DatabaseReplyVariant::Error(DatabaseError::InvalidId)
    );
    assert_eq!(
        reply(&mut h, DatabaseRequestVariant::Add(DatabaseItem::Tag(tag("orphan", Some(4)))), None),
        DatabaseReplyVariant::Error(DatabaseError::InvalidItem)
    );
    let mut far = device("far");
    far.id = 9;
    assert_eq!(
        reply(&mut h, DatabaseRequestVariant::Update(DatabaseItem::Device(far)), None),
        DatabaseReplyVariant::Error(DatabaseError::InvalidItem)
    );
    let mut bad_chat = chat(vec![user_part("x")]);
    bad_chat.waiting_on_response = true;
    assert_eq!(
        reply(&mut h, DatabaseRequestVariant::Add(DatabaseItem::Chat(bad_chat)), None),
        DatabaseReplyVariant::Error(DatabaseError::InvalidItem)
    );
    let mut bad_config = ChatConfiguration::new(s("c"), vec![]);
    bad_config.access_modes = set(&[]);
    assert_eq!(
        reply(&mut h, DatabaseRequestVariant::Add(DatabaseItem::ChatConfig(bad_config)), None),
        DatabaseReplyVariant::Error(DatabaseError::InvalidItem)
    );
    assert_eq!(
        reply(&mut h, DatabaseRequestVariant::Info(DatabaseInfoRequest::UnknownUpdates { access_key: s("nobody") }), None),
        DatabaseReplyVariant::Error(DatabaseError::UnknownSession)
    );
    assert!(!h.get_database().can_update(&DatabaseItem::Device(device("none"))));
    ids_are_dense(h.get_database());
}

#[test]
fn update_with_same_timestamp_overwrites_in_place() {
    let mut h = handler();
    reply(&mut h, DatabaseRequestVariant::Add(DatabaseItem::Device(device("a"))), None);
    reply(&mut h, DatabaseRequestVariant::Add(DatabaseItem::Device(device("b"))), None);
    let mut changed = h.get_database().devices.get_devices()[0].clone();
    changed.device_name = s("a renamed");
    assert!(h.get_database().same_item(&DatabaseItem::Device(changed.clone())));
    assert_eq!(
        reply(&mut h, DatabaseRequestVariant::Update(DatabaseItem::Device(changed.clone())), None),
        DatabaseReplyVariant::RequestExecuted
    );
    assert_eq!(h.get_database().count(ItemKind::Device), 2);
    assert_eq!(
        reply(&mut h, DatabaseRequestVariant::Get(DatabaseItemID::Device(0)), None),
        DatabaseReplyVariant::ReturnedItem(DatabaseItem::Device(changed))
    );
    assert_eq!(h.get_database().devices.get_devices()[1].device_name, "b");
}

#[test]
fn update_with_other_timestamp_inserts_at_the_id() {
    let mut h = handler();
    reply(&mut h, DatabaseRequestVariant::Add(DatabaseItem::Device(device("a"))), None);
    reply(&mut h, DatabaseRequestVariant::Add(DatabaseItem::Device(device("b"))), None);
    let mut other = device("c");
    other.id = 0;
    other.added_on = Timestamp::new(1, 1);
    assert!(!h.get_database().same_item(&DatabaseItem::Device(other.clone())));
    assert_eq!(
        reply(&mut h, DatabaseRequestVariant::Update(DatabaseItem::Device(other.clone())), None),
        DatabaseReplyVariant::RequestExecuted
    );
    let names: Vec<&str> = h.get_database().devices.get_devices().iter().map(|d| d.device_name.as_str()).collect();
    assert_eq!(names, vec!["c", "a", "b"]);
    assert_eq!(
        reply(&mut h, DatabaseRequestVariant::Get(DatabaseItemID::Device(0)), None),
        DatabaseReplyVariant::ReturnedItem(DatabaseItem::Device(other))
    );
    let mut at_end = device("d");
    at_end.id = 3;
    assert_eq!(
        reply(&mut h, DatabaseRequestVariant::Update(DatabaseItem::Device(at_end)), None),
        DatabaseReplyVariant::RequestExecuted
    );
    assert_eq!(h.get_database().count(ItemKind::Device), 4);
    ids_are_dense(h.get_database());
}

#[test]
fn changes_reach_every_other_session_once() {
    let mut h = handler();
    let a = new_key(&mut h);
    let b = new_key(&mut h);
    let c = new_key(&mut h);
    assert_ne!(a, b);
    assert_eq!(a, a.parse::<u64>().unwrap().to_string());
    reply(&mut h, DatabaseRequestVariant::Add(DatabaseItem::Device(device("laptop"))), Some(&a));
    let stored = h.get_database().devices.get_devices()[0].clone();
    let expected = vec![(DatabaseItemID::Device(0), DatabaseItem::Device(stored.clone()))];
    assert_eq!(updates(&mut h, &b), expected);
    assert_eq!(updates(&mut h, &b), vec![]);
    assert_eq!(updates(&mut h, &a), vec![]);
    let mut changed = stored;
    changed.device_os = s("bsd");
    reply(&mut h, DatabaseRequestVariant::Update(DatabaseItem::Device(changed.clone())), Some(&b));
    assert_eq!(updates(&mut h, &a), vec![(DatabaseItemID::Device(0), DatabaseItem::Device(changed.clone()))]);
    assert_eq!(updates(&mut h, &b), vec![]);
    let for_c = updates(&mut h, &c);
    assert_eq!(for_c.len(), 2);
    assert_eq!(for_c[1], (DatabaseItemID::Device(0), DatabaseItem::Device(changed)));
    reply(&mut h, DatabaseRequestVariant::Add(DatabaseItem::Device(device("x"))), None);
    for key in [&a, &b, &c] {
        assert_eq!(updates(&mut h, key).len(), 1);
    }
    reply(&mut h, DatabaseRequestVariant::Add(DatabaseItem::Tag(tag("bad", Some(9)))), Some(&a));
    assert_eq!(updates(&mut h, &b), vec![]);
}

#[test]
fn auth_keys_are_registered_and_verified() {
    let mut h = handler();
    assert_eq!(reply(&mut h, DatabaseRequestVariant::VerifyAuthKey(s("42")), None), DatabaseReplyVariant::WrongAuth);
    assert_eq!(h.register_auth_key(42), DatabaseReplyVariant::NewAuth(s("42")));
    assert_eq!(reply(&mut h, DatabaseRequestVariant::VerifyAuthKey(s("42")), None), DatabaseReplyVariant::CorrectAuth);
    assert_eq!(h.get_sessions().len(), 1);
    assert_eq!(h.get_sessions()[0].get_key(), "42");
    reply(&mut h, DatabaseRequestVariant::Add(DatabaseItem::Device(device("x"))), None);
    assert_eq!(h.get_sessions()[0].get_pending_updates().len(), 1);
    assert_eq!(h.register_auth_key(42), DatabaseReplyVariant::NewAuth(s("42")));
    assert_eq!(h.get_sessions().len(), 1);
    assert_eq!(h.get_sessions()[0].get_pending_updates().len(), 0);
    let key = new_key(&mut h);
    assert_eq!(reply(&mut h, DatabaseRequestVariant::VerifyAuthKey(key), None), DatabaseReplyVariant::CorrectAuth);
}

#[test]
fn save_hands_out_a_snapshot_only_when_dirty() {
    let mut h = handler();
    assert!(h.is_dirty());
    match h.handle_request(DatabaseRequest::new(DatabaseRequestVariant::Save, None)) {
        HandlerOutcome::Snapshot(db) => assert_eq!(&db, h.get_database()),
        other => panic!("unexpected outcome {:?}", other),
    }
    assert!(!h.is_dirty());
    assert_eq!(reply(&mut h, DatabaseRequestVariant::Save, None), DatabaseReplyVariant::Saved);
    reply(&mut h, DatabaseRequestVariant::Add(DatabaseItem::Tag(tag("bad", Some(9)))), None);
    assert!(!h.is_dirty());
    reply(&mut h, DatabaseRequestVariant::Add(DatabaseItem::Device(device("x"))), None);
    assert!(h.is_dirty());
    assert!(matches!(
        h.handle_request(DatabaseRequest::new(DatabaseRequestVariant::Save, None)),
        HandlerOutcome::Snapshot(_)
    ));
}

#[test]
fn info_requests_count_and_show_latest_items() {
    let mut h = handler();
    reply(&mut h, DatabaseRequestVariant::Add(DatabaseItem::Device(device("a"))), None);
    reply(&mut h, DatabaseRequestVariant::Add(DatabaseItem::Device(device("b"))), None);
    reply(&mut h, DatabaseRequestVariant::Add(DatabaseItem::Chat(chat(vec![user_part("x")]))), None);
    assert_eq!(
        reply(&mut h, DatabaseRequestVariant::Info(DatabaseInfoRequest::NumbersOfItems), None),
        DatabaseReplyVariant::Info(DatabaseInfoReply::NumbersOfItems {
            devices: 2,
            chats: 1,
            folders: 0,
            files: 0,
            tags: 0,
            access_modes: 1,
        })
    );
    match reply(&mut h, DatabaseRequestVariant::Info(DatabaseInfoRequest::LatestItems), None) {
        DatabaseReplyVariant::Info(DatabaseInfoReply::LatestItems { items }) => {
            assert_eq!(items.len(), 7);
            assert_eq!(items[0].as_ref().unwrap().get_id(), DatabaseItemID::Device(1));
            assert_eq!(items[1].as_ref().unwrap().get_id(), DatabaseItemID::AccessMode(0));
            assert_eq!(items[2].as_ref().unwrap().get_id(), DatabaseItemID::Chat(0));
            assert!(items[3].is_none() && items[4].is_none() && items[5].is_none());
            assert_eq!(items[6].as_ref().unwrap().get_id(), DatabaseItemID::UserData);
        }
        other => panic!("unexpected reply {:?}", other),
    }
    match reply(&mut h, DatabaseRequestVariant::GetAll, None) {
        DatabaseReplyVariant::ReplyAll(db) => assert_eq!(&db, h.get_database()),
        other => panic!("unexpected reply {:?}", other),
    }
    assert_eq!(
        h.apply(DatabaseRequest::new(DatabaseRequestVariant::NewAuthKey, None), 7),
        HandlerOutcome::Reply(DatabaseReplyVariant::NewAuth(s("7")))
    );
}

#[test]
fn ids_stay_dense_over_a_sequence_of_requests() {
    let mut h = handler();
    let key = new_key(&mut h);
    for round in 0..6usize {
        reply(&mut h, DatabaseRequestVariant::Add(DatabaseItem::Tag(tag(&format!("t{round}"), None))), Some(&key));
        reply(&mut h, DatabaseRequestVariant::Add(DatabaseItem::Device(device("d"))), None);
        reply(&mut h, DatabaseRequestVariant::Add(DatabaseItem::Chat(chat(vec![user_part("x")]))), None);
        let mut t = tag("inserted", Some(round / 2 + 1));
        t.set_id(round / 2);
        t.created_at = Timestamp::new(round as i64, 0);
        reply(&mut h, DatabaseRequestVariant::Update(DatabaseItem::Tag(t)), None);
        let mut c = chat(vec![]);
        c.id = round;
        c.start_date = Timestamp::new(round as i64, 1);
        reply(&mut h, DatabaseRequestVariant::Update(DatabaseItem::Chat(c)), Some(&key));
        ids_are_dense(h.get_database());
    }
    assert_eq!(h.get_database().count(ItemKind::Tag), 12);
    assert_eq!(h.get_database().count(ItemKind::Chat), 12);
}

#[test]
fn a_new_key_opens_a_session_that_is_then_known() {
    let mut h = handler();
    let key = match h.handle_new_auth_key() {
        DatabaseReplyVariant::NewAuth(key) => key,
        other => panic!("unexpected reply {:?}", other),
    };
    assert!(key.parse::<u64>().is_ok());
    assert_eq!(h.get_sessions().len(), 1);
    assert_eq!(h.get_sessions()[0].get_key(), &key);
    assert!(h.get_sessions()[0].get_pending_updates().is_empty());
    assert_eq!(h.handle_auth_verification(key), DatabaseReplyVariant::CorrectAuth);
    assert!(h.is_well_formed());
}

#[test]
fn a_database_is_the_one_on_disk_or_a_new_one() {
    let mut kept = ProxDatabase::new_just_data(s("ada"), s("hash"));
    kept.add_item(DatabaseItem::Device(device("pc")));
    let same = ProxDatabase::new(s("eve"), s("other"), s("/data"), Some(kept.clone()));
    assert_eq!(same, kept);
    let fresh = ProxDatabase::new(s("eve"), s("other"), s("/data"), None);
    assert_eq!(fresh.database_folder, "/data");
    assert_eq!(fresh.personal_info.user_data.pseudonym, "eve");
    assert_eq!(fresh.personal_info.user_data.password_hash, "other");
    assert_eq!(fresh.count(ItemKind::Device), 0);
    assert_eq!(fresh.count(ItemKind::AccessMode), 1);
    assert!(fresh.is_well_formed());
    assert_eq!(ProxDatabase::new_just_data(s("eve"), s("other")).database_folder, "a/a/a/a/a/a/a/a");
}

#[test]
fn a_handler_is_made_where_there_is_a_generator() {
    let database = ProxDatabase::new_just_data(s("ada"), s("hash"));
    assert!(DatabaseHandler::with_generator(database.clone(), None).is_none());
    let generator: rand::rngs::StdRng = rand::SeedableRng::seed_from_u64(7);
    let mut h = DatabaseHandler::with_generator(database.clone(), Some(generator)).unwrap();
    assert_eq!(h.get_database(), &database);
    assert!(h.get_sessions().is_empty());
    assert!(h.is_dirty());
    assert!(h.is_well_formed());
    let again: rand::rngs::StdRng = rand::SeedableRng::seed_from_u64(7);
    let mut twin = DatabaseHandler::with_generator(database, Some(again)).unwrap();
    assert_eq!(h.handle_new_auth_key(), twin.handle_new_auth_key());
    assert_eq!(h.get_sessions().len(), 1);
}

#[test]
fn new_files_give_out_ids_from_the_start() {
    let mut files = Files::new();
    assert_eq!(files.len(), 0);
    assert_eq!(files.take_next_file(), Some(0));
    assert_eq!(files.take_next_file(), Some(1));
    assert_eq!(files.len(), 0);
    assert!(files.is_dense());
}

#[test]
fn a_tag_that_would_be_its_own_ancestor_is_refused() {
    let mut h = handler();
    for name in ["a", "b", "c"] {
        reply(&mut h, DatabaseRequestVariant::Add(DatabaseItem::Tag(tag(name, None))), None);
    }
    let stored = |h: &DatabaseHandler, id: usize| match h.get_database().get_item(DatabaseItemID::Tag(id)) {
        Some(DatabaseItem::Tag(t)) => t,
        other => panic!("unexpected item {:?}", other),
    };
    // b under a, c under b
    let mut b = stored(&h, 1);
    b.parent = Some(0);
    assert_eq!(reply(&mut h, DatabaseRequestVariant::Update(DatabaseItem::Tag(b)), None), DatabaseReplyVariant::RequestExecuted);
    let mut c = stored(&h, 2);
    c.parent = Some(1);
    assert_eq!(reply(&mut h, DatabaseRequestVariant::Update(DatabaseItem::Tag(c)), None), DatabaseReplyVariant::RequestExecuted);
    assert!(h.get_database().tags.is_forest());
    let before = h.get_database().clone();

    // a under c would close a circle; a under itself too
    let mut a = stored(&h, 0);
    a.parent = Some(2);
    assert_eq!(
        reply(&mut h, DatabaseRequestVariant::Update(DatabaseItem::Tag(a)), None),
        DatabaseReplyVariant::Error(DatabaseError::InvalidItem)
    );
    let mut a = stored(&h, 0);
    a.parent = Some(0);
    assert_eq!(
        reply(&mut h, DatabaseRequestVariant::Update(DatabaseItem::Tag(a)), None),
        DatabaseReplyVariant::Error(DatabaseError::InvalidItem)
    );
    // a new tag that names itself as its parent is not inserted
    let mut own = tag("own", Some(1));
    own.set_id(1);
    assert_eq!(
        reply(&mut h, DatabaseRequestVariant::Update(DatabaseItem::Tag(own)), None),
        DatabaseReplyVariant::Error(DatabaseError::InvalidItem)
    );
    assert_eq!(h.get_database(), &before);

    // c may move under a
    let mut c = stored(&h, 2);
    c.parent = Some(0);
    assert_eq!(reply(&mut h, DatabaseRequestVariant::Update(DatabaseItem::Tag(c)), None), DatabaseReplyVariant::RequestExecuted);
    assert!(h.is_well_formed());
}

#[test]
fn tags_in_a_circle_are_no_forest() {
    let mut tags = Tags::new();
    tags.add_tag(NewTag::new(s("a"), Description::new(s("d")), None));
    tags.add_tag(NewTag::new(s("b"), Description::new(s("d")), Some(0)));
    tags.add_tag(NewTag::new(s("c"), Description::new(s("d")), Some(1)));
    assert!(tags.is_forest());
    assert!(tags.is_well_formed());
    assert_eq!(tags.parents(), vec![None, Some(0), Some(1)]);
    let mut a = tags.get_tag_from_tagid(0).unwrap().clone();
    a.parent = Some(2);
    assert!(!tags.is_forest_with(&a));
    let mut c = tags.get_tag_from_tagid(2).unwrap().clone();
    c.parent = Some(0);
    assert!(tags.is_forest_with(&c));
    tags.update_tag(a);
    assert!(!tags.is_forest());
    assert!(!tags.is_well_formed());
}

#[test]
fn an_inserted_access_mode_is_followed_by_the_settings_that_name_it() {
    let mut database = ProxDatabase::new_just_data(s("ada"), s("hash"));
    database.add_item(DatabaseItem::AccessMode(AccessMode::new(0, set(&[]), s("work"))));
    let config = ChatConfiguration::new(
        s("c"),
        vec![ChatSetting::AccessMode(1), ChatSetting::AccessMode(0), ChatSetting::Temperature(1)],
    );
    database.add_item(DatabaseItem::ChatConfig(config.clone()));
    let mut with_config = chat(vec![]);
    with_config.latest_used_config = Some(config);
    database.add_item(DatabaseItem::Chat(with_config));
    let mut private = AccessMode::new(1, set(&[]), s("private"));
    private.set_id(1);
    let item = DatabaseItem::AccessMode(private);
    assert!(database.can_insert(&item));
    database.insert_directly(item);
    assert!(database.is_well_formed());
    assert_eq!(database.access_modes.get_modes()[2].get_name(), "work");
    let expected =
        vec![ChatSetting::AccessMode(2), ChatSetting::AccessMode(0), ChatSetting::Temperature(1)];
    assert_eq!(database.configs.get_configs()[0].get_raw_settings(), &expected);
    let kept = database.chats.get_chat(0).unwrap();
    assert_eq!(kept.latest_used_config.unwrap().get_raw_settings(), &expected);
}

#[test]
fn an_inserted_chat_is_followed_by_the_agents_that_it_moves() {
    let record = |name: &str, chat_id: usize| AgentRecord {
        name: s(name),
        model: s("m"),
        allowed_tools: vec![ProximaTool::Calculator],
        status: AgentStatus::Standby,
        chat_id,
    };
    let registry = |first: usize, second: usize| {
        ProximaToolData::Agent(AgentRegistry {
            agents: vec![record("helper", first), record("other", second)],
            counter: 2,
            allocatable_tools: vec![ProximaTool::Calculator],
        })
    };
    let mut database = ProxDatabase::new_just_data(s("ada"), s("hash"));
    for _ in 0..3 {
        database.add_item(DatabaseItem::Chat(chat(vec![])));
    }
    let mut config =
        ChatConfiguration::new(s("c"), vec![ChatSetting::Tool(ProximaTool::Agent, Some(registry(0, 2)))]);
    let mut tools = config.get_tools().clone().unwrap();
    tools.set_data(ProximaTool::Agent, registry(1, 2));
    config.set_tools(Some(tools));
    assert!(config.is_well_formed());
    database.add_item(DatabaseItem::ChatConfig(config));
    let mut first = chat(vec![]);
    first.id = 1;
    let item = DatabaseItem::Chat(first);
    assert!(database.can_insert(&item));
    database.insert_directly(item);
    assert!(database.is_well_formed());
    let stored = &database.configs.get_configs()[0];
    assert_eq!(
        stored.get_raw_settings(),
        &vec![ChatSetting::Tool(ProximaTool::Agent, Some(registry(0, 3)))]
    );
    assert_eq!(
        stored.get_tools().as_ref().unwrap().get_data(ProximaTool::Agent),
        Some(&registry(2, 3))
    );
    database.shift_references(ItemKind::Tag, 0);
    assert_eq!(
        database.configs.get_configs()[0].get_tools().as_ref().unwrap().get_data(ProximaTool::Agent),
        Some(&registry(2, 3))
    );
}

#[test]
fn a_configuration_whose_tool_data_holds_a_key_twice_is_refused() {
    let twice = ProximaToolData::LocalMemory(vec![(s("k"), s("1")), (s("k"), s("2"))]);
    let once = ProximaToolData::LocalMemory(vec![(s("k"), s("1")), (s("l"), s("2"))]);
    assert!(!twice.is_well_formed());
    assert!(once.is_well_formed());
    let bad = ChatConfiguration::new(s("c"), vec![ChatSetting::Tool(ProximaTool::LocalMemory, Some(twice))]);
    let good = ChatConfiguration::new(s("c"), vec![ChatSetting::Tool(ProximaTool::LocalMemory, Some(once))]);
    assert!(!bad.is_well_formed());
    assert!(good.is_well_formed());
    let mut h = handler();
    assert_eq!(
        reply(&mut h, DatabaseRequestVariant::Add(DatabaseItem::ChatConfig(bad)), None),
        DatabaseReplyVariant::Error(DatabaseError::InvalidItem)
    );
    assert_eq!(
        reply(&mut h, DatabaseRequestVariant::Add(DatabaseItem::ChatConfig(good)), None),
        DatabaseReplyVariant::AddedItem(DatabaseItemID::ChatConfiguration(0))
    );
    let same_tool_twice = Tools::from_parts(
        vec![ProximaTool::LocalMemory],
        vec![
            (ProximaTool::LocalMemory, ProximaToolData::LocalMemory(vec![])),
            (ProximaTool::LocalMemory, ProximaToolData::LocalMemory(vec![])),
        ],
    );
    assert!(!same_tool_twice.is_well_formed());
    let two_helpers = AgentRegistry {
        agents: vec![
            AgentRecord { name: s("h"), model: s("m"), allowed_tools: vec![], status: AgentStatus::Standby, chat_id: 0 },
            AgentRecord { name: s("h"), model: s("m"), allowed_tools: vec![], status: AgentStatus::Running, chat_id: 1 },
        ],
        counter: 2,
        allocatable_tools: vec![],
    };
    assert!(!two_helpers.is_well_formed());
    assert!(!ProximaToolData::Agent(two_helpers).is_well_formed());
}
