use proxima_backend::ai_interaction::create_prompt::{
    create_desc_prompt, create_tag_prompt, get_agent_prompt_context, get_system_prompt_for,
    prompt_sources, AgentPrompt, AgentPromptType, SystemPrompt,
};
use proxima_backend::database::access_modes::AccessMode;
use proxima_backend::database::context::{ContextData, ContextPart, ContextPosition, WholeContext};
use proxima_backend::database::describing::{
    add_new_tag_line, parse_desc_response, parse_tagging_response,
};
use proxima_backend::database::description::{Description, DescriptionParsingError, DescriptionTarget};
use proxima_backend::database::tags::Tags;
use proxima_backend::database::devices::DeviceType;
use proxima_backend::database::files::ProxFile;
use proxima_backend::database::folders::{ProxFolder, RecursivityLevel};
use proxima_backend::database::handler::{
    DatabaseError, DatabaseHandler, DatabaseReplyVariant, DatabaseRequest, DatabaseRequestVariant,
    HandlerOutcome,
};
use proxima_backend::database::media::{media_file_name, media_hash, MediaStorage, MediaType};
use proxima_backend::database::tags::{Tag, TaggingParsingError};
use proxima_backend::database::timestamp::Timestamp;
use proxima_backend::database::{DatabaseItem, ProxDatabase};
use proxima_backend::initialization::{
    check_short_text, check_url_text, parse_port, InitializationData, DEFAULT_PORT,
};
use proxima_backend::web_payloads::{AIPayload, AuthPayload, AuthResponse, DBPayload};
use std::collections::HashSet;

fn s(x: &str) -> String {
    x.to_string()
}

fn set(ids: &[usize]) -> HashSet<usize> {
    ids.iter().copied().collect()
}

fn system() -> ContextPart {
    get_system_prompt_for(SystemPrompt::Description, Some(s("SYSTEM"))).unwrap()
}

fn database() -> ProxDatabase {
    let mut db = ProxDatabase::new_just_data(s("ada"), s("hash"));
    db.add_item(DatabaseItem::Tag(Tag::new(0, s("work"), Description::new(s("about work")), None)));
    db.add_item(DatabaseItem::Tag(Tag::new(0, s("rust"), Description::new(s("a language")), Some(0))));
    db.add_item(DatabaseItem::Tag(Tag::new(0, s("hidden"), Description::new(s("x")), None)));
    db.add_item(DatabaseItem::AccessMode(AccessMode::new(0, set(&[0, 1]), s("public"))));
    let file = ProxFile {
        id: 0,
        absolute_path: s("/home/ada/notes.txt"),
        tags: set(&[]),
        desc: Some(Description::new(s("some notes"))),
        name: s("notes.txt"),
        extension: Some(s("txt")),
        from_device: 0,
        added_at: Timestamp::new(1, 0),
        last_modified: Timestamp::new(1, 0),
        access_modes: set(&[0]),
    };
    db.add_item(DatabaseItem::File(file));
    let mut folder = ProxFolder::new_empty(0, s("/home/ada"), s("ada"), None, RecursivityLevel::No, 0);
    folder.add_file_child(0);
    folder.children.push(1);
    db.add_item(DatabaseItem::Folder(folder));
    db.add_item(DatabaseItem::Folder(ProxFolder::new_empty(0, s("/home/ada/src"), s("src"), Some(0), RecursivityLevel::No, 0)));
    db
}

#[test]
fn system_prompt_needs_its_text() {
    assert_eq!(SystemPrompt::Description.path(), "configuration/prompts/description.txt");
    assert_eq!(SystemPrompt::Action.path(), "configuration/prompts/action.txt");
    assert_eq!(SystemPrompt::Tag.path(), "configuration/prompts/tag.txt");
    assert_eq!(
        get_system_prompt_for(SystemPrompt::Tag, Some(s("T"))),
        Ok(ContextPart::new(vec![ContextData::Text(s("T"))], ContextPosition::System))
    );
    assert_eq!(get_system_prompt_for(SystemPrompt::Tag, None), Err(()));
}

#[test]
fn description_prompt_for_a_file() {
    let db = database();
    let prompt = create_desc_prompt(&db, DescriptionTarget::File(0), 1, system(), Some(s("hello")));
    assert_eq!(prompt.len(), 2);
    assert_eq!(prompt.get_parts()[0], system());
    assert_eq!(*prompt.get_parts()[1].get_position(), ContextPosition::User);
    assert_eq!(
        prompt.get_parts()[1].joined_text(),
        "{    target_type:file,\n    target_data:{\n        name:notes.txt,\n        path:/home/ada/notes.txt,\n        extension:txt,\n        data:hello\n    },    existing_tags:[(work, about work, null),(rust, a language, work)],\n    user_description:\"The user is currently anonymous, called by the name : ada\",\n}"
    );
    let binary = create_desc_prompt(&db, DescriptionTarget::File(0), 0, system(), None);
    assert!(binary.get_parts()[1].joined_text().contains("data:null\n"));
    assert!(binary.get_parts()[1].joined_text().contains("(hidden, x, null)],"));
}

#[test]
fn description_prompt_for_a_folder() {
    let db = database();
    let prompt = create_desc_prompt(&db, DescriptionTarget::Folder(0), 1, system(), None);
    assert_eq!(
        prompt.get_parts()[1].joined_text(),
        "{    target_type:folder,\n    target_data:{\n        name:ada,\n        path:/home/ada,\n        children:(\"folder\", src, null),(\"file\", notes.txt, some notes)\n    },\n    existing_tags:[(work, about work, null),(rust, a language, work)],\n    user_description:\"The user is currently anonymous, called by the name : ada\",\n}"
    );
}

#[test]
fn tag_prompt_shows_system_and_chat_text() {
    let db = database();
    let target = WholeContext::new(vec![
        ContextPart::new(vec![ContextData::Text(s("be kind"))], ContextPosition::System),
        ContextPart::new(vec![ContextData::Text(s("hi ")), ContextData::Text(s("there"))], ContextPosition::User),
        ContextPart::new(vec![ContextData::Text(s("!"))], ContextPosition::AI),
    ]);
    let prompt = create_tag_prompt(&db, target, 1, system());
    assert_eq!(
        prompt.get_parts()[1].joined_text(),
        "{system_prompt: \"be kind\",chat_data: \"hi there!\",    existing_tags:[(work, about work, null),(rust, a language, work)],\n    user_description:\"The user is currently anonymous, called by the name : ada\",\n}"
    );
}

#[test]
fn agent_prompts_need_existing_items() {
    let db = database();
    let ok = AgentPrompt::new(1, AgentPromptType::Description { desc_target: DescriptionTarget::Folder(1) });
    assert!(get_agent_prompt_context(&db, ok, system(), None).is_some());
    let bad_mode = AgentPrompt::new(9, AgentPromptType::Tag { tag_target: WholeContext::new(vec![]) });
    assert!(get_agent_prompt_context(&db, bad_mode, system(), None).is_none());
    let bad_file = AgentPrompt::new(0, AgentPromptType::Description { desc_target: DescriptionTarget::File(5) });
    assert!(get_agent_prompt_context(&db, bad_file, system(), None).is_none());
    let mut handler = DatabaseHandler::new(db).unwrap();
    let request = DatabaseRequestVariant::GetAgentPrompt {
        prompt: AgentPrompt::new(0, AgentPromptType::Tag { tag_target: WholeContext::new(vec![]) }),
        system: Some(s("S")),
        file_text: None,
    };
    match handler.handle_request(DatabaseRequest::new(request, None)) {
        HandlerOutcome::Reply(DatabaseReplyVariant::ConstructedPrompt(context)) => assert_eq!(context.len(), 2),
        other => panic!("unexpected outcome {:?}", other),
    }
    let missing = DatabaseRequestVariant::GetAgentPrompt {
        prompt: AgentPrompt::new(0, AgentPromptType::Tag { tag_target: WholeContext::new(vec![]) }),
        system: None,
        file_text: None,
    };
    assert_eq!(
        handler.handle_request(DatabaseRequest::new(missing, None)),
        HandlerOutcome::Reply(DatabaseReplyVariant::Error(DatabaseError::PromptUnavailable))
    );
    let invalid = DatabaseRequestVariant::GetAgentPrompt {
        prompt: AgentPrompt::new(7, AgentPromptType::Tag { tag_target: WholeContext::new(vec![]) }),
        system: Some(s("S")),
        file_text: None,
    };
    assert_eq!(
        handler.handle_request(DatabaseRequest::new(invalid, None)),
        HandlerOutcome::Reply(DatabaseReplyVariant::Error(DatabaseError::InvalidId))
    );
}

#[test]
fn tagging_reply_names_known_tags() {
    let mut db = database();
    let reply = s("<Tagging>rust\n unknown \n work </Tagging><Other>rust</Other><Tagging>hidden</Tagging>");
    assert_eq!(parse_tagging_response(reply, &mut db.tags), Ok(vec![1, 0, 2]));
    assert_eq!(parse_tagging_response(s("no elements"), &mut db.tags), Ok(vec![]));
    assert_eq!(parse_tagging_response(s("<Tagging></Tagging>"), &mut db.tags), Ok(vec![]));
    assert_eq!(db.tags.get_tags().len(), 3);
    assert_eq!(
        parse_tagging_response(s("<!DOCTYPE html><html></html><html></html>"), &mut db.tags),
        Err(TaggingParsingError::UnparseableDOM)
    );
}

#[test]
fn media_are_kept_under_the_hash_of_their_content() {
    let data = vec![b'a', b'b', b'c'];
    let hash = media_hash(&data);
    assert_eq!(
        hash.iter().map(|b| format!("{:02x}", b)).collect::<String>(),
        "3a985da74fe225b2045c172d6bd390bd855f086e3e9d525b46bfe24511431532"
    );
    let mut storage = MediaStorage::new();
    assert!(storage.get_media(&hash).is_none());
    let stored = storage.add_media(&data, set(&[2]), set(&[3]), s("cat.png"), MediaType::Image);
    assert_eq!(stored, hash);
    let media = storage.get_media(&hash).unwrap();
    assert_eq!(media.file_name, "cat.png");
    assert_eq!(media.access_modes, set(&[0, 3]));
    assert_eq!(media.tags, set(&[2]));
    storage.add_media(&data, set(&[]), set(&[]), s("dog.png"), MediaType::Video);
    assert_eq!(storage.data.len(), 1);
    assert_eq!(storage.get_media(&hash).unwrap().file_name, "dog.png");
    let other = storage.add_media(&vec![], set(&[]), set(&[]), s("empty"), MediaType::Audio);
    assert_ne!(other, hash);
    assert_eq!(storage.data.len(), 2);
    let copy = storage.get_media(&other).unwrap().clone();
    storage.remove_media(&other);
    assert!(storage.get_media(&other).is_none());
    storage.insert_media_raw(copy);
    assert!(storage.get_media(&other).is_some());
    storage.remove_media(&[0u8; 32]);
    assert_eq!(storage.data.len(), 2);
}

#[test]
fn taken_media_names_get_hash_bytes_in_front() {
    let mut hash = [0u8; 32];
    hash[0] = 0x0a;
    hash[1] = 0xff;
    hash[2] = 0x30;
    assert_eq!(media_file_name("cat.png", &hash, 0), Some(s("cat.png")));
    assert_eq!(media_file_name("cat.png", &hash, 1), Some(format!("{:#04x}cat.png", hash[0])));
    assert_eq!(media_file_name("cat.png", &hash, 3), Some(s("0x300xff0x0acat.png")));
    assert_eq!(media_file_name("c", &hash, 32).unwrap().len(), 1 + 4 * 32);
    assert_eq!(media_file_name("c", &hash, 33), None);
}

#[test]
fn start_values_are_checked() {
    assert!(check_short_text("ada"));
    assert!(!check_short_text("   "));
    assert!(!check_short_text(""));
    assert!(check_short_text(&"x".repeat(99)));
    assert!(!check_short_text(&"x".repeat(100)));
    assert!(check_url_text(&"u".repeat(299)));
    assert!(!check_url_text(&"u".repeat(300)));
    assert_eq!(parse_port("8082"), Some(8082));
    assert_eq!(parse_port("1025"), Some(1025));
    assert_eq!(parse_port("65534"), Some(65534));
    assert_eq!(parse_port("1024"), None);
    assert_eq!(parse_port("65535"), None);
    assert_eq!(parse_port("99999999999999999999"), None);
    assert_eq!(parse_port("80a"), None);
    assert_eq!(parse_port(""), None);
    let init = InitializationData::new();
    assert_eq!(init.port, DEFAULT_PORT);
    assert_eq!(init.port, 8082);
    assert_eq!(init.username, "");
}

#[test]
fn arguments_start_the_server() {
    let args: Vec<String> = ["prog", " ada ", "secret", " /data ", "http://localhost:1234", "9000"].iter().map(|a| s(a)).collect();
    assert_eq!(
        InitializationData::from_arguments(&args, true),
        Some(InitializationData {
            username: s("ada"),
            password_hash: s("secret"),
            proxima_path: s("/data"),
            backend_url: s("http://localhost:1234"),
            port: 9000,
        })
    );
    assert_eq!(InitializationData::from_arguments(&args, false), None);
    assert_eq!(InitializationData::from_arguments(&args[..5].to_vec(), true), None);
    let mut bad_port = args.clone();
    bad_port[5] = s("80");
    assert_eq!(InitializationData::from_arguments(&bad_port, true), None);
    let mut blank = args.clone();
    blank[1] = s("  ");
    assert_eq!(InitializationData::from_arguments(&blank, true), None);
}

#[test]
fn payloads_keep_what_they_are_given() {
    let phone = AuthPayload::with_device(s("pw"), s("ada"), s("pixel"), s("android"));
    assert_eq!(phone.device_type, DeviceType::Smartphone);
    assert_eq!(phone.device_model, "Generic computing device (I don't know man)");
    assert_eq!(phone.password_hash, "pw");
    assert_eq!(AuthPayload::with_device(s("pw"), s("ada"), s("tab"), s("ios")).device_type, DeviceType::Smartphone);
    assert_eq!(AuthPayload::with_device(s("pw"), s("ada"), s("pc"), s("linux")).device_type, DeviceType::Laptop);
    let db = DBPayload::new(s("k"), DatabaseRequestVariant::GetAll);
    assert_eq!(db.auth_key, "k");
    let ai = AIPayload::new(s("k"), proxima_backend::ai_interaction::endpoint_api::EndpointRequestVariant::Continue);
    assert!(!ai.request.is_stream());
}

#[test]
fn login_opens_a_session_and_registers_the_device_once() {
    let mut handler = DatabaseHandler::new(ProxDatabase::new_just_data(s("ada"), s("hash"))).unwrap();
    let wrong = AuthPayload::with_device(s("nope"), s("ada"), s("pc"), s("linux"));
    assert_eq!(handler.authenticate(&wrong, 1), None);
    assert_eq!(handler.get_sessions().len(), 0);
    let other_user = AuthPayload::with_device(s("hash"), s("eve"), s("pc"), s("linux"));
    assert_eq!(handler.authenticate(&other_user, 1), None);
    let pc = AuthPayload::with_device(s("hash"), s("ada"), s("pc"), s("linux"));
    assert_eq!(handler.authenticate(&pc, 11), Some(AuthResponse { session_token: s("11"), device_id: 0 }));
    assert_eq!(handler.get_database().devices.get_devices().len(), 1);
    assert_eq!(handler.get_database().devices.get_devices()[0].device_os, "linux");
    let phone = AuthPayload::with_device(s("hash"), s("ada"), s("phone"), s("android"));
    assert_eq!(handler.authenticate(&phone, 12), Some(AuthResponse { session_token: s("12"), device_id: 1 }));
    assert_eq!(handler.authenticate(&pc, 13), Some(AuthResponse { session_token: s("13"), device_id: 0 }));
    assert_eq!(handler.get_database().devices.get_devices().len(), 2);
    assert_eq!(handler.get_sessions().len(), 3);
    assert!(DeviceType::Other(s("fridge")).same_as(&DeviceType::Other(s("fridge"))));
    assert!(!DeviceType::Other(s("fridge")).same_as(&DeviceType::Other(s("oven"))));
    assert!(!DeviceType::Laptop.same_as(&DeviceType::Desktop));
}

fn tag_table(tags: &Tags) -> Vec<(String, String, Option<usize>)> {
    tags.get_tags()
        .iter()
        .map(|t| (t.get_name().clone(), t.get_desc().get_text().clone(), t.get_parent()))
        .collect()
}

#[test]
fn description_reply_makes_and_gives_tags() {
    let mut db = database();
    let reply = s("<Description> A file of notes. </Description>\
<NewTags>name:notes|desc:written notes|parent:work\nname:cat|desc:an animal|parent:animals\nhome|where one lives</NewTags>\
<Tagging>notes\nrust\nnobody\n animals </Tagging>");
    let (desc, used) = parse_desc_response(reply, &mut db.tags).unwrap();
    assert_eq!(desc.get_text(), "A file of notes.");
    assert_eq!(used, vec![3, 1, 4]);
    assert_eq!(
        tag_table(&db.tags)[3..].to_vec(),
        vec![
            (s("notes"), s("written notes"), Some(0)),
            (s("animals"), s("Missing description"), None),
            (s("cat"), s("an animal"), Some(4)),
            (s("home"), s("where one lives"), None),
        ]
    );
    for (i, t) in db.tags.get_tags().iter().enumerate() {
        assert_eq!(t.get_id(), i);
    }
}

#[test]
fn new_tag_lines_are_read_by_their_parts() {
    let mut tags = Tags::new();
    assert!(add_new_tag_line(&mut tags, "a|first|NONE"));
    assert_eq!(
        tag_table(&tags),
        vec![(s("NONE"), s("Missing description"), None), (s("a"), s("first"), Some(0))]
    );
    assert!(add_new_tag_line(&mut tags, "x: b |y: second|z: a:more"));
    assert_eq!(tag_table(&tags)[2], (s("z"), s("Missing description"), None));
    assert_eq!(tag_table(&tags)[3], (s(" b"), s(" second"), Some(2)));
    assert!(add_new_tag_line(&mut tags, "p | q ||r"));
    assert_eq!(
        tag_table(&tags)[4..].to_vec(),
        vec![
            (s("p"), s("MISSING_DESCRIPTION"), None),
            (s("q"), s("MISSING_DESCRIPTION"), None),
            (s("r"), s("MISSING_DESCRIPTION"), None),
        ]
    );
    assert!(!add_new_tag_line(&mut tags, "no bar here"));
    assert_eq!(tags.get_tags().len(), 7);
}

#[test]
fn description_reply_with_a_bad_line_stops() {
    let mut db = database();
    let reply = s("<NewTags>one|first\nbroken\ntwo|second</NewTags><Description>late</Description>");
    assert_eq!(
        parse_desc_response(reply, &mut db.tags),
        Err(DescriptionParsingError::BadNumberOfNewTagArgs)
    );
    assert_eq!(db.tags.get_tags().len(), 4);
    assert_eq!(db.tags.get_tags()[3].get_name(), "one");
    assert_eq!(
        parse_desc_response(s("<!DOCTYPE html><html></html><html></html>"), &mut db.tags),
        Err(DescriptionParsingError::UnparseableDOM)
    );
    assert_eq!(
        parse_desc_response(s("plain text <Description></Description>"), &mut db.tags),
        Ok((Description::new(s("")), vec![]))
    );
}

#[test]
fn a_payload_of_this_device_keeps_what_it_is_given() {
    let here = AuthPayload::new(s("pw"), s("ada"), s("ios"));
    let named = AuthPayload::with_device(s("pw"), s("ada"), here.device_name.clone(), s("ios"));
    assert_eq!(here, named);
    assert_eq!(here.device_type, DeviceType::Smartphone);
    assert_eq!(here.device_os, "ios");
    assert_eq!(here.password_hash, "pw");
    assert_eq!(here.username, "ada");
    assert_eq!(AuthPayload::new(s("pw"), s("ada"), s("linux")).device_type, DeviceType::Laptop);
}

#[test]
fn a_prompt_is_made_from_the_system_prompt_and_the_file_to_describe() {
    let db = database();
    let file = AgentPrompt::new(0, AgentPromptType::Description { desc_target: DescriptionTarget::File(0) });
    assert_eq!(
        prompt_sources(&db, &file),
        (s("configuration/prompts/description.txt"), Some(s("/home/ada/notes.txt")))
    );
    let missing = AgentPrompt::new(0, AgentPromptType::Description { desc_target: DescriptionTarget::File(1) });
    assert_eq!(prompt_sources(&db, &missing), (s("configuration/prompts/description.txt"), None));
    let folder = AgentPrompt::new(0, AgentPromptType::Description { desc_target: DescriptionTarget::Folder(0) });
    assert_eq!(prompt_sources(&db, &folder), (s("configuration/prompts/description.txt"), None));
    let tagging = AgentPrompt::new(0, AgentPromptType::Tag { tag_target: WholeContext::new(vec![]) });
    assert_eq!(prompt_sources(&db, &tagging), (s("configuration/prompts/description.txt"), None));
}
