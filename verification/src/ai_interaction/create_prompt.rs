//! Prompts that ask a model to describe or to tag an item of the database.

use crate::database::access_modes::AccessModeView;
use crate::database::context::{
    all_data, data_views, item_text, part_views, parts_by_kind, ContextData, ContextDataView,
    ContextPart, ContextPartView, ContextPosition, Prompt, WholeContext,
};
use crate::database::description::{Description, DescriptionTarget};
use crate::database::files::ProxFileView;
use crate::database::folders::ProxFolderView;
use crate::database::tags::TagView;
use crate::database::{ProxDatabase, ProxDatabaseView};
use crate::text::{join, text_views, trim, trim_char, trim_char_text, trim_text};
use vstd::prelude::*;

verus! {

broadcast use vstd::std_specs::hash::group_hash_axioms;

/// What a prompt asks a model to do.
#[derive(PartialEq, Eq, Debug)]
pub enum AgentPromptType {
    /// Describe a file or a folder.
    Description { desc_target: DescriptionTarget },
    /// Tag a dialogue.
    Tag { tag_target: WholeContext },
}

/// The mathematical value of an [`AgentPromptType`].
pub enum AgentPromptTypeView {
    Description { desc_target: DescriptionTarget },
    Tag { tag_target: Seq<ContextPartView> },
}

impl View for AgentPromptType {
    type V = AgentPromptTypeView;

    open spec fn view(&self) -> AgentPromptTypeView {
        match self {
            AgentPromptType::Description { desc_target } => AgentPromptTypeView::Description {
                desc_target: *desc_target,
            },
            AgentPromptType::Tag { tag_target } => AgentPromptTypeView::Tag {
                tag_target: tag_target@,
            },
        }
    }
}

/// The prompt of the kind `kind` under `access_mode`; `None` where the
/// access mode or the item to describe does not exist.
pub open spec fn agent_prompt_context(
    database: ProxDatabaseView,
    access_mode: usize,
    kind: AgentPromptTypeView,
    system: ContextPartView,
    file_text: Option<Seq<char>>,
) -> Option<Seq<ContextPartView>> {
    match kind {
        AgentPromptTypeView::Description { desc_target } => if can_describe(
            database,
            desc_target,
            access_mode,
        ) {
            Some(desc_prompt(database, desc_target, access_mode, system, file_text))
        } else {
            None
        },
        AgentPromptTypeView::Tag { tag_target } => if access_mode < database.access_modes.len() {
            Some(tag_prompt(database, tag_target, access_mode, system))
        } else {
            None
        },
    }
}

/// A request for a prompt, made under an access mode.
#[derive(PartialEq, Eq, Debug)]
pub struct AgentPrompt {
    access_mode: usize,
    prompt_type: AgentPromptType,
}

impl AgentPrompt {
    /// The request for a prompt of `prompt_type` under `access_mode`.
    pub fn new(access_mode: usize, prompt_type: AgentPromptType) -> (r: AgentPrompt)
        ensures
            r.get_access_mode() == access_mode,
            r.get_prompt_type() == prompt_type,
    {
        AgentPrompt { access_mode, prompt_type }
    }

    /// The access mode that the prompt is made under.
    pub closed spec fn get_access_mode(&self) -> usize {
        self.access_mode
    }

    /// What the prompt asks for.
    pub closed spec fn get_prompt_type(&self) -> AgentPromptType {
        self.prompt_type
    }

    /// The access mode that the prompt is made under.
    pub fn access_mode(&self) -> (r: usize)
        ensures
            r == self.get_access_mode(),
    {
        self.access_mode
    }

    /// What the prompt asks for.
    pub fn prompt_type(&self) -> (r: &AgentPromptType)
        ensures
            *r == self.get_prompt_type(),
    {
        &self.prompt_type
    }
}

/// The system prompts that are kept in files.
#[derive(Clone, Copy, PartialEq, Eq, Structural, Debug)]
pub enum SystemPrompt {
    Description,
    Tag,
    Action,
}

/// Where the text of a system prompt is kept, from the working directory.
pub open spec fn prompt_path(case: SystemPrompt) -> Seq<char> {
    match case {
        SystemPrompt::Description => "configuration/prompts/description.txt"@,
        SystemPrompt::Action => "configuration/prompts/action.txt"@,
        SystemPrompt::Tag => "configuration/prompts/tag.txt"@,
    }
}

impl SystemPrompt {
    /// Where the text of the prompt is kept, from the working directory.
    pub fn path(&self) -> (r: String)
        ensures
            r@ == prompt_path(*self),
    {
        match self {
            SystemPrompt::Description => "configuration/prompts/description.txt".to_string(),
            SystemPrompt::Action => "configuration/prompts/action.txt".to_string(),
            SystemPrompt::Tag => "configuration/prompts/tag.txt".to_string(),
        }
    }
}

/// The system prompt that prompts for descriptions and for tags start with.
pub open spec fn agent_system_prompt() -> SystemPrompt {
    SystemPrompt::Description
}

/// The path of the file whose text a prompt of the kind `kind` shows: that
/// of the file to describe, where it is one that the database knows.
pub open spec fn file_to_show(database: ProxDatabaseView, kind: AgentPromptTypeView) -> Option<
    Seq<char>,
> {
    match kind {
        AgentPromptTypeView::Description { desc_target: DescriptionTarget::File(id) } => if id
            < database.files.len() {
            Some(database.files[id as int].absolute_path)
        } else {
            None
        },
        _ => None,
    }
}

/// What is read from disk before the prompt `agent_prompt` is made: the
/// system prompt kept at the first path, and the text of the file at the
/// second, where there is one.
pub fn prompt_sources(database: &ProxDatabase, agent_prompt: &AgentPrompt) -> (r: (
    String,
    Option<String>,
))
    ensures
        r.0@ == prompt_path(agent_system_prompt()),
        match r.1 {
            Some(path) => file_to_show(database@, agent_prompt.get_prompt_type()@) == Some(path@),
            None => file_to_show(database@, agent_prompt.get_prompt_type()@) is None,
        },
{
    let file = match agent_prompt.prompt_type() {
        AgentPromptType::Description { desc_target } => match desc_target {
            DescriptionTarget::File(id) => if *id < database.files.len() {
                Some(database.files.get_file_by_id(*id).get_path())
            } else {
                None
            },
            DescriptionTarget::Folder(_) => None,
        },
        AgentPromptType::Tag { .. } => None,
    };
    (SystemPrompt::Description.path(), file)
}

/// The system fragment that says `text`.
pub open spec fn system_part(text: Seq<char>) -> ContextPartView {
    ContextPartView { data: seq![ContextDataView::Text(text)], position: ContextPosition::System }
}

/// The system prompt whose file holds `file_text`; an error where the file
/// could not be read.
pub fn get_system_prompt_for(case: SystemPrompt, file_text: Option<String>) -> (r: Result<
    Prompt,
    (),
>)
    ensures
        match (r, file_text) {
            (Ok(prompt), Some(text)) => prompt@ == system_part(text@),
            (Err(()), None) => true,
            _ => false,
        },
{
    match file_text {
        Some(text) => {
            let item = ContextData::Text(text);
            let mut data: Vec<ContextData> = Vec::new();
            data.push(item);
            proof {
                assert(data_views(data@) =~= seq![item@]);
            }
            Ok(ContextPart::new(data, ContextPosition::System))
        },
        None => Err(()),
    }
}

/// The text that stands for an optional text: the text itself, or `null`.
pub open spec fn or_null(text: Option<Seq<char>>) -> Seq<char> {
    match text {
        Some(t) => t,
        None => "null"@,
    }
}

/// The tags that the access mode `mode` holds, written out one after the
/// other: each with its name, its description and the name of its parent.
pub open spec fn tags_listed(tags: Seq<TagView>, mode: AccessModeView, upto: int) -> Seq<char>
    decreases upto,
{
    if upto <= 0 || upto > tags.len() {
        Seq::empty()
    } else {
        let i = upto - 1;
        let before = tags_listed(tags, mode, i);
        if mode.tags.contains(i as usize) {
            before + "("@ + tags[i].name + ", "@ + tags[i].desc + ", "@ + match tags[i].parent {
                Some(p) => if p < tags.len() {
                    tags[p as int].name
                } else {
                    "null"@
                },
                None => "null"@,
            } + "),"@
        } else {
            before
        }
    }
}

/// The line of a prompt that lists the tags that the access mode holds.
pub open spec fn existing_tags_line(database: ProxDatabaseView, access_mode: usize) -> Seq<char> {
    "    existing_tags:["@ + trim_char(
        tags_listed(
            database.tags,
            database.access_modes[access_mode as int],
            database.tags.len() as int,
        ),
        ',',
    ) + "],\n"@
}

/// The line of a prompt that describes the user.
pub open spec fn user_description_line(database: ProxDatabaseView) -> Seq<char> {
    "    user_description:\""@ + database.user.current_description + "\",\n"@
}

/// The folders `children` written out one after the other, each with its
/// name and its description.
pub open spec fn folders_listed(folders: Seq<ProxFolderView>, children: Seq<usize>) -> Seq<char>
    decreases children.len(),
{
    if children.len() == 0 {
        Seq::empty()
    } else {
        let child = children.last();
        folders_listed(folders, children.drop_last()) + if child < folders.len() {
            trim(
                "(\"folder\", "@ + folders[child as int].name + ", "@ + or_null(
                    folders[child as int].desc,
                ) + "),"@,
            )
        } else {
            Seq::empty()
        }
    }
}

/// The files `children` written out one after the other, each with its name
/// and its description.
pub open spec fn files_listed(files: Seq<ProxFileView>, children: Seq<usize>) -> Seq<char>
    decreases children.len(),
{
    if children.len() == 0 {
        Seq::empty()
    } else {
        let child = children.last();
        files_listed(files, children.drop_last()) + if child < files.len() {
            trim(
                "(\"file\", "@ + files[child as int].name + ", "@ + or_null(
                    files[child as int].desc,
                ) + "),"@,
            )
        } else {
            Seq::empty()
        }
    }
}

/// What a prompt says of the file or folder that is to be described.
/// `file_text` is what the file holds, where it is a file that holds text.
pub open spec fn target_lines(
    database: ProxDatabaseView,
    target: DescriptionTarget,
    file_text: Option<Seq<char>>,
) -> Seq<char> {
    match target {
        DescriptionTarget::File(id) => {
            let file = database.files[id as int];
            "    target_type:file,\n"@ + "    target_data:{\n        name:"@ + file.name
                + ",\n        path:"@ + file.absolute_path + ",\n        extension:"@ + or_null(
                file.extension,
            ) + ",\n        data:"@ + or_null(file_text) + "\n    },"@
        },
        DescriptionTarget::Folder(id) => {
            let folder = database.folders[id as int];
            "    target_type:folder,\n"@ + "    target_data:{\n        name:"@ + folder.name
                + ",\n        path:"@ + folder.absolute_path + ",\n        children:"@
                + trim_char(
                folders_listed(database.folders, folder.children) + files_listed(
                    database.files,
                    folder.files,
                ),
                ',',
            ) + "\n    },\n"@
        },
    }
}

/// Whether a prompt can be made for `target` under `access_mode`: both exist.
pub open spec fn can_describe(
    database: ProxDatabaseView,
    target: DescriptionTarget,
    access_mode: usize,
) -> bool {
    &&& access_mode < database.access_modes.len()
    &&& match target {
        DescriptionTarget::File(id) => id < database.files.len(),
        DescriptionTarget::Folder(id) => id < database.folders.len(),
    }
}

/// The prompt that asks for a description of `target`: the system prompt,
/// then a user fragment that shows the target, the tags that the access
/// mode holds, and the description of the user.
pub open spec fn desc_prompt(
    database: ProxDatabaseView,
    target: DescriptionTarget,
    access_mode: usize,
    system: ContextPartView,
    file_text: Option<Seq<char>>,
) -> Seq<ContextPartView> {
    seq![
        system,
        ContextPartView {
            data: seq![
                ContextDataView::Text(
                    "{"@ + target_lines(database, target, file_text) + existing_tags_line(
                        database,
                        access_mode,
                    ) + user_description_line(database) + "}"@,
                ),
            ],
            position: ContextPosition::User,
        },
    ]
}

/// The text of all items of the fragments of `parts`, images by their
/// stand-in text.
pub open spec fn shown_text(parts: Seq<ContextPartView>) -> Seq<char> {
    crate::text::join(
        all_data(parts).map_values(|d: ContextDataView| item_text(d)),
        Seq::empty(),
    )
}

/// The prompt that asks for tags for the dialogue `target`: the system
/// prompt, then a user fragment that shows the system prompt and the rest
/// of the dialogue, the tags that the access mode holds, and the
/// description of the user.
pub open spec fn tag_prompt(
    database: ProxDatabaseView,
    target: Seq<ContextPartView>,
    access_mode: usize,
    system: ContextPartView,
) -> Seq<ContextPartView> {
    seq![
        system,
        ContextPartView {
            data: seq![
                ContextDataView::Text(
                    "{"@ + "system_prompt: \""@ + shown_text(parts_by_kind(target, true)) + "\","@
                        + "chat_data: \""@ + shown_text(parts_by_kind(target, false)) + "\","@
                        + existing_tags_line(database, access_mode) + user_description_line(
                        database,
                    ) + "}"@,
                ),
            ],
            position: ContextPosition::User,
        },
    ]
}

fn existing_tags(database: &ProxDatabase, access_mode: usize) -> (r: String)
    requires
        access_mode < database@.access_modes.len(),
    ensures
        r@ == existing_tags_line(database@, access_mode),
{
    let tags = database.tags.get_tags();
    let modes = database.access_modes.get_modes();
    proof {
        assert(database@.access_modes[access_mode as int] == modes@[access_mode as int]@);
    }
    let held = modes[access_mode].get_tags();
    let mut list = String::new();
    let mut i: usize = 0;
    while i < tags.len()
        invariant
            i <= tags.len(),
            crate::database::tags::tag_views(tags@) == database@.tags,
            held@ == database@.access_modes[access_mode as int].tags,
            list@ == tags_listed(
                database@.tags,
                database@.access_modes[access_mode as int],
                i as int,
            ),
        decreases tags.len() - i,
    {
        proof {
            assert(database@.tags[i as int] == tags@[i as int]@);
        }
        if held.contains(&i) {
            list.append("(");
            list.append(tags[i].get_name().as_str());
            list.append(", ");
            list.append(tags[i].get_desc().get_text().as_str());
            list.append(", ");
            match tags[i].get_parent() {
                Some(p) => {
                    if p < tags.len() {
                        proof {
                            assert(database@.tags[p as int] == tags@[p as int]@);
                        }
                        list.append(tags[p].get_name().as_str());
                    } else {
                        list.append("null");
                    }
                },
                None => {
                    list.append("null");
                },
            }
            list.append("),");
        }
        i += 1;
    }
    "    existing_tags:[".to_string().concat(trim_char_text(list.as_str(), ',').as_str()).concat(
        "],\n",
    )
}

fn user_description(database: &ProxDatabase) -> (r: String)
    ensures
        r@ == user_description_line(database@),
{
    "    user_description:\"".to_string().concat(
        database.personal_info.user_data.get_desc().get_text().as_str(),
    ).concat("\",\n")
}

fn text_or_null(text: Option<String>) -> (r: String)
    ensures
        r@ == or_null(
            match text {
                Some(t) => Some(t@),
                None => None,
            },
        ),
{
    match text {
        Some(t) => t,
        None => "null".to_string(),
    }
}

fn description_or_null(desc: Option<Description>) -> (r: String)
    ensures
        r@ == or_null(crate::database::description::optional_description(desc)),
{
    match desc {
        Some(d) => d.get_text().clone(),
        None => "null".to_string(),
    }
}

fn list_folders(database: &ProxDatabase, children: &Vec<usize>) -> (r: String)
    ensures
        r@ == folders_listed(database@.folders, children@),
{
    let mut list = String::new();
    let mut i: usize = 0;
    proof {
        assert(children@.take(0).len() == 0);
    }
    while i < children.len()
        invariant
            i <= children.len(),
            list@ == folders_listed(database@.folders, children@.take(i as int)),
        decreases children.len() - i,
    {
        proof {
            assert(children@.take(i + 1).drop_last() =~= children@.take(i as int));
        }
        let child = children[i];
        if child < database.folders.number_of_folders() {
            let folder = database.folders.get_folder_by_id(child);
            let entry = "(\"folder\", ".to_string().concat(folder.get_name_string().as_str()).concat(
                ", ",
            ).concat(description_or_null(folder.get_desc()).as_str()).concat("),");
            list.append(trim_text(entry.as_str()).as_str());
        } else {
            proof {
                assert(list@ + Seq::<char>::empty() =~= list@);
            }
        }
        i += 1;
    }
    proof {
        assert(children@.take(children.len() as int) =~= children@);
    }
    list
}

fn list_files(database: &ProxDatabase, children: &Vec<usize>) -> (r: String)
    ensures
        r@ == files_listed(database@.files, children@),
{
    let mut list = String::new();
    let mut i: usize = 0;
    proof {
        assert(children@.take(0).len() == 0);
    }
    while i < children.len()
        invariant
            i <= children.len(),
            list@ == files_listed(database@.files, children@.take(i as int)),
        decreases children.len() - i,
    {
        proof {
            assert(children@.take(i + 1).drop_last() =~= children@.take(i as int));
        }
        let child = children[i];
        if child < database.files.len() {
            let file = database.files.get_file_by_id(child);
            let entry = "(\"file\", ".to_string().concat(
                file.get_name_string_lossy().as_str(),
            ).concat(", ").concat(description_or_null(file.get_desc()).as_str()).concat("),");
            list.append(trim_text(entry.as_str()).as_str());
        } else {
            proof {
                assert(list@ + Seq::<char>::empty() =~= list@);
            }
        }
        i += 1;
    }
    proof {
        assert(children@.take(children.len() as int) =~= children@);
    }
    list
}

fn user_prompt(text: String) -> (r: ContextPart)
    ensures
        r@ == (ContextPartView {
            data: seq![ContextDataView::Text(text@)],
            position: ContextPosition::User,
        }),
{
    let item = ContextData::Text(text);
    let mut data: Vec<ContextData> = Vec::new();
    data.push(item);
    proof {
        assert(data_views(data@) =~= seq![item@]);
    }
    ContextPart::new(data, ContextPosition::User)
}

fn two_parts(system: ContextPart, special: ContextPart) -> (r: WholeContext)
    ensures
        r@ == seq![system@, special@],
{
    let mut parts: Vec<ContextPart> = Vec::new();
    parts.push(system);
    parts.push(special);
    proof {
        assert(part_views(parts@) =~= seq![system@, special@]);
    }
    WholeContext::new(parts)
}

/// The prompt that asks for a description of `desc_target`. `system` is the
/// system prompt; `file_text` is what the file holds, where the target is a
/// file that holds text.
pub fn create_desc_prompt(
    database: &ProxDatabase,
    desc_target: DescriptionTarget,
    access_mode: usize,
    system: Prompt,
    file_text: Option<String>,
) -> (r: WholeContext)
    requires
        can_describe(database@, desc_target, access_mode),
    ensures
        r@ == desc_prompt(
            database@,
            desc_target,
            access_mode,
            system@,
            match file_text {
                Some(t) => Some(t@),
                None => None,
            },
        ),
{
    let target = match desc_target {
        DescriptionTarget::File(id) => {
            let file = database.files.get_file_by_id(id);
            "    target_type:file,\n".to_string().concat(
                "    target_data:{\n        name:",
            ).concat(file.get_name_string_lossy().as_str()).concat(",\n        path:").concat(
                file.get_path().as_str(),
            ).concat(",\n        extension:").concat(
                text_or_null(file.get_extension_lossy()).as_str(),
            ).concat(",\n        data:").concat(text_or_null(file_text).as_str()).concat(
                "\n    },",
            )
        },
        DescriptionTarget::Folder(id) => {
            let folder = database.folders.get_folder_by_id(id);
            let children = list_folders(database, folder.get_folder_children()).concat(
                list_files(database, folder.get_file_children()).as_str(),
            );
            "    target_type:folder,\n".to_string().concat(
                "    target_data:{\n        name:",
            ).concat(folder.get_name_string().as_str()).concat(",\n        path:").concat(
                folder.get_full_path().as_str(),
            ).concat(",\n        children:").concat(
                trim_char_text(children.as_str(), ',').as_str(),
            ).concat("\n    },\n")
        },
    };
    let text = "{".to_string().concat(target.as_str()).concat(
        existing_tags(database, access_mode).as_str(),
    ).concat(user_description(database).as_str()).concat("}");
    two_parts(system, user_prompt(text))
}

fn shown(parts: &WholeContext) -> (r: String)
    ensures
        r@ == shown_text(parts@),
{
    let single = parts.concatenate_into_single_part();
    let texts = single.data_to_text();
    proof {
        reveal_strlit("");
        assert(""@ =~= Seq::<char>::empty());
        assert(text_views(texts@).skip(0) =~= text_views(texts@));
    }
    crate::text::join_from(&texts, 0, "")
}

/// The prompt that asks for tags for the dialogue `tagging_target`.
/// `system` is the system prompt.
pub fn create_tag_prompt(
    database: &ProxDatabase,
    tagging_target: WholeContext,
    access_mode: usize,
    system: Prompt,
) -> (r: WholeContext)
    requires
        access_mode < database@.access_modes.len(),
    ensures
        r@ == tag_prompt(database@, tagging_target@, access_mode, system@),
{
    let system_text = shown(&tagging_target.get_whole_system_prompt());
    let chat_text = shown(&tagging_target.get_everything_but_system_prompt());
    let text = "{".to_string().concat("system_prompt: \"").concat(system_text.as_str()).concat(
        "\",",
    ).concat("chat_data: \"").concat(chat_text.as_str()).concat("\",").concat(
        existing_tags(database, access_mode).as_str(),
    ).concat(user_description(database).as_str()).concat("}");
    two_parts(system, user_prompt(text))
}

/// The prompt that `agent_prompt` asks for; `None` where the access mode or
/// the item that it names does not exist. `system` is the system prompt;
/// `file_text` is what the file to describe holds, where it holds text.
pub fn get_agent_prompt_context(
    database: &ProxDatabase,
    agent_prompt: AgentPrompt,
    system: Prompt,
    file_text: Option<String>,
) -> (r: Option<WholeContext>)
    ensures
        match r {
            Some(context) => agent_prompt_context(
                database@,
                agent_prompt.get_access_mode(),
                agent_prompt.get_prompt_type()@,
                system@,
                match file_text {
                    Some(t) => Some(t@),
                    None => None,
                },
            ) == Some(context@),
            None => agent_prompt_context(
                database@,
                agent_prompt.get_access_mode(),
                agent_prompt.get_prompt_type()@,
                system@,
                match file_text {
                    Some(t) => Some(t@),
                    None => None,
                },
            ) is None,
        },
{
    let access_mode = agent_prompt.access_mode;
    if access_mode >= database.access_modes.get_modes().len() {
        return None;
    }
    match agent_prompt.prompt_type {
        AgentPromptType::Description { desc_target } => {
            let exists = match desc_target {
                DescriptionTarget::File(id) => id < database.files.len(),
                DescriptionTarget::Folder(id) => id < database.folders.number_of_folders(),
            };
            if exists {
                Some(create_desc_prompt(database, desc_target, access_mode, system, file_text))
            } else {
                None
            }
        },
        AgentPromptType::Tag { tag_target } => Some(
            create_tag_prompt(database, tag_target, access_mode, system),
        ),
    }
}

} // verus!
