//! Chat configurations: named profiles of settings that dialogues run under.

use crate::ai_interaction::tools::{
    data_shifted_if, derived_tools, lemma_shifted_data_wf, lemma_shifted_tools_wf,
    same_tool_list, settings_data_ok, tool_prompt_text, tool_shown_name, tools_in_settings,
    tools_of_settings, tools_shifted_if, ProximaTool, ProximaToolData, ProximaToolDataView, Tools,
    ToolsView,
};
use crate::database::access_modes::AccessModeID;
use crate::database::context::{ContextDataView, ContextPart, ContextPartView, ContextPosition};
use crate::database::ids::{
    clone_ids, shift_id_if, shift_ids_if, shifted_ids_if, shifted_if, ItemKind,
};
use crate::database::tags::TagID;
use crate::database::timestamp::Timestamp;
use crate::text::{decimal, decimal_text, hundredths, hundredths_text};
use std::collections::HashSet;
use vstd::prelude::*;

verus! {

broadcast use vstd::std_specs::hash::group_hash_axioms;

pub type ChatConfigID = usize;

/// Where a repeated pre-prompt goes in each turn.
#[derive(Clone, Copy, PartialEq, Eq, Structural, Debug)]
pub enum RepeatPosition {
    BeforeLatest,
    AfterLatest,
}

/// One setting of a chat configuration.
#[derive(PartialEq, Eq, Debug)]
pub enum ChatSetting {
    SystemPrompt(ContextPart),
    /// The temperature, in hundredths.
    Temperature(u64),
    ResponseTokenLimit(usize),
    MaxContextLength(usize),
    AccessMode(AccessModeID),
    PrePrompt(ContextPart),
    RepeatedPrePrompt(ContextPart, RepeatPosition),
    /// A tool, with the data it starts with where that is not its empty data.
    Tool(ProximaTool, Option<ProximaToolData>),
}

/// The mathematical value of a [`ChatSetting`].
pub enum ChatSettingView {
    SystemPrompt(ContextPartView),
    Temperature(u64),
    ResponseTokenLimit(usize),
    MaxContextLength(usize),
    AccessMode(usize),
    PrePrompt(ContextPartView),
    RepeatedPrePrompt(ContextPartView, RepeatPosition),
    Tool(ProximaTool, Option<ProximaToolDataView>),
}

impl View for ChatSetting {
    type V = ChatSettingView;

    open spec fn view(&self) -> ChatSettingView {
        match self {
            ChatSetting::SystemPrompt(part) => ChatSettingView::SystemPrompt(part@),
            ChatSetting::Temperature(t) => ChatSettingView::Temperature(*t),
            ChatSetting::ResponseTokenLimit(n) => ChatSettingView::ResponseTokenLimit(*n),
            ChatSetting::MaxContextLength(n) => ChatSettingView::MaxContextLength(*n),
            ChatSetting::AccessMode(id) => ChatSettingView::AccessMode(*id),
            ChatSetting::PrePrompt(part) => ChatSettingView::PrePrompt(part@),
            ChatSetting::RepeatedPrePrompt(part, position) => ChatSettingView::RepeatedPrePrompt(
                part@,
                *position,
            ),
            ChatSetting::Tool(tool, data) => ChatSettingView::Tool(
                *tool,
                match data {
                    Some(d) => Some(d@),
                    None => None,
                },
            ),
        }
    }
}

impl Clone for ChatSetting {
    fn clone(&self) -> (r: Self)
        ensures
            r@ == self@,
    {
        match self {
            ChatSetting::SystemPrompt(part) => ChatSetting::SystemPrompt(part.clone()),
            ChatSetting::Temperature(t) => ChatSetting::Temperature(*t),
            ChatSetting::ResponseTokenLimit(n) => ChatSetting::ResponseTokenLimit(*n),
            ChatSetting::MaxContextLength(n) => ChatSetting::MaxContextLength(*n),
            ChatSetting::AccessMode(id) => ChatSetting::AccessMode(*id),
            ChatSetting::PrePrompt(part) => ChatSetting::PrePrompt(part.clone()),
            ChatSetting::RepeatedPrePrompt(part, position) => ChatSetting::RepeatedPrePrompt(
                part.clone(),
                *position,
            ),
            ChatSetting::Tool(tool, data) => ChatSetting::Tool(
                *tool,
                match data {
                    Some(d) => Some(d.clone()),
                    None => None,
                },
            ),
        }
    }
}

/// The title that a setting is shown under: what kind of setting it is,
/// with the tool, the limit or the temperature that it sets.
pub open spec fn setting_title(setting: ChatSettingView) -> Seq<char> {
    match setting {
        ChatSettingView::Tool(tool, _) => "Tool : "@ + tool_shown_name(tool),
        ChatSettingView::AccessMode(_) => "Access mode"@,
        ChatSettingView::MaxContextLength(limit) => "Max context : "@ + decimal(limit as nat),
        ChatSettingView::ResponseTokenLimit(limit) => "Response limit : "@ + decimal(
            limit as nat,
        ),
        ChatSettingView::PrePrompt(_) => "Pre-prompt : initial"@,
        ChatSettingView::RepeatedPrePrompt(_, _) => "repeated pre-prompt"@,
        ChatSettingView::Temperature(temperature) => "Temperature : "@ + hundredths(
            temperature as nat,
        ),
        ChatSettingView::SystemPrompt(_) => "System prompt"@,
    }
}

impl ChatSetting {
    /// The title that the setting is shown under.
    pub fn get_title(&self) -> (r: String)
        ensures
            r@ == setting_title(self@),
    {
        match self {
            ChatSetting::Tool(tool, _) => "Tool : ".to_string().concat(tool.get_name().as_str()),
            ChatSetting::AccessMode(_) => "Access mode".to_string(),
            ChatSetting::MaxContextLength(limit) => "Max context : ".to_string().concat(
                decimal_text(*limit as u64).as_str(),
            ),
            ChatSetting::ResponseTokenLimit(limit) => "Response limit : ".to_string().concat(
                decimal_text(*limit as u64).as_str(),
            ),
            ChatSetting::PrePrompt(_) => "Pre-prompt : initial".to_string(),
            ChatSetting::RepeatedPrePrompt(_, _) => "repeated pre-prompt".to_string(),
            ChatSetting::Temperature(temperature) => "Temperature : ".to_string().concat(
                hundredths_text(*temperature).as_str(),
            ),
            ChatSetting::SystemPrompt(_) => "System prompt".to_string(),
        }
    }
}

/// The values of a sequence of settings.
pub open spec fn setting_views(settings: Seq<ChatSetting>) -> Seq<ChatSettingView> {
    settings.map_values(|s: ChatSetting| s@)
}

/// Clones a list of settings.
pub fn clone_settings(settings: &Vec<ChatSetting>) -> (r: Vec<ChatSetting>)
    ensures
        setting_views(r@) == setting_views(settings@),
{
    let r = settings.clone();
    proof {
        assert(setting_views(r@) =~= setting_views(settings@));
    }
    r
}

/// The value of optional tools.
pub open spec fn optional_tools(tools: Option<Tools>) -> Option<ToolsView> {
    match tools {
        Some(t) => Some(t@),
        None => None,
    }
}

/// Clones optional tools.
pub fn clone_optional_tools(tools: &Option<Tools>) -> (r: Option<Tools>)
    ensures
        optional_tools(r) == optional_tools(*tools),
{
    match tools {
        Some(t) => Some(t.clone()),
        None => None,
    }
}

/// A chat configuration.
#[derive(PartialEq, Eq, Debug)]
pub struct ChatConfiguration {
    pub id: ChatConfigID,
    pub created_on: Timestamp,
    pub last_updated: Timestamp,
    pub raw_settings: Vec<ChatSetting>,
    pub tools: Option<Tools>,
    pub tags: HashSet<TagID>,
    pub access_modes: HashSet<AccessModeID>,
    pub name: String,
}

/// The mathematical value of a [`ChatConfiguration`].
pub struct ChatConfigurationView {
    pub id: usize,
    pub created_on: Timestamp,
    pub last_updated: Timestamp,
    pub raw_settings: Seq<ChatSettingView>,
    pub tools: Option<ToolsView>,
    pub tags: Set<usize>,
    pub access_modes: Set<usize>,
    pub name: Seq<char>,
}

impl View for ChatConfiguration {
    type V = ChatConfigurationView;

    open spec fn view(&self) -> ChatConfigurationView {
        ChatConfigurationView {
            id: self.id,
            created_on: self.created_on,
            last_updated: self.last_updated,
            raw_settings: setting_views(self.raw_settings@),
            tools: optional_tools(self.tools),
            tags: self.tags@,
            access_modes: self.access_modes@,
            name: self.name@,
        }
    }
}

impl Clone for ChatConfiguration {
    fn clone(&self) -> (r: Self)
        ensures
            r@ == self@,
    {
        ChatConfiguration {
            id: self.id,
            created_on: self.created_on,
            last_updated: self.last_updated,
            raw_settings: clone_settings(&self.raw_settings),
            tools: clone_optional_tools(&self.tools),
            tags: clone_ids(&self.tags),
            access_modes: clone_ids(&self.access_modes),
            name: self.name.clone(),
        }
    }
}

impl ChatConfigurationView {
    /// Whether the tools are those that the settings set up, what the tools
    /// keep and start with is in order, and the global access mode is among
    /// the access modes.
    pub open spec fn wf(self) -> bool {
        &&& self.access_modes.contains(0)
        &&& settings_data_ok(self.raw_settings)
        &&& match self.tools {
            Some(tools) => tools.used_tools.len() > 0 && tools.used_tools == tools_of_settings(
                self.raw_settings,
            ) && tools.wf(),
            None => tools_of_settings(self.raw_settings).len() == 0,
        }
    }
}

/// A setting after an insertion of an item of `kind` at `at`: the access
/// mode that it names follows an inserted access mode, and the agent records
/// that a tool starts with follow an inserted chat.
pub open spec fn setting_shifted(setting: ChatSettingView, kind: ItemKind, at: usize)
    -> ChatSettingView {
    match setting {
        ChatSettingView::AccessMode(id) => ChatSettingView::AccessMode(
            shifted_if(kind == ItemKind::AccessMode, id, at),
        ),
        ChatSettingView::Tool(tool, Some(data)) => ChatSettingView::Tool(
            tool,
            Some(data_shifted_if(kind == ItemKind::Chat, data, at)),
        ),
        _ => setting,
    }
}

/// Settings after an insertion of an item of `kind` at `at`.
pub open spec fn settings_shifted(settings: Seq<ChatSettingView>, kind: ItemKind, at: usize)
    -> Seq<ChatSettingView> {
    settings.map_values(|s: ChatSettingView| setting_shifted(s, kind, at))
}

/// A configuration after an insertion of an item of `kind` at `at`: every
/// reference that it holds to an item of that kind is brought up to date.
/// These are its tags and access modes, the access modes that its settings
/// name, and the chats of the agent records in its settings and among what
/// its tools keep.
pub open spec fn config_shifted(config: ChatConfigurationView, kind: ItemKind, at: usize)
    -> ChatConfigurationView {
    ChatConfigurationView {
        raw_settings: settings_shifted(config.raw_settings, kind, at),
        tools: match config.tools {
            Some(tools) => Some(tools_shifted_if(kind == ItemKind::Chat, tools, at)),
            None => None,
        },
        tags: shifted_ids_if(kind == ItemKind::Tag, config.tags, at),
        access_modes: shifted_ids_if(kind == ItemKind::AccessMode, config.access_modes, at),
        ..config
    }
}

/// Bringing references up to date changes no tool of the settings.
pub proof fn lemma_shifted_settings_keep_tools(
    settings: Seq<ChatSettingView>,
    kind: ItemKind,
    at: usize,
)
    ensures
        tools_of_settings(settings_shifted(settings, kind, at)) == tools_of_settings(settings),
    decreases settings.len(),
{
    if settings.len() > 0 {
        lemma_shifted_settings_keep_tools(settings.drop_last(), kind, at);
        assert(settings_shifted(settings, kind, at).drop_last() =~= settings_shifted(
            settings.drop_last(),
            kind,
            at,
        ));
    }
}

/// Settings whose data is in order stay so when their references follow an
/// insertion.
pub proof fn lemma_shifted_settings_data_ok(
    settings: Seq<ChatSettingView>,
    kind: ItemKind,
    at: usize,
)
    requires
        settings_data_ok(settings),
    ensures
        settings_data_ok(settings_shifted(settings, kind, at)),
{
    let after = settings_shifted(settings, kind, at);
    assert forall|i: int| 0 <= i < after.len() implies match #[trigger] after[i] {
        ChatSettingView::Tool(_, Some(data)) => data.wf(),
        _ => true,
    } by {
        match settings[i] {
            ChatSettingView::Tool(_, Some(data)) => {
                lemma_shifted_data_wf(kind == ItemKind::Chat, data, at);
            },
            _ => {},
        }
    }
}

/// A well-formed configuration stays well formed when its references
/// follow an insertion that leaves the global access mode in its place.
pub proof fn lemma_shifted_config_wf(config: ChatConfigurationView, kind: ItemKind, at: usize)
    requires
        config.wf(),
        kind == ItemKind::AccessMode ==> at >= 1,
    ensures
        config_shifted(config, kind, at).wf(),
{
    lemma_shifted_settings_keep_tools(config.raw_settings, kind, at);
    lemma_shifted_settings_data_ok(config.raw_settings, kind, at);
    if config.tools is Some {
        lemma_shifted_tools_wf(kind == ItemKind::Chat, config.tools->0, at);
    }
    if kind == ItemKind::AccessMode {
        assert(config.access_modes.contains(0));
        assert(crate::database::ids::shifted(0, at) == 0);
    }
}

/// Whether the data that the tools of `settings` start with is in order.
pub fn settings_data_in_order(settings: &Vec<ChatSetting>) -> (r: bool)
    ensures
        r == settings_data_ok(setting_views(settings@)),
{
    let ghost all = setting_views(settings@);
    let mut i: usize = 0;
    while i < settings.len()
        invariant
            i <= settings.len(),
            all == setting_views(settings@),
            forall|j: int|
                0 <= j < i ==> match #[trigger] all[j] {
                    ChatSettingView::Tool(_, Some(data)) => data.wf(),
                    _ => true,
                },
        decreases settings.len() - i,
    {
        proof {
            assert(all[i as int] == settings@[i as int]@);
        }
        match &settings[i] {
            ChatSetting::Tool(_, Some(data)) => {
                if !data.is_well_formed() {
                    return false;
                }
            },
            _ => {},
        }
        i += 1;
    }
    true
}

/// The setting after an insertion of an item of `kind` at `at`.
pub fn shifted_setting(setting: &ChatSetting, kind: ItemKind, at: usize) -> (r: ChatSetting)
    ensures
        r@ == setting_shifted(setting@, kind, at),
{
    match setting {
        ChatSetting::AccessMode(id) => {
            let mut id = *id;
            shift_id_if(kind == ItemKind::AccessMode, &mut id, at);
            ChatSetting::AccessMode(id)
        },
        ChatSetting::Tool(tool, Some(data)) => ChatSetting::Tool(
            *tool,
            Some(data.shifted_copy(kind == ItemKind::Chat, at)),
        ),
        _ => setting.clone(),
    }
}

/// The first temperature among `settings`, or 70 hundredths without one.
pub open spec fn temperature_of(settings: Seq<ChatSettingView>) -> u64
    decreases settings.len(),
{
    if settings.len() == 0 {
        70
    } else {
        match settings[0] {
            ChatSettingView::Temperature(t) => t,
            _ => temperature_of(settings.drop_first()),
        }
    }
}

/// The first context length limit among `settings`, or 16184 without one.
pub open spec fn max_context_of(settings: Seq<ChatSettingView>) -> usize
    decreases settings.len(),
{
    if settings.len() == 0 {
        16184
    } else {
        match settings[0] {
            ChatSettingView::MaxContextLength(n) => n,
            _ => max_context_of(settings.drop_first()),
        }
    }
}

/// The first response token limit among `settings`, or 2048 without one.
pub open spec fn max_response_of(settings: Seq<ChatSettingView>) -> usize
    decreases settings.len(),
{
    if settings.len() == 0 {
        2048
    } else {
        match settings[0] {
            ChatSettingView::ResponseTokenLimit(n) => n,
            _ => max_response_of(settings.drop_first()),
        }
    }
}

/// The items of the system prompts among `settings`, in order.
pub open spec fn system_prompt_data(settings: Seq<ChatSettingView>) -> Seq<ContextDataView>
    decreases settings.len(),
{
    if settings.len() == 0 {
        Seq::empty()
    } else {
        match settings.last() {
            ChatSettingView::SystemPrompt(part) => system_prompt_data(settings.drop_last())
                + part.data,
            _ => system_prompt_data(settings.drop_last()),
        }
    }
}

/// The whole system prompt of a configuration: the items of its system
/// prompts, then what its tools have the model told.
pub open spec fn full_system_prompt(config: ChatConfigurationView) -> ContextPartView {
    ContextPartView {
        data: match config.tools {
            Some(tools) => system_prompt_data(config.raw_settings) + seq![
                ContextDataView::Text(tool_prompt_text(tools.used_tools) + "\n</ToolUse>"@),
            ],
            None => system_prompt_data(config.raw_settings),
        },
        position: ContextPosition::System,
    }
}

impl ChatConfiguration {
    /// A configuration called `name`, made at the time of the call, with the
    /// tools that the settings set up, no tags, and the global access mode.
    pub fn new(name: String, raw_settings: Vec<ChatSetting>) -> (r: ChatConfiguration)
        ensures
            r@ == (ChatConfigurationView {
                id: 0,
                created_on: r@.created_on,
                last_updated: r@.last_updated,
                raw_settings: setting_views(raw_settings@),
                tools: derived_tools(setting_views(raw_settings@)),
                tags: Set::empty(),
                access_modes: Set::empty().insert(0),
                name: name@,
            }),
            settings_data_ok(setting_views(raw_settings@)) ==> r@.wf(),
    {
        let mut access_modes: HashSet<AccessModeID> = HashSet::new();
        access_modes.insert(0);
        let tools = Tools::try_from_settings(clone_settings(&raw_settings));
        ChatConfiguration {
            id: 0,
            created_on: Timestamp::now(),
            last_updated: Timestamp::now(),
            raw_settings,
            tools,
            tags: HashSet::new(),
            access_modes,
            name,
        }
    }

    /// Like [`ChatConfiguration::new`], with `tags` and with `access_modes`
    /// and the global access mode.
    pub fn new_with_tags_access_modes(
        name: String,
        raw_settings: Vec<ChatSetting>,
        tags: HashSet<TagID>,
        access_modes: HashSet<AccessModeID>,
    ) -> (r: ChatConfiguration)
        ensures
            r@ == (ChatConfigurationView {
                id: 0,
                created_on: r@.created_on,
                last_updated: r@.last_updated,
                raw_settings: setting_views(raw_settings@),
                tools: derived_tools(setting_views(raw_settings@)),
                tags: tags@,
                access_modes: access_modes@.insert(0),
                name: name@,
            }),
            settings_data_ok(setting_views(raw_settings@)) ==> r@.wf(),
    {
        let mut access_modes = access_modes;
        access_modes.insert(0);
        let tools = Tools::try_from_settings(clone_settings(&raw_settings));
        ChatConfiguration {
            id: 0,
            created_on: Timestamp::now(),
            last_updated: Timestamp::now(),
            raw_settings,
            tools,
            tags,
            access_modes,
            name,
        }
    }

    /// Brings the references of the configuration up to date after an
    /// insertion of an item of `kind` at `at`.
    pub fn shift_references(&mut self, kind: ItemKind, at: usize)
        ensures
            final(self)@ == config_shifted(old(self)@, kind, at),
    {
        shift_ids_if(kind == ItemKind::Tag, &mut self.tags, at);
        shift_ids_if(kind == ItemKind::AccessMode, &mut self.access_modes, at);
        let mut settings: Vec<ChatSetting> = Vec::new();
        let mut i: usize = 0;
        while i < self.raw_settings.len()
            invariant
                i <= self.raw_settings.len(),
                settings.len() == i,
                self.raw_settings == old(self).raw_settings,
                forall|j: int|
                    0 <= j < i ==> (#[trigger] settings@[j])@ == setting_shifted(
                        self.raw_settings@[j]@,
                        kind,
                        at,
                    ),
            decreases self.raw_settings.len() - i,
        {
            settings.push(shifted_setting(&self.raw_settings[i], kind, at));
            i += 1;
        }
        proof {
            assert(setting_views(settings@) =~= settings_shifted(
                setting_views(old(self).raw_settings@),
                kind,
                at,
            ));
        }
        self.raw_settings = settings;
        match &mut self.tools {
            Some(tools) => {
                tools.shift_references(kind == ItemKind::Chat, at);
            },
            None => {},
        }
    }

    /// Whether the tools are those that the settings set up, what the tools
    /// keep and start with is in order, and the global access mode is among
    /// the access modes.
    pub fn is_well_formed(&self) -> (r: bool)
        ensures
            r == self@.wf(),
    {
        if !self.access_modes.contains(&0) {
            return false;
        }
        if !settings_data_in_order(&self.raw_settings) {
            return false;
        }
        let derived = tools_in_settings(&self.raw_settings);
        match &self.tools {
            Some(tools) => tools.get_used_tools().len() > 0 && same_tool_list(
                tools.get_used_tools(),
                &derived,
            ) && tools.is_well_formed(),
            None => derived.len() == 0,
        }
    }

    /// The settings.
    pub fn get_raw_settings(&self) -> (r: &Vec<ChatSetting>)
        ensures
            setting_views(r@) == self@.raw_settings,
    {
        &self.raw_settings
    }

    /// The temperature, in hundredths.
    pub fn get_temp(&self) -> (r: u64)
        ensures
            r == temperature_of(self@.raw_settings),
    {
        let ghost all = self@.raw_settings;
        let mut i: usize = 0;
        proof {
            assert(all.skip(0) =~= all);
        }
        while i < self.raw_settings.len()
            invariant
                i <= self.raw_settings.len(),
                all == setting_views(self.raw_settings@),
                temperature_of(all) == temperature_of(all.skip(i as int)),
            decreases self.raw_settings.len() - i,
        {
            proof {
                assert(all.skip(i as int).drop_first() =~= all.skip(i + 1));
            }
            match &self.raw_settings[i] {
                ChatSetting::Temperature(t) => {
                    return *t;
                },
                _ => (),
            }
            i += 1;
        }
        70
    }

    /// The greatest length of the context.
    pub fn get_max_context(&self) -> (r: usize)
        ensures
            r == max_context_of(self@.raw_settings),
    {
        let ghost all = self@.raw_settings;
        let mut i: usize = 0;
        proof {
            assert(all.skip(0) =~= all);
        }
        while i < self.raw_settings.len()
            invariant
                i <= self.raw_settings.len(),
                all == setting_views(self.raw_settings@),
                max_context_of(all) == max_context_of(all.skip(i as int)),
            decreases self.raw_settings.len() - i,
        {
            proof {
                assert(all.skip(i as int).drop_first() =~= all.skip(i + 1));
            }
            match &self.raw_settings[i] {
                ChatSetting::MaxContextLength(n) => {
                    return *n;
                },
                _ => (),
            }
            i += 1;
        }
        16184
    }

    /// The greatest number of tokens of a response.
    pub fn get_max_response(&self) -> (r: usize)
        ensures
            r == max_response_of(self@.raw_settings),
    {
        let ghost all = self@.raw_settings;
        let mut i: usize = 0;
        proof {
            assert(all.skip(0) =~= all);
        }
        while i < self.raw_settings.len()
            invariant
                i <= self.raw_settings.len(),
                all == setting_views(self.raw_settings@),
                max_response_of(all) == max_response_of(all.skip(i as int)),
            decreases self.raw_settings.len() - i,
        {
            proof {
                assert(all.skip(i as int).drop_first() =~= all.skip(i + 1));
            }
            match &self.raw_settings[i] {
                ChatSetting::ResponseTokenLimit(n) => {
                    return *n;
                },
                _ => (),
            }
            i += 1;
        }
        2048
    }

    /// The tools.
    pub fn get_tools(&self) -> (r: &Option<Tools>)
        ensures
            optional_tools(*r) == self@.tools,
    {
        &self.tools
    }

    /// Gives the configuration other tools.
    pub fn set_tools(&mut self, new_tools: Option<Tools>)
        ensures
            final(self)@ == (ChatConfigurationView {
                tools: optional_tools(new_tools),
                ..old(self)@
            }),
    {
        self.tools = new_tools;
    }

    /// The whole system prompt.
    pub fn get_full_system_prompt(&self) -> (r: ContextPart)
        ensures
            r@ == full_system_prompt(self@),
    {
        let mut system_prompt = ContextPart::new(Vec::new(), ContextPosition::System);
        let ghost all = self@.raw_settings;
        let mut i: usize = 0;
        proof {
            assert(system_prompt@.data =~= system_prompt_data(all.take(0)));
        }
        while i < self.raw_settings.len()
            invariant
                i <= self.raw_settings.len(),
                all == setting_views(self.raw_settings@),
                system_prompt@ == (ContextPartView {
                    data: system_prompt_data(all.take(i as int)),
                    position: ContextPosition::System,
                }),
            decreases self.raw_settings.len() - i,
        {
            proof {
                assert(all.take(i + 1).drop_last() =~= all.take(i as int));
                assert(all.take(i + 1).last() == self.raw_settings@[i as int]@);
            }
            match &self.raw_settings[i] {
                ChatSetting::SystemPrompt(prompt) => system_prompt.merge_data_with(prompt.clone()),
                _ => (),
            }
            i += 1;
        }
        proof {
            assert(all.take(self.raw_settings.len() as int) =~= all);
        }
        match &self.tools {
            Some(tools) => system_prompt.merge_data_with(tools.get_tool_calling_sys_prompt()),
            None => (),
        }
        system_prompt
    }
}

/// The values of a sequence of configurations.
pub open spec fn config_views(configs: Seq<ChatConfiguration>) -> Seq<ChatConfigurationView> {
    configs.map_values(|c: ChatConfiguration| c@)
}

/// Whether every configuration of `configs` has its position as its id.
pub open spec fn configs_dense(configs: Seq<ChatConfigurationView>) -> bool {
    forall|i: int| 0 <= i < configs.len() ==> (#[trigger] configs[i]).id == i
}

/// Whether every configuration of `configs` is well formed.
pub open spec fn configs_valid(configs: Seq<ChatConfigurationView>) -> bool {
    forall|i: int| 0 <= i < configs.len() ==> (#[trigger] configs[i]).wf()
}

/// `configs` with `config` inserted at the position that is its id, and the
/// id of each configuration behind it raised by one.
pub open spec fn configs_inserted(
    configs: Seq<ChatConfigurationView>,
    config: ChatConfigurationView,
) -> Seq<ChatConfigurationView> {
    Seq::new(
        configs.len() + 1,
        |i: int|
            if i < config.id {
                configs[i]
            } else if i == config.id {
                config
            } else {
                (ChatConfigurationView {
                    id: crate::database::ids::shifted(configs[i - 1].id, 0),
                    ..configs[i - 1]
                })
            },
    )
}

/// All chat configurations, each at the position that is its id.
#[derive(PartialEq, Eq, Debug)]
pub struct ChatConfigurations {
    pub all_configs: Vec<ChatConfiguration>,
}

impl View for ChatConfigurations {
    type V = Seq<ChatConfigurationView>;

    open spec fn view(&self) -> Seq<ChatConfigurationView> {
        config_views(self.all_configs@)
    }
}

impl Clone for ChatConfigurations {
    fn clone(&self) -> (r: Self)
        ensures
            r@ == self@,
    {
        let all_configs = self.all_configs.clone();
        proof {
            assert(config_views(all_configs@) =~= config_views(self.all_configs@));
        }
        ChatConfigurations { all_configs }
    }
}

impl ChatConfigurations {
    /// Whether ids are positions and every configuration is well formed.
    pub open spec fn wf(&self) -> bool {
        configs_dense(self@) && configs_valid(self@)
    }

    /// No configurations.
    pub fn new() -> (r: ChatConfigurations)
        ensures
            r@ == Seq::<ChatConfigurationView>::empty(),
            r.wf(),
    {
        let all_configs: Vec<ChatConfiguration> = Vec::new();
        proof {
            assert(config_views(all_configs@) =~= Seq::<ChatConfigurationView>::empty());
        }
        ChatConfigurations { all_configs }
    }

    /// Adds `config` at the end, under the next id, which is returned.
    pub fn add_config(&mut self, config: ChatConfiguration) -> (id: ChatConfigID)
        ensures
            id == old(self)@.len(),
            final(self)@ == old(self)@.push((ChatConfigurationView { id, ..config@ })),
            old(self).wf() && config@.wf() ==> final(self).wf(),
    {
        let mut config = config;
        let id = self.all_configs.len();
        config.id = id;
        let ghost before = self.all_configs@;
        self.all_configs.push(config);
        proof {
            assert(config_views(self.all_configs@) =~= config_views(before).push(config@));
        }
        id
    }

    /// Puts `config` in the place of the configuration that has its id.
    pub fn update_config(&mut self, config: ChatConfiguration)
        requires
            config.id < old(self)@.len(),
        ensures
            final(self)@ == old(self)@.update(config.id as int, config@),
            old(self).wf() && config@.wf() ==> final(self).wf(),
    {
        let id = config.id;
        let ghost before = self.all_configs@;
        self.all_configs[id] = config;
        proof {
            assert(config_views(self.all_configs@) =~= config_views(before).update(
                id as int,
                config@,
            ));
        }
    }

    /// Inserts `config` at the position that is its id; the id of each
    /// configuration behind it goes up by one.
    pub fn insert_config(&mut self, config: ChatConfiguration)
        requires
            config.id <= old(self)@.len(),
        ensures
            final(self)@ == configs_inserted(old(self)@, config@),
            old(self).wf() && config@.wf() ==> final(self).wf(),
    {
        let id = config.id;
        let ghost before = self@;
        let mut i: usize = id;
        while i < self.all_configs.len()
            invariant
                id <= i <= self.all_configs.len(),
                self@.len() == before.len(),
                forall|j: int|
                    0 <= j < before.len() ==> #[trigger] self@[j] == if id <= j < i {
                        (ChatConfigurationView {
                            id: crate::database::ids::shifted(before[j].id, 0),
                            ..before[j]
                        })
                    } else {
                        before[j]
                    },
            decreases self.all_configs.len() - i,
        {
            let ghost prev = self.all_configs@;
            let old_id = self.all_configs[i].id;
            let new_id = crate::database::ids::shift_id(old_id, 0);
            self.all_configs[i].id = new_id;
            proof {
                assert forall|j: int| 0 <= j < before.len() implies #[trigger] self@[j] == if id
                    <= j < i + 1 {
                    (ChatConfigurationView {
                        id: crate::database::ids::shifted(before[j].id, 0),
                        ..before[j]
                    })
                } else {
                    before[j]
                } by {
                    assert(config_views(prev)[j] == prev[j]@);
                    if j != i {
                        assert(self.all_configs@[j] == prev[j]);
                    } else {
                        assert(self.all_configs@[j]@ == (ChatConfigurationView {
                            id: new_id,
                            ..prev[j]@
                        }));
                    }
                }
            }
            i += 1;
        }
        let ghost shifted_all = self@;
        self.all_configs.insert(id, config);
        proof {
            assert forall|j: int| 0 <= j < self@.len() implies self@[j] == configs_inserted(
                before,
                config@,
            )[j] by {
                if j < id {
                    assert(self@[j] == shifted_all[j]);
                } else if j > id {
                    assert(self@[j] == shifted_all[j - 1]);
                }
            }
            assert(self@ =~= configs_inserted(before, config@));
            if old(self).wf() && config@.wf() {
                assert forall|j: int| 0 <= j < self@.len() implies (#[trigger] self@[j]).id
                    == j && self@[j].wf() by {
                    if j > id {
                        assert(before[j - 1].id == j - 1);
                        assert(before[j - 1].wf());
                    } else if j < id {
                        assert(before[j].id == j);
                        assert(before[j].wf());
                    }
                }
            }
        }
    }

    /// Brings the references of every configuration up to date after an insertion of
    /// an item of `kind` at `at`.
    pub fn shift_references(&mut self, kind: ItemKind, at: usize)
        ensures
            final(self)@ == old(self)@.map_values(|x: ChatConfigurationView| config_shifted(x, kind, at)),
    {
        let ghost before = self@;
        let mut i: usize = 0;
        while i < self.all_configs.len()
            invariant
                i <= self.all_configs.len(),
                self@.len() == before.len(),
                forall|j: int|
                    0 <= j < before.len() ==> #[trigger] self@[j] == if j < i {
                        config_shifted(before[j], kind, at)
                    } else {
                        before[j]
                    },
            decreases self.all_configs.len() - i,
        {
            let ghost prev = self.all_configs@;
            self.all_configs[i].shift_references(kind, at);
            proof {
                assert forall|j: int| 0 <= j < before.len() implies #[trigger] self@[j] == if j
                    < i + 1 {
                    config_shifted(before[j], kind, at)
                } else {
                    before[j]
                } by {
                    assert(config_views(prev)[j] == prev[j]@);
                    if j != i {
                        assert(self.all_configs@[j] == prev[j]);
                    }
                }
            }
            i += 1;
        }
        proof {
            assert(self@ =~= before.map_values(|x: ChatConfigurationView| config_shifted(x, kind, at)));
        }
    }

    /// Whether every configuration has its position as its id.
    pub fn is_dense(&self) -> (r: bool)
        ensures
            r == configs_dense(self@),
    {
        let mut i: usize = 0;
        while i < self.all_configs.len()
            invariant
                i <= self.all_configs.len(),
                forall|j: int| 0 <= j < i ==> (#[trigger] self@[j]).id == j,
            decreases self.all_configs.len() - i,
        {
            if self.all_configs[i].id != i {
                proof {
                    assert(self@[i as int].id != i);
                }
                return false;
            }
            i += 1;
        }
        true
    }

    /// Whether ids are positions and every configuration is well formed.
    pub fn is_well_formed(&self) -> (r: bool)
        ensures
            r == self.wf(),
    {
        if !self.is_dense() {
            return false;
        }
        let mut i: usize = 0;
        while i < self.all_configs.len()
            invariant
                i <= self.all_configs.len(),
                forall|j: int| 0 <= j < i ==> (#[trigger] self@[j]).wf(),
            decreases self.all_configs.len() - i,
        {
            if !self.all_configs[i].is_well_formed() {
                proof {
                    assert(!self@[i as int].wf());
                }
                return false;
            }
            i += 1;
        }
        true
    }

    /// The configurations.
    pub fn get_configs(&self) -> (r: &Vec<ChatConfiguration>)
        ensures
            config_views(r@) == self@,
    {
        &self.all_configs
    }

    /// The configurations, to be changed in place.
    pub fn get_configs_mut(&mut self) -> (r: &mut Vec<ChatConfiguration>)
        ensures
            config_views(r@) == old(self)@,
            final(self)@ == config_views(final(r)@),
    {
        &mut self.all_configs
    }
}

} // verus!
