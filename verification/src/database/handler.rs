//! The database actor: one owner of the database that answers requests one
//! at a time, and keeps for each client session what that client has yet to
//! learn of the changes of others.

use crate::ai_interaction::create_prompt::{
    agent_prompt_context, get_agent_prompt_context, get_system_prompt_for, system_part,
    AgentPrompt, AgentPromptTypeView, SystemPrompt,
};
use crate::database::context::{ContextPartView, WholeContext};
use crate::database::devices::{Device, DeviceView};
use crate::database::ids::ItemKind;
use crate::web_payloads::{AuthPayload, AuthPayloadView, AuthResponse};
use crate::database::{
    lemma_added_wf, lemma_chats_shifted, lemma_inserted_wf, lemma_updated_wf, DatabaseItem,
    DatabaseItemID,
    DatabaseItemView, ProxDatabase, ProxDatabaseView,
};
use crate::text::{decimal, decimal_text, same_text};
use vstd::prelude::*;

verus! {

/// `rand::rngs::StdRng`, the random number generator that session keys are
/// drawn from, carried through as it is.
#[verifier::external_type_specification]
#[verifier::external_body]
pub struct ExStdRng(rand::rngs::StdRng);

/// A generator seeded by the operating system, by
/// `rand::SeedableRng::try_from_os_rng`; `None` where the operating system
/// gives no seed. Nothing is promised of the generator.
#[verifier::external_body]
fn seeded_generator() -> (r: Option<rand::rngs::StdRng>) {
    match <rand::rngs::StdRng as rand::SeedableRng>::try_from_os_rng() {
        Ok(rng) => Some(rng),
        Err(_) => None,
    }
}

/// The next number of the generator, by `rand::RngCore::next_u64`. Nothing
/// is promised of the number: it is random.
#[verifier::external_body]
fn next_token(rng: &mut rand::rngs::StdRng) -> (r: u64) {
    rand::RngCore::next_u64(rng)
}

/// What a client may ask to be told about the database.
#[derive(PartialEq, Eq, Debug)]
pub enum DatabaseInfoRequest {
    NumbersOfItems,
    LatestItems,
    UnknownUpdates { access_key: String },
}

/// A request to the database.
#[derive(PartialEq, Eq, Debug)]
pub enum DatabaseRequestVariant {
    GetAll,
    Get(DatabaseItemID),
    Update(DatabaseItem),
    Info(DatabaseInfoRequest),
    Add(DatabaseItem),
    NewAuthKey,
    VerifyAuthKey(String),
    /// A prompt for a model. `system` is the text of the system prompt, and
    /// `file_text` what the file to describe holds, where it holds text.
    GetAgentPrompt { prompt: AgentPrompt, system: Option<String>, file_text: Option<String> },
    Save,
}

/// A request together with the key of the session that makes it, if any.
#[derive(PartialEq, Eq, Debug)]
pub struct DatabaseRequest {
    pub variant: DatabaseRequestVariant,
    pub auth_key: Option<String>,
}

impl DatabaseRequest {
    /// The session that a change is not told to: the one that makes it.
    /// Requests that change no item have none.
    pub open spec fn origin(self) -> Option<Seq<char>> {
        match self.variant {
            DatabaseRequestVariant::Add(_) => optional_key(self.auth_key),
            DatabaseRequestVariant::Update(_) => optional_key(self.auth_key),
            _ => None,
        }
    }

    /// The request `variant` of the session `auth_key`.
    pub fn new(variant: DatabaseRequestVariant, auth_key: Option<String>) -> (r: DatabaseRequest)
        ensures
            r.variant == variant,
            r.auth_key == auth_key,
    {
        DatabaseRequest { variant, auth_key }
    }
}

/// Why a request was refused.
#[derive(Clone, Copy, PartialEq, Eq, Structural, Debug)]
pub enum DatabaseError {
    /// The database could not be written out.
    SavingError,
    /// No item has the id that was asked for.
    InvalidId,
    /// The item cannot be kept: it names an id beyond the next one, or its
    /// content breaks what must hold of the database.
    InvalidItem,
    /// No session has the key that was given.
    UnknownSession,
    /// The system prompt could not be had.
    PromptUnavailable,
}

/// What a client is told about the database.
#[derive(PartialEq, Eq, Debug)]
pub enum DatabaseInfoReply {
    NumbersOfItems {
        devices: usize,
        chats: usize,
        folders: usize,
        files: usize,
        tags: usize,
        access_modes: usize,
    },
    LatestItems { items: Vec<Option<DatabaseItem>> },
    UnknownUpdates { updates: Vec<(DatabaseItemID, DatabaseItem)> },
}

/// The answer to a request.
#[derive(PartialEq, Eq, Debug)]
pub enum DatabaseReplyVariant {
    RequestExecuted,
    AddedItem(DatabaseItemID),
    ReturnedItem(DatabaseItem),
    CorrectAuth,
    WrongAuth,
    NewAuth(String),
    Info(DatabaseInfoReply),
    ConstructedPrompt(WholeContext),
    ReplyAll(ProxDatabase),
    Saved,
    Error(DatabaseError),
}

/// An answer on its way to the client.
#[derive(PartialEq, Eq, Debug)]
pub struct DatabaseReply {
    pub variant: DatabaseReplyVariant,
}

/// What the actor does with a request: answer at once, or have the given
/// copy of the database written out first, after which the answer is `Saved`,
/// or `Error(SavingError)` where writing failed.
#[derive(PartialEq, Eq, Debug)]
pub enum HandlerOutcome {
    Reply(DatabaseReplyVariant),
    Snapshot(ProxDatabase),
}

/// A change that a session has yet to learn of: the id of an item and the
/// item as it was kept.
pub type UpdateView = (DatabaseItemID, DatabaseItemView);

/// The values of a sequence of changes.
pub open spec fn update_views(updates: Seq<(DatabaseItemID, DatabaseItem)>) -> Seq<UpdateView> {
    updates.map_values(|u: (DatabaseItemID, DatabaseItem)| (u.0, u.1@))
}

/// The values of a sequence of optional items.
pub open spec fn optional_item_views(items: Seq<Option<DatabaseItem>>) -> Seq<
    Option<DatabaseItemView>,
> {
    items.map_values(
        |i: Option<DatabaseItem>|
            match i {
                Some(x) => Some(x@),
                None => None,
            },
    )
}

/// What is kept for one client session.
#[derive(PartialEq, Eq, Debug)]
pub struct ClientSessionData {
    key: String,
    pending_updates: Vec<(DatabaseItemID, DatabaseItem)>,
}

/// The mathematical value of a [`ClientSessionData`].
pub struct SessionView {
    pub key: Seq<char>,
    pub pending: Seq<UpdateView>,
}

impl View for ClientSessionData {
    type V = SessionView;

    closed spec fn view(&self) -> SessionView {
        SessionView { key: self.key@, pending: update_views(self.pending_updates@) }
    }
}

/// The values of a sequence of sessions.
pub open spec fn session_views(sessions: Seq<ClientSessionData>) -> Seq<SessionView> {
    sessions.map_values(|s: ClientSessionData| s@)
}

/// The index of the first session with `key`, or the number of sessions.
pub open spec fn session_find(sessions: Seq<SessionView>, key: Seq<char>) -> int
    decreases sessions.len(),
{
    if sessions.len() == 0 || sessions[0].key == key {
        0
    } else {
        1 + session_find(sessions.drop_first(), key)
    }
}

/// Whether a session has `key`.
pub open spec fn session_known(sessions: Seq<SessionView>, key: Seq<char>) -> bool {
    session_find(sessions, key) < sessions.len()
}

/// What the session `key` has yet to learn; nothing where there is no such
/// session.
pub open spec fn pending_of(sessions: Seq<SessionView>, key: Seq<char>) -> Seq<UpdateView> {
    if session_known(sessions, key) {
        sessions[session_find(sessions, key)].pending
    } else {
        Seq::empty()
    }
}

/// Whether no two sessions have the same key.
pub open spec fn keys_unique(sessions: Seq<SessionView>) -> bool {
    forall|i: int, j: int|
        0 <= i < j < sessions.len() ==> (#[trigger] sessions[i]).key != (#[trigger] sessions[j]).key
}

/// The sessions after a change by the session `origin`: every other session
/// has `update` added to what it has yet to learn. A change without origin
/// reaches every session.
pub open spec fn sessions_notified(
    sessions: Seq<SessionView>,
    origin: Option<Seq<char>>,
    update: UpdateView,
) -> Seq<SessionView> {
    sessions.map_values(
        |s: SessionView|
            if origin == Some(s.key) {
                s
            } else {
                SessionView { pending: s.pending.push(update), ..s }
            },
    )
}

/// The sessions with a session `key` that has nothing to learn yet: in the
/// place of the session that had the key, or at the end.
pub open spec fn sessions_opened(sessions: Seq<SessionView>, key: Seq<char>) -> Seq<SessionView> {
    let i = session_find(sessions, key);
    let fresh = SessionView { key, pending: Seq::empty() };
    if 0 <= i < sessions.len() {
        sessions.update(i, fresh)
    } else {
        sessions.push(fresh)
    }
}

/// The sessions with the session `key` having nothing left to learn.
pub open spec fn sessions_drained(sessions: Seq<SessionView>, key: Seq<char>) -> Seq<SessionView> {
    let i = session_find(sessions, key);
    if 0 <= i < sessions.len() {
        sessions.update(i, SessionView { key: sessions[i].key, pending: Seq::empty() })
    } else {
        sessions
    }
}

proof fn lemma_session_find(sessions: Seq<SessionView>, key: Seq<char>, k: int)
    requires
        0 <= k <= sessions.len(),
        forall|i: int| 0 <= i < k ==> sessions[i].key != key,
        k < sessions.len() ==> sessions[k].key == key,
    ensures
        session_find(sessions, key) == k,
    decreases k,
{
    if k > 0 {
        lemma_session_find(sessions.drop_first(), key, k - 1);
    }
}

/// The first session with `key` is found at an index in range that holds
/// the key, or the index is the number of sessions and none holds it.
pub proof fn lemma_session_find_bounds(sessions: Seq<SessionView>, key: Seq<char>)
    ensures
        0 <= session_find(sessions, key) <= sessions.len(),
        session_find(sessions, key) < sessions.len() ==> sessions[session_find(
            sessions,
            key,
        )].key == key,
        forall|i: int| 0 <= i < session_find(sessions, key) ==> sessions[i].key != key,
    decreases sessions.len(),
{
    if sessions.len() == 0 || sessions[0].key == key {
    } else {
        lemma_session_find_bounds(sessions.drop_first(), key);
        let k = session_find(sessions.drop_first(), key);
        assert forall|i: int| 0 <= i < k + 1 implies sessions[i].key != key by {
            if i > 0 {
                assert(sessions.drop_first()[i - 1].key != key);
            }
        }
    }
}

/// The state of the database actor.
pub struct DatabaseHandler {
    database: ProxDatabase,
    auth_sessions: Vec<ClientSessionData>,
    auth_sessions_rng: rand::rngs::StdRng,
    changed_since_last_save: bool,
}

/// The mathematical value of a [`DatabaseHandler`].
pub struct HandlerView {
    pub database: ProxDatabaseView,
    pub sessions: Seq<SessionView>,
    pub dirty: bool,
}

impl View for DatabaseHandler {
    type V = HandlerView;

    closed spec fn view(&self) -> HandlerView {
        HandlerView {
            database: self.database@,
            sessions: session_views(self.auth_sessions@),
            dirty: self.changed_since_last_save,
        }
    }
}

impl HandlerView {
    /// Whether the database is well formed and no two sessions share a key.
    pub open spec fn wf(self) -> bool {
        self.database.wf() && keys_unique(self.sessions)
    }
}

/// The mathematical value of a request.
pub enum RequestView {
    GetAll,
    Get(DatabaseItemID),
    Update(DatabaseItemView),
    NumbersOfItems,
    LatestItems,
    UnknownUpdates(Seq<char>),
    Add(DatabaseItemView),
    NewAuthKey,
    VerifyAuthKey(Seq<char>),
    GetAgentPrompt {
        access_mode: usize,
        kind: AgentPromptTypeView,
        system: Option<Seq<char>>,
        file_text: Option<Seq<char>>,
    },
    Save,
}

impl View for DatabaseRequestVariant {
    type V = RequestView;

    open spec fn view(&self) -> RequestView {
        match self {
            DatabaseRequestVariant::GetAll => RequestView::GetAll,
            DatabaseRequestVariant::Get(id) => RequestView::Get(*id),
            DatabaseRequestVariant::Update(item) => RequestView::Update(item@),
            DatabaseRequestVariant::Info(DatabaseInfoRequest::NumbersOfItems) => {
                RequestView::NumbersOfItems
            },
            DatabaseRequestVariant::Info(DatabaseInfoRequest::LatestItems) => {
                RequestView::LatestItems
            },
            DatabaseRequestVariant::Info(DatabaseInfoRequest::UnknownUpdates { access_key }) => {
                RequestView::UnknownUpdates(access_key@)
            },
            DatabaseRequestVariant::Add(item) => RequestView::Add(item@),
            DatabaseRequestVariant::NewAuthKey => RequestView::NewAuthKey,
            DatabaseRequestVariant::VerifyAuthKey(key) => RequestView::VerifyAuthKey(key@),
            DatabaseRequestVariant::GetAgentPrompt { prompt, system, file_text } => {
                RequestView::GetAgentPrompt {
                    access_mode: prompt.get_access_mode(),
                    kind: prompt.get_prompt_type()@,
                    system: optional_key(*system),
                    file_text: optional_key(*file_text),
                }
            },
            DatabaseRequestVariant::Save => RequestView::Save,
        }
    }
}

/// The mathematical value of an answer.
pub enum ReplyView {
    RequestExecuted,
    AddedItem(DatabaseItemID),
    ReturnedItem(DatabaseItemView),
    CorrectAuth,
    WrongAuth,
    NewAuth(Seq<char>),
    NumbersOfItems {
        devices: usize,
        chats: usize,
        folders: usize,
        files: usize,
        tags: usize,
        access_modes: usize,
    },
    LatestItems(Seq<Option<DatabaseItemView>>),
    UnknownUpdates(Seq<UpdateView>),
    ConstructedPrompt(Seq<ContextPartView>),
    ReplyAll(ProxDatabaseView),
    Saved,
    Error(DatabaseError),
}

impl View for DatabaseReplyVariant {
    type V = ReplyView;

    open spec fn view(&self) -> ReplyView {
        match self {
            DatabaseReplyVariant::RequestExecuted => ReplyView::RequestExecuted,
            DatabaseReplyVariant::AddedItem(id) => ReplyView::AddedItem(*id),
            DatabaseReplyVariant::ReturnedItem(item) => ReplyView::ReturnedItem(item@),
            DatabaseReplyVariant::CorrectAuth => ReplyView::CorrectAuth,
            DatabaseReplyVariant::WrongAuth => ReplyView::WrongAuth,
            DatabaseReplyVariant::NewAuth(key) => ReplyView::NewAuth(key@),
            DatabaseReplyVariant::Info(
                DatabaseInfoReply::NumbersOfItems {
                    devices,
                    chats,
                    folders,
                    files,
                    tags,
                    access_modes,
                },
            ) => ReplyView::NumbersOfItems {
                devices: *devices,
                chats: *chats,
                folders: *folders,
                files: *files,
                tags: *tags,
                access_modes: *access_modes,
            },
            DatabaseReplyVariant::Info(DatabaseInfoReply::LatestItems { items }) => {
                ReplyView::LatestItems(optional_item_views(items@))
            },
            DatabaseReplyVariant::Info(DatabaseInfoReply::UnknownUpdates { updates }) => {
                ReplyView::UnknownUpdates(update_views(updates@))
            },
            DatabaseReplyVariant::ConstructedPrompt(context) => ReplyView::ConstructedPrompt(
                context@,
            ),
            DatabaseReplyVariant::ReplyAll(database) => ReplyView::ReplyAll(database@),
            DatabaseReplyVariant::Saved => ReplyView::Saved,
            DatabaseReplyVariant::Error(error) => ReplyView::Error(*error),
        }
    }
}

/// The mathematical value of what the actor does with a request.
pub enum OutcomeView {
    Reply(ReplyView),
    Snapshot(ProxDatabaseView),
}

impl View for HandlerOutcome {
    type V = OutcomeView;

    open spec fn view(&self) -> OutcomeView {
        match self {
            HandlerOutcome::Reply(reply) => OutcomeView::Reply(reply@),
            HandlerOutcome::Snapshot(database) => OutcomeView::Snapshot(database@),
        }
    }
}

/// The id that `item` gets when it is added to `database`.
pub open spec fn added_id(database: ProxDatabaseView, item: DatabaseItemView) -> DatabaseItemID {
    DatabaseItemID::spec_of(item.id().kind(), database.count(item.id().kind()) as usize)
}

/// The last item of each kind that has a last item, in the order devices,
/// access modes, chats, folders, files, tags, and then the record of the user.
pub open spec fn latest_items(database: ProxDatabaseView) -> Seq<Option<DatabaseItemView>> {
    seq![
        if database.devices.len() > 0 {
            Some(DatabaseItemView::Device(database.devices.last()))
        } else {
            None
        },
        if database.access_modes.len() > 0 {
            Some(DatabaseItemView::AccessMode(database.access_modes.last()))
        } else {
            None
        },
        if database.chats.len() > 0 && database.chats.contains_key(
            (database.chats.len() - 1) as usize,
        ) {
            Some(DatabaseItemView::Chat(database.chats[(database.chats.len() - 1) as usize]))
        } else {
            None
        },
        if database.folders.len() > 0 {
            Some(DatabaseItemView::Folder(database.folders.last()))
        } else {
            None
        },
        if database.files.len() > 0 {
            Some(DatabaseItemView::File(database.files.last()))
        } else {
            None
        },
        if database.tags.len() > 0 {
            Some(DatabaseItemView::Tag(database.tags.last()))
        } else {
            None
        },
        Some(DatabaseItemView::UserData(database.user)),
    ]
}

/// What the actor in the state `h` does with `request` of the session
/// `origin`, and the state it is in afterwards. `token` is the number that a
/// new session key is made of.
pub open spec fn handled(
    h: HandlerView,
    request: RequestView,
    origin: Option<Seq<char>>,
    token: u64,
) -> (HandlerView, OutcomeView) {
    match request {
        RequestView::GetAll => (h, OutcomeView::Reply(ReplyView::ReplyAll(h.database))),
        RequestView::Get(id) => (
            h,
            OutcomeView::Reply(
                match h.database.item(id) {
                    Some(item) => ReplyView::ReturnedItem(item),
                    None => ReplyView::Error(DatabaseError::InvalidId),
                },
            ),
        ),
        RequestView::Add(item) => if h.database.accepts_new(item) {
            let id = added_id(h.database, item);
            (
                HandlerView {
                    database: h.database.with_added(item),
                    sessions: sessions_notified(
                        h.sessions,
                        origin,
                        (id, item.with_index(id.spec_index())),
                    ),
                    dirty: true,
                },
                OutcomeView::Reply(ReplyView::AddedItem(id)),
            )
        } else {
            (h, OutcomeView::Reply(ReplyView::Error(DatabaseError::InvalidItem)))
        },
        RequestView::Update(item) => if h.database.overwrites(item) {
            if h.database.accepts_update(item) {
                (
                    HandlerView {
                        database: h.database.with_updated(item),
                        sessions: sessions_notified(h.sessions, origin, (item.id(), item)),
                        dirty: true,
                    },
                    OutcomeView::Reply(ReplyView::RequestExecuted),
                )
            } else {
                (h, OutcomeView::Reply(ReplyView::Error(DatabaseError::InvalidItem)))
            }
        } else {
            if h.database.accepts_at(item) {
                (
                    HandlerView {
                        database: h.database.with_inserted(item),
                        sessions: sessions_notified(h.sessions, origin, (item.id(), item)),
                        dirty: true,
                    },
                    OutcomeView::Reply(ReplyView::RequestExecuted),
                )
            } else {
                (h, OutcomeView::Reply(ReplyView::Error(DatabaseError::InvalidItem)))
            }
        },
        RequestView::NumbersOfItems => (
            h,
            OutcomeView::Reply(
                ReplyView::NumbersOfItems {
                    devices: h.database.devices.len() as usize,
                    chats: h.database.chats.len() as usize,
                    folders: h.database.folders.len() as usize,
                    files: h.database.files.len() as usize,
                    tags: h.database.tags.len() as usize,
                    access_modes: h.database.access_modes.len() as usize,
                },
            ),
        ),
        RequestView::LatestItems => (
            h,
            OutcomeView::Reply(ReplyView::LatestItems(latest_items(h.database))),
        ),
        RequestView::UnknownUpdates(key) => if session_known(h.sessions, key) {
            (
                HandlerView { sessions: sessions_drained(h.sessions, key), ..h },
                OutcomeView::Reply(ReplyView::UnknownUpdates(pending_of(h.sessions, key))),
            )
        } else {
            (h, OutcomeView::Reply(ReplyView::Error(DatabaseError::UnknownSession)))
        },
        RequestView::NewAuthKey => (
            HandlerView { sessions: sessions_opened(h.sessions, decimal(token as nat)), ..h },
            OutcomeView::Reply(ReplyView::NewAuth(decimal(token as nat))),
        ),
        RequestView::VerifyAuthKey(key) => (
            h,
            OutcomeView::Reply(
                if session_known(h.sessions, key) {
                    ReplyView::CorrectAuth
                } else {
                    ReplyView::WrongAuth
                },
            ),
        ),
        RequestView::GetAgentPrompt { access_mode, kind, system, file_text } => (
            h,
            OutcomeView::Reply(
                match system {
                    Some(text) => match agent_prompt_context(
                        h.database,
                        access_mode,
                        kind,
                        system_part(text),
                        file_text,
                    ) {
                        Some(context) => ReplyView::ConstructedPrompt(context),
                        None => ReplyView::Error(DatabaseError::InvalidId),
                    },
                    None => ReplyView::Error(DatabaseError::PromptUnavailable),
                },
            ),
        ),
        RequestView::Save => if h.dirty {
            (HandlerView { dirty: false, ..h }, OutcomeView::Snapshot(h.database))
        } else {
            (h, OutcomeView::Reply(ReplyView::Saved))
        },
    }
}

/// The value of the key of a session, if there is one.
pub open spec fn optional_key(key: Option<String>) -> Option<Seq<char>> {
    match key {
        Some(k) => Some(k@),
        None => None,
    }
}

impl ClientSessionData {
    /// The key of the session.
    pub fn get_key(&self) -> (r: &String)
        ensures
            r@ == self@.key,
    {
        &self.key
    }

    /// What the session has yet to learn.
    pub fn get_pending_updates(&self) -> (r: &Vec<(DatabaseItemID, DatabaseItem)>)
        ensures
            update_views(r@) == self@.pending,
    {
        &self.pending_updates
    }
}

impl DatabaseHandler {
    /// The actor that owns `database`, without sessions, and with the
    /// database taken as not yet written out. `None` where the operating
    /// system gives no seed for session keys.
    pub fn new(database: ProxDatabase) -> (r: Option<DatabaseHandler>)
        requires
            database@.wf(),
        ensures
            match r {
                Some(h) => h@ == (HandlerView {
                    database: database@,
                    sessions: Seq::empty(),
                    dirty: true,
                }) && h@.wf(),
                None => true,
            },
    {
        DatabaseHandler::with_generator(database, seeded_generator())
    }

    /// The actor that owns `database` and draws the keys of its sessions
    /// from `generator`: without sessions, and with the database taken as
    /// not yet written out. `None` where there is no generator, and only
    /// there.
    pub fn with_generator(database: ProxDatabase, generator: Option<rand::rngs::StdRng>) -> (r:
        Option<DatabaseHandler>)
        requires
            database@.wf(),
        ensures
            match r {
                Some(h) => generator is Some && h@ == (HandlerView {
                    database: database@,
                    sessions: Seq::empty(),
                    dirty: true,
                }) && h@.wf(),
                None => generator is None,
            },
    {
        match generator {
            Some(rng) => {
                let auth_sessions: Vec<ClientSessionData> = Vec::new();
                proof {
                    assert(session_views(auth_sessions@) =~= Seq::empty());
                }
                Some(
                    DatabaseHandler {
                        database,
                        auth_sessions,
                        auth_sessions_rng: rng,
                        changed_since_last_save: true,
                    },
                )
            },
            None => None,
        }
    }

    /// Whether the database is well formed and no two sessions share a key.
    pub fn is_well_formed(&self) -> (r: bool)
        ensures
            r == self@.wf(),
    {
        if !self.database.is_well_formed() {
            return false;
        }
        let mut j: usize = 0;
        while j < self.auth_sessions.len()
            invariant
                j <= self.auth_sessions.len(),
                forall|a: int, b: int|
                    0 <= a < b < j ==> (#[trigger] self@.sessions[a]).key != (
                    #[trigger] self@.sessions[b]).key,
            decreases self.auth_sessions.len() - j,
        {
            let mut i: usize = 0;
            while i < j
                invariant
                    i <= j < self.auth_sessions.len(),
                    forall|a: int| 0 <= a < i ==> (#[trigger] self@.sessions[a]).key
                        != self@.sessions[j as int].key,
                decreases j - i,
            {
                if same_text(
                    self.auth_sessions[i].key.as_str(),
                    self.auth_sessions[j].key.as_str(),
                ) {
                    proof {
                        assert(self@.sessions[i as int].key == self@.sessions[j as int].key);
                    }
                    return false;
                }
                i += 1;
            }
            j += 1;
        }
        true
    }

    /// The database.
    pub fn get_database(&self) -> (r: &ProxDatabase)
        ensures
            r@ == self@.database,
    {
        &self.database
    }

    /// The sessions.
    pub fn get_sessions(&self) -> (r: &Vec<ClientSessionData>)
        ensures
            session_views(r@) == self@.sessions,
    {
        &self.auth_sessions
    }

    /// Whether the database has changed since it was last written out.
    pub fn is_dirty(&self) -> (r: bool)
        ensures
            r == self@.dirty,
    {
        self.changed_since_last_save
    }

    fn find_session(&self, key: &String) -> (k: usize)
        ensures
            k == session_find(self@.sessions, key@),
            k <= self@.sessions.len(),
    {
        let mut k: usize = 0;
        while k < self.auth_sessions.len() && !same_text(
            self.auth_sessions[k].key.as_str(),
            key.as_str(),
        )
            invariant
                k <= self.auth_sessions.len(),
                forall|i: int| 0 <= i < k ==> self@.sessions[i].key != key@,
            decreases self.auth_sessions.len() - k,
        {
            k += 1;
        }
        proof {
            lemma_session_find(self@.sessions, key@, k as int);
        }
        k
    }

    fn notify(&mut self, origin: &Option<String>, id: DatabaseItemID, item: &DatabaseItem)
        ensures
            final(self)@ == (HandlerView {
                sessions: sessions_notified(old(self)@.sessions, optional_key(*origin), (id, item@)),
                ..old(self)@
            }),
            keys_unique(old(self)@.sessions) ==> keys_unique(final(self)@.sessions),
    {
        let ghost before = self@.sessions;
        let ghost target = sessions_notified(before, optional_key(*origin), (id, item@));
        let mut i: usize = 0;
        while i < self.auth_sessions.len()
            invariant
                i <= self.auth_sessions.len(),
                self@.database == old(self)@.database,
                self@.dirty == old(self)@.dirty,
                self@.sessions.len() == before.len(),
                target == sessions_notified(before, optional_key(*origin), (id, item@)),
                forall|j: int|
                    0 <= j < before.len() ==> #[trigger] self@.sessions[j] == if j < i {
                        target[j]
                    } else {
                        before[j]
                    },
            decreases self.auth_sessions.len() - i,
        {
            let ghost prev = self.auth_sessions@;
            let is_origin = match origin {
                Some(key) => same_text(self.auth_sessions[i].key.as_str(), key.as_str()),
                None => false,
            };
            if !is_origin {
                let entry = (id, item.clone());
                let ghost old_pending = self.auth_sessions[i as int].pending_updates@;
                self.auth_sessions[i].pending_updates.push(entry);
                proof {
                    assert(update_views(self.auth_sessions[i as int].pending_updates@)
                        =~= update_views(old_pending).push((id, item@)));
                }
            }
            proof {
                assert forall|j: int| 0 <= j < before.len() implies #[trigger] self@.sessions[j]
                    == if j < i + 1 {
                    target[j]
                } else {
                    before[j]
                } by {
                    assert(session_views(prev)[j] == prev[j]@);
                    if j != i {
                        assert(self.auth_sessions@[j] == prev[j]);
                    }
                }
            }
            i += 1;
        }
        proof {
            assert(self@.sessions =~= target);
            if keys_unique(before) {
                assert forall|a: int, b: int| 0 <= a < b < target.len() implies (
                #[trigger] target[a]).key != (#[trigger] target[b]).key by {
                    assert(before[a].key != before[b].key);
                }
            }
        }
    }

    /// Answers a request for the item that `id` names.
    pub fn handle_get_request(&self, id: DatabaseItemID) -> (r: DatabaseReplyVariant)
        ensures
            r@ == match self@.database.item(id) {
                Some(item) => ReplyView::ReturnedItem(item),
                None => ReplyView::Error(DatabaseError::InvalidId),
            },
    {
        match self.database.get_item(id) {
            Some(item) => DatabaseReplyVariant::ReturnedItem(item),
            None => DatabaseReplyVariant::Error(DatabaseError::InvalidId),
        }
    }

    /// Answers a request to add `item`, made by the session `auth_key`.
    pub fn handle_add_request(&mut self, item: DatabaseItem, auth_key: Option<String>) -> (r:
        DatabaseReplyVariant)
        requires
            old(self)@.wf(),
        ensures
            (final(self)@, OutcomeView::Reply(r@)) == handled(
                old(self)@,
                RequestView::Add(item@),
                optional_key(auth_key),
                0,
            ),
            final(self)@.wf(),
    {
        if !self.database.can_add(&item) {
            return DatabaseReplyVariant::Error(DatabaseError::InvalidItem);
        }
        let mut stored = item.clone();
        let id = match &item {
            DatabaseItem::UserData(_) => DatabaseItemID::UserData,
            _ => DatabaseItemID::of(item.get_id().kind(), self.database.count(item.get_id().kind())),
        };
        stored.set_id(id);
        self.database.add_item(item);
        self.changed_since_last_save = true;
        self.notify(&auth_key, id, &stored);
        DatabaseReplyVariant::AddedItem(id)
    }

    /// Answers a request to update `item`, made by the session `auth_key`:
    /// the item takes the place of the item at its id where it carries the
    /// time that one was made at, and is inserted at its id otherwise.
    pub fn handle_update_request(&mut self, item: DatabaseItem, auth_key: Option<String>) -> (r:
        DatabaseReplyVariant)
        requires
            old(self)@.wf(),
        ensures
            (final(self)@, OutcomeView::Reply(r@)) == handled(
                old(self)@,
                RequestView::Update(item@),
                optional_key(auth_key),
                0,
            ),
            final(self)@.wf(),
    {
        let allowed = if self.database.same_item(&item) {
            self.database.can_update(&item)
        } else {
            self.database.can_insert(&item)
        };
        if !allowed {
            return DatabaseReplyVariant::Error(DatabaseError::InvalidItem);
        }
        let copy = item.clone();
        let id = item.get_id();
        self.database.insert_or_update(item);
        self.changed_since_last_save = true;
        self.notify(&auth_key, id, &copy);
        DatabaseReplyVariant::RequestExecuted
    }

    /// Opens a session under the key that `token` gives, with nothing to
    /// learn yet, and answers with the key.
    pub fn register_auth_key(&mut self, token: u64) -> (r: DatabaseReplyVariant)
        requires
            old(self)@.wf(),
        ensures
            (final(self)@, OutcomeView::Reply(r@)) == handled(
                old(self)@,
                RequestView::NewAuthKey,
                None,
                token,
            ),
            final(self)@.wf(),
    {
        let new_auth = decimal_text(token);
        let k = self.find_session(&new_auth);
        let ghost before = self.auth_sessions@;
        let fresh = ClientSessionData { key: new_auth.clone(), pending_updates: Vec::new() };
        proof {
            assert(update_views(fresh.pending_updates@) =~= Seq::empty());
            lemma_session_find_bounds(self@.sessions, new_auth@);
        }
        if k < self.auth_sessions.len() {
            self.auth_sessions[k] = fresh;
            proof {
                assert(session_views(self.auth_sessions@) =~= session_views(before).update(
                    k as int,
                    fresh@,
                ));
                assert forall|a: int, b: int| 0 <= a < b < self@.sessions.len() implies (
                #[trigger] self@.sessions[a]).key != (#[trigger] self@.sessions[b]).key by {
                    assert(old(self)@.sessions[a].key != old(self)@.sessions[b].key);
                }
            }
        } else {
            self.auth_sessions.push(fresh);
            proof {
                assert(session_views(self.auth_sessions@) =~= session_views(before).push(fresh@));
                assert forall|a: int, b: int| 0 <= a < b < self@.sessions.len() implies (
                #[trigger] self@.sessions[a]).key != (#[trigger] self@.sessions[b]).key by {
                    if b < old(self)@.sessions.len() {
                        assert(old(self)@.sessions[a].key != old(self)@.sessions[b].key);
                    }
                }
            }
        }
        DatabaseReplyVariant::NewAuth(new_auth)
    }

    /// Opens a session under a new random key and answers with the key.
    pub fn handle_new_auth_key(&mut self) -> (r: DatabaseReplyVariant)
        requires
            old(self)@.wf(),
        ensures
            exists|token: u64|
                (final(self)@, OutcomeView::Reply(r@)) == handled(
                    old(self)@,
                    RequestView::NewAuthKey,
                    None,
                    token,
                ),
            final(self)@.wf(),
    {
        let token = next_token(&mut self.auth_sessions_rng);
        self.register_auth_key(token)
    }

    /// Answers whether `auth` is the key of a session.
    pub fn handle_auth_verification(&self, auth: String) -> (r: DatabaseReplyVariant)
        ensures
            r@ == if session_known(self@.sessions, auth@) {
                ReplyView::CorrectAuth
            } else {
                ReplyView::WrongAuth
            },
    {
        if self.find_session(&auth) < self.auth_sessions.len() {
            DatabaseReplyVariant::CorrectAuth
        } else {
            DatabaseReplyVariant::WrongAuth
        }
    }

    /// Answers a request for a prompt for a model.
    pub fn handle_agent_prompt(
        &self,
        agent_prompt: AgentPrompt,
        system: Option<String>,
        file_text: Option<String>,
    ) -> (r: DatabaseReplyVariant)
        ensures
            r@ == match system {
                Some(text) => match agent_prompt_context(
                    self@.database,
                    agent_prompt.get_access_mode(),
                    agent_prompt.get_prompt_type()@,
                    system_part(text@),
                    optional_key(file_text),
                ) {
                    Some(context) => ReplyView::ConstructedPrompt(context),
                    None => ReplyView::Error(DatabaseError::InvalidId),
                },
                None => ReplyView::Error(DatabaseError::PromptUnavailable),
            },
    {
        match get_system_prompt_for(SystemPrompt::Description, system) {
            Ok(prompt) => match get_agent_prompt_context(
                &self.database,
                agent_prompt,
                prompt,
                file_text,
            ) {
                Some(context) => DatabaseReplyVariant::ConstructedPrompt(context),
                None => DatabaseReplyVariant::Error(DatabaseError::InvalidId),
            },
            Err(()) => DatabaseReplyVariant::Error(DatabaseError::PromptUnavailable),
        }
    }

    /// Answers with a copy of the whole database.
    pub fn handle_getall(&self) -> (r: DatabaseReplyVariant)
        ensures
            r@ == ReplyView::ReplyAll(self@.database),
    {
        DatabaseReplyVariant::ReplyAll(self.database.clone())
    }

    /// Answers a request to write the database out: where it has changed
    /// since it was last written out, hands out a copy to write and takes
    /// the database as written; answers `Saved` otherwise.
    pub fn handle_save(&mut self) -> (r: HandlerOutcome)
        ensures
            (final(self)@, r@) == handled(old(self)@, RequestView::Save, None, 0),
    {
        if self.changed_since_last_save {
            self.changed_since_last_save = false;
            HandlerOutcome::Snapshot(self.database.clone())
        } else {
            HandlerOutcome::Reply(DatabaseReplyVariant::Saved)
        }
    }
}

impl DatabaseHandler {
    /// Answers a request to be told about the database. A request for what
    /// a session has yet to learn hands that out and leaves the session with
    /// nothing to learn.
    pub fn handle_info_request(&mut self, info_request: DatabaseInfoRequest) -> (r:
        DatabaseReplyVariant)
        requires
            old(self)@.wf(),
        ensures
            (final(self)@, OutcomeView::Reply(r@)) == handled(
                old(self)@,
                (DatabaseRequestVariant::Info(info_request))@,
                None,
                0,
            ),
            final(self)@.wf(),
    {
        match info_request {
            DatabaseInfoRequest::NumbersOfItems => DatabaseReplyVariant::Info(
                DatabaseInfoReply::NumbersOfItems {
                    devices: self.database.count(ItemKind::Device),
                    chats: self.database.count(ItemKind::Chat),
                    folders: self.database.count(ItemKind::Folder),
                    files: self.database.count(ItemKind::File),
                    tags: self.database.count(ItemKind::Tag),
                    access_modes: self.database.count(ItemKind::AccessMode),
                },
            ),
            DatabaseInfoRequest::LatestItems => {
                let mut items: Vec<Option<DatabaseItem>> = Vec::new();
                let devices = self.database.devices.get_devices();
                items.push(
                    if devices.len() > 0 {
                        Some(DatabaseItem::Device(devices[devices.len() - 1].clone()))
                    } else {
                        None
                    },
                );
                let modes = self.database.access_modes.get_modes();
                items.push(
                    if modes.len() > 0 {
                        Some(DatabaseItem::AccessMode(modes[modes.len() - 1].clone()))
                    } else {
                        None
                    },
                );
                items.push(
                    match self.database.chats.get_last_chat() {
                        Some(chat) => Some(DatabaseItem::Chat(chat.clone())),
                        None => None,
                    },
                );
                items.push(
                    match self.database.folders.get_last_folder() {
                        Some(folder) => Some(DatabaseItem::Folder(folder.clone())),
                        None => None,
                    },
                );
                items.push(
                    match self.database.files.get_last_file() {
                        Some(file) => Some(DatabaseItem::File(file.clone())),
                        None => None,
                    },
                );
                let tags = self.database.tags.get_tags();
                items.push(
                    if tags.len() > 0 {
                        Some(DatabaseItem::Tag(tags[tags.len() - 1].clone()))
                    } else {
                        None
                    },
                );
                items.push(
                    Some(DatabaseItem::UserData(self.database.personal_info.user_data.clone())),
                );
                proof {
                    assert(optional_item_views(items@) =~= latest_items(self@.database));
                }
                DatabaseReplyVariant::Info(DatabaseInfoReply::LatestItems { items })
            },
            DatabaseInfoRequest::UnknownUpdates { access_key } => {
                let k = self.find_session(&access_key);
                if k < self.auth_sessions.len() {
                    let ghost before = self.auth_sessions@;
                    let mut updates: Vec<(DatabaseItemID, DatabaseItem)> = Vec::new();
                    std::mem::swap(&mut updates, &mut self.auth_sessions[k].pending_updates);
                    proof {
                        assert(update_views(self.auth_sessions@[k as int].pending_updates@)
                            =~= Seq::empty());
                        assert(session_views(self.auth_sessions@) =~= session_views(
                            before,
                        ).update(
                            k as int,
                            SessionView { key: before[k as int]@.key, pending: Seq::empty() },
                        ));
                        assert forall|a: int, b: int|
                            0 <= a < b < self@.sessions.len() implies (
                        #[trigger] self@.sessions[a]).key != (#[trigger] self@.sessions[b]).key by {
                            assert(old(self)@.sessions[a].key != old(self)@.sessions[b].key);
                        }
                    }
                    DatabaseReplyVariant::Info(DatabaseInfoReply::UnknownUpdates { updates })
                } else {
                    DatabaseReplyVariant::Error(DatabaseError::UnknownSession)
                }
            },
        }
    }

    /// Does what `request` asks for, with `token` as the number that a new
    /// session key is made of.
    pub fn apply(&mut self, request: DatabaseRequest, token: u64) -> (r: HandlerOutcome)
        requires
            old(self)@.wf(),
        ensures
            (final(self)@, r@) == handled(
                old(self)@,
                request.variant@,
                request.origin(),
                token,
            ),
            final(self)@.wf(),
    {
        match request.variant {
            DatabaseRequestVariant::Get(id) => HandlerOutcome::Reply(self.handle_get_request(id)),
            DatabaseRequestVariant::Add(item) => HandlerOutcome::Reply(
                self.handle_add_request(item, request.auth_key),
            ),
            DatabaseRequestVariant::Update(item) => HandlerOutcome::Reply(
                self.handle_update_request(item, request.auth_key),
            ),
            DatabaseRequestVariant::NewAuthKey => HandlerOutcome::Reply(
                self.register_auth_key(token),
            ),
            DatabaseRequestVariant::VerifyAuthKey(auth) => HandlerOutcome::Reply(
                self.handle_auth_verification(auth),
            ),
            DatabaseRequestVariant::Info(info_request) => HandlerOutcome::Reply(
                self.handle_info_request(info_request),
            ),
            DatabaseRequestVariant::GetAll => HandlerOutcome::Reply(self.handle_getall()),
            DatabaseRequestVariant::GetAgentPrompt { prompt, system, file_text } => {
                HandlerOutcome::Reply(self.handle_agent_prompt(prompt, system, file_text))
            },
            DatabaseRequestVariant::Save => self.handle_save(),
        }
    }

    /// Does what `request` asks for. A new session key is drawn at random.
    pub fn handle_request(&mut self, request: DatabaseRequest) -> (r: HandlerOutcome)
        requires
            old(self)@.wf(),
        ensures
            exists|token: u64|
                (final(self)@, r@) == #[trigger] handled(
                    old(self)@,
                    request.variant@,
                    request.origin(),
                    token,
                ),
            final(self)@.wf(),
    {
        let token = match &request.variant {
            DatabaseRequestVariant::NewAuthKey => next_token(&mut self.auth_sessions_rng),
            _ => 0,
        };
        self.apply(request, token)
    }
}

/// One request as the handler takes it: what is asked, the session that
/// asks, and the number that a new key is made of.
pub struct TakenRequest {
    pub request: RequestView,
    pub origin: Option<Seq<char>>,
    pub token: u64,
}

/// The handler after it has taken the requests `taken`, in order.
pub open spec fn handled_all(h: HandlerView, taken: Seq<TakenRequest>) -> HandlerView
    decreases taken.len(),
{
    if taken.len() == 0 {
        h
    } else {
        handled(
            handled_all(h, taken.drop_last()),
            taken.last().request,
            taken.last().origin,
            taken.last().token,
        ).0
    }
}

/// In a well-formed database the ids of each kind are the positions from 0
/// to the number of items of the kind: each of them names an item that
/// carries it, and no other id names one.
pub proof fn lemma_ids_are_dense(database: ProxDatabaseView, kind: ItemKind, index: usize)
    requires
        database.wf(),
    ensures
        index < database.count(kind) ==> database.item(DatabaseItemID::spec_of(kind, index))
            is Some && database.item(DatabaseItemID::spec_of(kind, index))->0.id()
            == DatabaseItemID::spec_of(kind, index),
        index >= database.count(kind) && kind != ItemKind::UserData ==> database.item(
            DatabaseItemID::spec_of(kind, index),
        ) is None,
{
}

/// Whatever is asked of a well-formed handler, in whatever order, it stays
/// well formed: the ids of each kind stay the positions, and no two
/// sessions share a key.
pub proof fn lemma_requests_keep_wf(h: HandlerView, taken: Seq<TakenRequest>)
    requires
        h.wf(),
    ensures
        handled_all(h, taken).wf(),
    decreases taken.len(),
{
    if taken.len() > 0 {
        lemma_requests_keep_wf(h, taken.drop_last());
        lemma_handled_keeps_wf(
            handled_all(h, taken.drop_last()),
            taken.last().request,
            taken.last().origin,
            taken.last().token,
        );
    }
}

proof fn lemma_notified_keeps_keys(
    sessions: Seq<SessionView>,
    origin: Option<Seq<char>>,
    update: UpdateView,
    key: Seq<char>,
)
    ensures
        session_find(sessions_notified(sessions, origin, update), key) == session_find(
            sessions,
            key,
        ),
        keys_unique(sessions) ==> keys_unique(sessions_notified(sessions, origin, update)),
{
    let after = sessions_notified(sessions, origin, update);
    lemma_session_find_bounds(sessions, key);
    let k = session_find(sessions, key);
    assert forall|i: int| 0 <= i < k implies after[i].key != key by {
        assert(sessions[i].key != key);
    }
    lemma_session_find(after, key, k);
    if keys_unique(sessions) {
        assert forall|a: int, b: int| 0 <= a < b < after.len() implies (#[trigger] after[a]).key
            != (#[trigger] after[b]).key by {
            assert(sessions[a].key != sessions[b].key);
        }
    }
}

/// A session that was just opened is known.
pub proof fn lemma_opened_session_is_known(sessions: Seq<SessionView>, key: Seq<char>)
    ensures
        session_known(sessions_opened(sessions, key), key),
{
    lemma_session_find_bounds(sessions, key);
    let k = session_find(sessions, key);
    let after = sessions_opened(sessions, key);
    assert forall|i: int| 0 <= i < k implies after[i].key != key by {
        assert(sessions[i].key != key);
    }
    lemma_session_find(after, key, k);
}

/// Whatever the request, the actor leaves a well-formed state well formed:
/// in each container the ids stay the positions, and the rest of what must
/// hold of the database holds on.
pub proof fn lemma_handled_keeps_wf(
    h: HandlerView,
    request: RequestView,
    origin: Option<Seq<char>>,
    token: u64,
)
    requires
        h.wf(),
    ensures
        handled(h, request, origin, token).0.wf(),
{
    let after = handled(h, request, origin, token).0;
    match request {
        RequestView::Add(item) => {
            if h.database.accepts_new(item) {
                lemma_added_wf(h.database, item);
                let id = added_id(h.database, item);
                lemma_notified_keeps_keys(
                    h.sessions,
                    origin,
                    (id, item.with_index(id.spec_index())),
                    Seq::empty(),
                );
            }
        },
        RequestView::Update(item) => {
            lemma_notified_keeps_keys(h.sessions, origin, (item.id(), item), Seq::empty());
            if h.database.overwrites(item) {
                if h.database.accepts_update(item) {
                    lemma_updated_wf(h.database, item);
                }
            } else if h.database.accepts_at(item) {
                lemma_inserted_wf(h.database, item);
            }
        },
        RequestView::UnknownUpdates(key) => {
            lemma_session_find_bounds(h.sessions, key);
            assert forall|a: int, b: int| 0 <= a < b < after.sessions.len() implies (
            #[trigger] after.sessions[a]).key != (#[trigger] after.sessions[b]).key by {
                assert(h.sessions[a].key != h.sessions[b].key);
            }
        },
        RequestView::NewAuthKey => {
            let key = decimal(token as nat);
            lemma_session_find_bounds(h.sessions, key);
            assert forall|a: int, b: int| 0 <= a < b < after.sessions.len() implies (
            #[trigger] after.sessions[a]).key != (#[trigger] after.sessions[b]).key by {
                if b < h.sessions.len() {
                    assert(h.sessions[a].key != h.sessions[b].key);
                }
            }
        },
        _ => {},
    }
}

/// An item that was added is the item that a request for the id it was
/// given returns, with that id as its own.
pub proof fn lemma_added_item_is_returned(
    h: HandlerView,
    item: DatabaseItemView,
    origin: Option<Seq<char>>,
    token: u64,
)
    requires
        h.wf(),
        h.database.accepts_new(item),
    ensures
        ({
            let id = added_id(h.database, item);
            let added = handled(h, RequestView::Add(item), origin, token);
            &&& added.1 == OutcomeView::Reply(ReplyView::AddedItem(id))
            &&& handled(added.0, RequestView::Get(id), None, token).1 == OutcomeView::Reply(
                ReplyView::ReturnedItem(item.with_index(id.spec_index())),
            )
        }),
{
}

/// An update with the time that the item at its id was made at puts the
/// updated item in that place, where a request for the id finds it, and
/// changes nothing else of the database.
pub proof fn lemma_update_overwrites_same_item(
    h: HandlerView,
    item: DatabaseItemView,
    origin: Option<Seq<char>>,
    token: u64,
)
    requires
        h.wf(),
        h.database.overwrites(item),
        h.database.accepts_update(item),
    ensures
        ({
            let updated = handled(h, RequestView::Update(item), origin, token);
            &&& updated.1 == OutcomeView::Reply(ReplyView::RequestExecuted)
            &&& updated.0.database == h.database.with_updated(item)
            &&& handled(updated.0, RequestView::Get(item.id()), None, token).1
                == OutcomeView::Reply(ReplyView::ReturnedItem(item))
        }),
{
}

/// An update with another time than the one that the item at its id was
/// made at overwrites nothing: it is an insertion at that id, after which a
/// request for the id finds the inserted item.
pub proof fn lemma_update_inserts_other_item(
    h: HandlerView,
    item: DatabaseItemView,
    origin: Option<Seq<char>>,
    token: u64,
)
    requires
        h.wf(),
        !h.database.overwrites(item),
        h.database.accepts_at(item),
    ensures
        ({
            let updated = handled(h, RequestView::Update(item), origin, token);
            &&& updated.1 == OutcomeView::Reply(ReplyView::RequestExecuted)
            &&& updated.0.database == h.database.with_inserted(item)
            &&& handled(updated.0, RequestView::Get(item.id()), None, token).1
                == OutcomeView::Reply(ReplyView::ReturnedItem(item))
        }),
{
    lemma_chats_shifted(h.database.chats, item.id().spec_kind(), item.id().spec_index());
}

/// The change that a request makes known to the sessions, if it makes one.
pub open spec fn change_of(h: HandlerView, request: RequestView) -> Option<UpdateView> {
    match request {
        RequestView::Add(item) => if h.database.accepts_new(item) {
            let id = added_id(h.database, item);
            Some((id, item.with_index(id.spec_index())))
        } else {
            None
        },
        RequestView::Update(item) => if (h.database.overwrites(item)
            && h.database.accepts_update(item)) || (!h.database.overwrites(item)
            && h.database.accepts_at(item)) {
            Some((item.id(), item))
        } else {
            None
        },
        _ => None,
    }
}

/// After a change by one session, what every other session is told next of
/// what it has yet to learn is what it had to learn before, followed by one
/// entry for the change; the session that made the change gets no entry.
pub proof fn lemma_change_reaches_other_sessions(
    h: HandlerView,
    request: RequestView,
    maker: Seq<char>,
    other: Seq<char>,
    token: u64,
)
    requires
        h.wf(),
        change_of(h, request) is Some,
        maker != other,
        session_known(h.sessions, other),
    ensures
        ({
            let after = handled(h, request, Some(maker), token).0;
            let change = change_of(h, request)->0;
            &&& handled(after, RequestView::UnknownUpdates(other), None, token).1
                == OutcomeView::Reply(
                ReplyView::UnknownUpdates(pending_of(h.sessions, other).push(change)),
            )
            &&& pending_of(after.sessions, maker) == pending_of(h.sessions, maker)
        }),
{
    let change = change_of(h, request)->0;
    lemma_notified_keeps_keys(h.sessions, Some(maker), change, other);
    lemma_notified_keeps_keys(h.sessions, Some(maker), change, maker);
    lemma_session_find_bounds(h.sessions, other);
    lemma_session_find_bounds(h.sessions, maker);
}

/// Whether `device` is the device that `payload` comes from: model, name
/// and type agree.
pub open spec fn is_device_of(device: DeviceView, payload: AuthPayloadView) -> bool {
    device.device_model == payload.device_model && device.device_name == payload.device_name
        && device.device_type == payload.device_type
}

/// The index of the first device that `payload` comes from, or the number
/// of devices where it comes from none of them.
pub open spec fn known_device(devices: Seq<DeviceView>, payload: AuthPayloadView) -> int
    decreases devices.len(),
{
    if devices.len() == 0 || is_device_of(devices[0], payload) {
        0
    } else {
        1 + known_device(devices.drop_first(), payload)
    }
}

proof fn lemma_known_device(devices: Seq<DeviceView>, payload: AuthPayloadView, k: int)
    requires
        0 <= k <= devices.len(),
        forall|i: int| 0 <= i < k ==> !is_device_of(devices[i], payload),
        k < devices.len() ==> is_device_of(devices[k], payload),
    ensures
        known_device(devices, payload) == k,
    decreases k,
{
    if k > 0 {
        lemma_known_device(devices.drop_first(), payload, k - 1);
    }
}

/// What a client gets back, as the key of its session and the id of its
/// device.
pub open spec fn login_answer(r: Option<AuthResponse>) -> Option<(Seq<char>, usize)> {
    match r {
        Some(response) => Some((response.session_token@, response.device_id)),
        None => None,
    }
}

/// Whether `after` and `answer` are what comes of logging in a client
/// whose `payload` names the user and the password, with the key that
/// `token` gives: a session is open under the key; a device that is known
/// keeps its id; one that is not is added at the end, as the payload
/// describes it, unless there is no room, and then nothing is handed out.
pub open spec fn logged_in(
    before: HandlerView,
    payload: AuthPayloadView,
    token: u64,
    after: HandlerView,
    answer: Option<(Seq<char>, usize)>,
) -> bool {
    let opened = handled(before, RequestView::NewAuthKey, None, token).0;
    let devices = before.database.devices;
    let k = known_device(devices, payload);
    if k < devices.len() {
        &&& after == opened
        &&& answer == Some((decimal(token as nat), k as usize))
    } else if devices.len() < usize::MAX {
        &&& answer == Some((decimal(token as nat), devices.len() as usize))
        &&& after.database.devices.len() == devices.len() + 1
        &&& is_device_of(after.database.devices.last(), payload)
        &&& after.database.devices.last().device_os == payload.device_os
        &&& after == handled(
            opened,
            RequestView::Add(DatabaseItemView::Device(after.database.devices.last())),
            None,
            token,
        ).0
    } else {
        answer is None && after == opened
    }
}

/// Whether `payload` names the user of the database and the hash of the
/// password.
pub open spec fn credentials_match(database: ProxDatabaseView, payload: AuthPayloadView) -> bool {
    database.user.password_hash == payload.password_hash && database.user.pseudonym
        == payload.username
}

impl DatabaseHandler {
    /// Logs a client in under a new random key; see
    /// [`DatabaseHandler::authenticate`].
    pub fn login(&mut self, payload: &AuthPayload) -> (r: Option<AuthResponse>)
        requires
            old(self)@.wf(),
        ensures
            final(self)@.wf(),
            !credentials_match(old(self)@.database, payload@) ==> r is None && final(self)@ == old(
                self,
            )@,
            credentials_match(old(self)@.database, payload@) ==> exists|token: u64| #[trigger]
                logged_in(old(self)@, payload@, token, final(self)@, login_answer(r)),
            r matches Some(response) ==> credentials_match(old(self)@.database, payload@)
                && session_known(final(self)@.sessions, response.session_token@),
    {
        let token = next_token(&mut self.auth_sessions_rng);
        let r = self.authenticate(payload, token);
        proof {
            if r is Some {
                let opened = handled(old(self)@, RequestView::NewAuthKey, None, token).0;
                let key = decimal(token as nat);
                lemma_opened_session_is_known(old(self)@.sessions, key);
                if self@ != opened {
                    let stored = self@.database.devices.last();
                    let update = (added_id(opened.database, DatabaseItemView::Device(stored)),
                        DatabaseItemView::Device(stored).with_index(
                            added_id(opened.database, DatabaseItemView::Device(stored)).spec_index(),
                        ));
                    lemma_notified_keeps_keys(opened.sessions, None, update, key);
                }
            }
        }
        r
    }

    /// Logs a client in: where `payload` names the user and the hash of the
    /// password, a session is opened under the key that `token` gives, the
    /// device that the payload comes from is added unless it is known, and
    /// the key and the id of the device are handed out. `None` where the
    /// payload names another user or password, or the device cannot be added.
    pub fn authenticate(&mut self, payload: &AuthPayload, token: u64) -> (r: Option<AuthResponse>)
        requires
            old(self)@.wf(),
        ensures
            final(self)@.wf(),
            !credentials_match(old(self)@.database, payload@) ==> r is None && final(self)@ == old(
                self,
            )@,
            credentials_match(old(self)@.database, payload@) ==> logged_in(
                old(self)@,
                payload@,
                token,
                final(self)@,
                login_answer(r),
            ),
    {
        let user = &self.database.personal_info.user_data;
        if !(same_text(user.password_hash.as_str(), payload.password_hash.as_str()) && same_text(
            user.pseudonym.as_str(),
            payload.username.as_str(),
        )) {
            return None;
        }
        let session_token = match self.register_auth_key(token) {
            DatabaseReplyVariant::NewAuth(key) => key,
            _ => {
                return None;
            },
        };
        let devices = self.database.devices.get_devices();
        let mut k: usize = 0;
        while k < devices.len() && !(same_text(
            devices[k].device_model.as_str(),
            payload.device_model.as_str(),
        ) && same_text(devices[k].device_name.as_str(), payload.device_name.as_str())
            && devices[k].device_type.same_as(&payload.device_type))
            invariant
                k <= devices.len(),
                crate::database::devices::device_views(devices@) == old(self)@.database.devices,
                forall|i: int|
                    0 <= i < k ==> !is_device_of(old(self)@.database.devices[i], payload@),
            decreases devices.len() - k,
        {
            proof {
                assert(old(self)@.database.devices[k as int] == devices@[k as int]@);
            }
            k += 1;
        }
        proof {
            if k < devices.len() {
                assert(old(self)@.database.devices[k as int] == devices@[k as int]@);
            }
            lemma_known_device(old(self)@.database.devices, payload@, k as int);
        }
        if k < devices.len() {
            return Some(AuthResponse { session_token, device_id: k });
        }
        let device = Device::new(
            0,
            payload.device_name.clone(),
            payload.device_type.clone(),
            payload.device_os.clone(),
            payload.device_model.clone(),
        );
        match self.handle_add_request(DatabaseItem::Device(device), None) {
            DatabaseReplyVariant::AddedItem(DatabaseItemID::Device(id)) => {
                proof {
                    let opened = handled(old(self)@, RequestView::NewAuthKey, None, token).0;
                    let stored = self@.database.devices.last();
                    assert(stored == (DeviceView { id, ..device@ }));
                    assert(handled(
                        opened,
                        RequestView::Add(DatabaseItemView::Device(stored)),
                        None,
                        token,
                    ).0 == self@);
                }
                Some(AuthResponse { session_token, device_id: id })
            },
            _ => None,
        }
    }
}

} // verus!
