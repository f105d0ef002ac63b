//! Chats: the dialogues that the database keeps.

use crate::database::access_modes::AccessModeID;
use crate::database::configuration::{
    config_shifted, ChatConfigID, ChatConfiguration, ChatConfigurationView,
};
use crate::database::context::{ContextPart, ContextPartView, ContextPosition, WholeContext};
use crate::database::devices::DeviceID;
use crate::database::ids::{
    clone_ids, shift_id_if, shift_ids_if, shift_option_if, shifted_ids_if, shifted_if,
    shifted_option_if, ItemKind,
};
use crate::database::tags::TagID;
use crate::database::timestamp::Timestamp;
use std::collections::{HashMap, HashSet};
use vstd::prelude::*;

verus! {

broadcast use vstd::std_specs::hash::group_hash_axioms;

pub type ChatID = usize;

/// What a session with a chat service is for.
#[derive(Clone, Copy, PartialEq, Eq, Structural, Hash, Debug)]
pub enum SessionType {
    Function,
    Chat,
    Completion,
}

/// The handle of one exchange with a chat service.
#[derive(Clone, Copy, PartialEq, Eq, Structural, Hash, Debug)]
pub struct SessionID {
    pub id: usize,
    pub session_type: SessionType,
}

/// A chat.
#[derive(PartialEq, Eq, Debug)]
pub struct Chat {
    pub id: ChatID,
    pub context: WholeContext,
    pub chat_title: Option<String>,
    pub session_id: Option<SessionID>,
    pub origin_device: DeviceID,
    pub start_date: Timestamp,
    pub waiting_on_response: bool,
    pub latest_message: Timestamp,
    pub tags: HashSet<TagID>,
    pub access_modes: HashSet<AccessModeID>,
    pub config: Option<ChatConfigID>,
    pub latest_used_config: Option<ChatConfiguration>,
}

/// The mathematical value of a [`Chat`].
pub struct ChatView {
    pub id: usize,
    pub context: Seq<ContextPartView>,
    pub chat_title: Option<Seq<char>>,
    pub session_id: Option<SessionID>,
    pub origin_device: usize,
    pub start_date: Timestamp,
    pub waiting_on_response: bool,
    pub latest_message: Timestamp,
    pub tags: Set<usize>,
    pub access_modes: Set<usize>,
    pub config: Option<usize>,
    pub latest_used_config: Option<ChatConfigurationView>,
}

/// The value of an optional text.
pub open spec fn optional_text(text: Option<String>) -> Option<Seq<char>> {
    match text {
        Some(t) => Some(t@),
        None => None,
    }
}

/// The value of an optional configuration.
pub open spec fn optional_config(config: Option<ChatConfiguration>) -> Option<
    ChatConfigurationView,
> {
    match config {
        Some(c) => Some(c@),
        None => None,
    }
}

/// Whether a reply is awaited after `context`: its last fragment comes
/// neither from the user nor from the system.
pub open spec fn awaits_response(context: Seq<ContextPartView>) -> bool {
    context.len() > 0 && context.last().position != ContextPosition::User && context.last().position
        != ContextPosition::System
}

impl View for Chat {
    type V = ChatView;

    open spec fn view(&self) -> ChatView {
        ChatView {
            id: self.id,
            context: self.context@,
            chat_title: optional_text(self.chat_title),
            session_id: self.session_id,
            origin_device: self.origin_device,
            start_date: self.start_date,
            waiting_on_response: self.waiting_on_response,
            latest_message: self.latest_message,
            tags: self.tags@,
            access_modes: self.access_modes@,
            config: self.config,
            latest_used_config: optional_config(self.latest_used_config),
        }
    }
}

/// A chat after an insertion of an item of `kind` at `at`: its tags, its
/// access modes, its device, its configuration and the configuration it
/// last ran under are brought up to date where an item of their kind was
/// inserted.
pub open spec fn chat_shifted(chat: ChatView, kind: ItemKind, at: usize) -> ChatView {
    ChatView {
        tags: shifted_ids_if(kind == ItemKind::Tag, chat.tags, at),
        access_modes: shifted_ids_if(kind == ItemKind::AccessMode, chat.access_modes, at),
        origin_device: shifted_if(kind == ItemKind::Device, chat.origin_device, at),
        config: shifted_option_if(kind == ItemKind::ChatConfiguration, chat.config, at),
        latest_used_config: match chat.latest_used_config {
            Some(config) => Some(
                ChatConfigurationView {
                    id: shifted_if(kind == ItemKind::ChatConfiguration, config.id, at),
                    ..config_shifted(config, kind, at)
                },
            ),
            None => None,
        },
        ..chat
    }
}

impl ChatView {
    /// Whether the chat says that a reply is awaited exactly when one is.
    pub open spec fn wf(self) -> bool {
        self.waiting_on_response == awaits_response(self.context)
    }
}

impl Clone for Chat {
    fn clone(&self) -> (r: Self)
        ensures
            r@ == self@,
    {
        Chat {
            id: self.id,
            context: self.context.clone(),
            chat_title: match &self.chat_title {
                Some(t) => Some(t.clone()),
                None => None,
            },
            session_id: self.session_id,
            origin_device: self.origin_device,
            start_date: self.start_date,
            waiting_on_response: self.waiting_on_response,
            latest_message: self.latest_message,
            tags: clone_ids(&self.tags),
            access_modes: clone_ids(&self.access_modes),
            config: self.config,
            latest_used_config: match &self.latest_used_config {
                Some(c) => Some(c.clone()),
                None => None,
            },
        }
    }
}

impl Chat {
    /// Brings the references of the chat up to date after an insertion of
    /// an item of `kind` at `at`.
    pub fn shift_references(&mut self, kind: ItemKind, at: usize)
        ensures
            final(self)@ == chat_shifted(old(self)@, kind, at),
    {
        shift_ids_if(kind == ItemKind::Tag, &mut self.tags, at);
        shift_ids_if(kind == ItemKind::AccessMode, &mut self.access_modes, at);
        shift_id_if(kind == ItemKind::Device, &mut self.origin_device, at);
        shift_option_if(kind == ItemKind::ChatConfiguration, &mut self.config, at);
        match &mut self.latest_used_config {
            Some(config) => {
                config.shift_references(kind, at);
                shift_id_if(kind == ItemKind::ChatConfiguration, &mut config.id, at);
            },
            None => (),
        }
    }

    /// Whether the chat says that a reply is awaited exactly when one is.
    pub fn is_well_formed(&self) -> (r: bool)
        ensures
            r == self@.wf(),
    {
        let parts = self.context.get_parts();
        let awaited = if parts.len() > 0 {
            match parts[parts.len() - 1].get_position() {
                ContextPosition::User => false,
                ContextPosition::System => false,
                _ => true,
            }
        } else {
            false
        };
        self.waiting_on_response == awaited
    }

    /// The dialogue of the chat.
    pub fn get_context(&self) -> (r: &WholeContext)
        ensures
            r@ == self@.context,
    {
        &self.context
    }

    /// The title of the chat.
    pub fn get_title(&self) -> (r: &Option<String>)
        ensures
            optional_text(*r) == self@.chat_title,
    {
        &self.chat_title
    }

    /// The session that the chat runs in.
    pub fn get_session_id(&self) -> (r: &Option<SessionID>)
        ensures
            *r == self@.session_id,
    {
        &self.session_id
    }

    /// The id of the chat.
    pub fn get_id(&self) -> (r: ChatID)
        ensures
            r == self@.id,
    {
        self.id
    }

    /// Appends a fragment to the dialogue, at the time of the call. A reply
    /// is awaited afterwards unless the fragment comes from the user or the
    /// system.
    pub fn add_to_context(&mut self, new_context: ContextPart)
        ensures
            final(self)@ == (ChatView {
                context: old(self)@.context.push(new_context@),
                waiting_on_response: new_context@.position != ContextPosition::User
                    && new_context@.position != ContextPosition::System,
                latest_message: final(self)@.latest_message,
                ..old(self)@
            }),
            final(self)@.wf(),
    {
        let waiting_on_response = match new_context.get_position() {
            ContextPosition::User => false,
            ContextPosition::System => false,
            _ => true,
        };
        self.waiting_on_response = waiting_on_response;
        self.context.add_part(new_context);
        self.latest_message = Timestamp::now();
    }

    /// Whether a reply is awaited.
    pub fn is_waiting_on_response(&self) -> (r: bool)
        ensures
            r == self@.waiting_on_response,
    {
        self.waiting_on_response
    }

    /// Whether the last fragment of the dialogue comes from the user.
    pub fn last_response_is_user(&self) -> (r: bool)
        requires
            self@.context.len() > 0,
        ensures
            r == (self@.context.last().position == ContextPosition::User),
    {
        let parts = self.context.get_parts();
        match parts[parts.len() - 1].get_position() {
            ContextPosition::User => true,
            _ => false,
        }
    }
}

/// The values of the chats of a map.
pub open spec fn chat_views(chats: Map<usize, Chat>) -> Map<usize, ChatView> {
    chats.map_values(|c: Chat| c@)
}

/// Whether the ids of `chats` are exactly those below their number, and
/// every chat has the id that it is kept under.
pub open spec fn chats_dense(chats: Map<usize, ChatView>) -> bool {
    &&& chats.dom().finite()
    &&& forall|k: usize| chats.contains_key(k) <==> k < chats.len()
    &&& forall|k: usize| chats.contains_key(k) ==> (#[trigger] chats[k]).id == k
}

/// Whether every chat of `chats` is well formed.
pub open spec fn chats_valid(chats: Map<usize, ChatView>) -> bool {
    forall|k: usize| chats.contains_key(k) ==> (#[trigger] chats[k]).wf()
}

/// `chats` with `chat` inserted under its id: every chat from that id on
/// moves up by one, and so does its id.
pub open spec fn chats_inserted(chats: Map<usize, ChatView>, chat: ChatView) -> Map<
    usize,
    ChatView,
> {
    Map::new(
        |k: usize| k <= chats.len(),
        |k: usize|
            if k < chat.id {
                chats[k]
            } else if k == chat.id {
                chat
            } else {
                (ChatView { id: k, ..chats[(k - 1) as usize] })
            },
    )
}

/// All chats, each under its id.
#[derive(PartialEq, Eq, Debug)]
pub struct Chats {
    all_chats: HashMap<ChatID, Chat>,
}

impl View for Chats {
    type V = Map<usize, ChatView>;

    closed spec fn view(&self) -> Map<usize, ChatView> {
        chat_views(self.all_chats@)
    }
}

impl Chats {
    /// Whether ids are dense and every chat is well formed.
    pub open spec fn wf(&self) -> bool {
        chats_dense(self@) && chats_valid(self@)
    }

    /// No chats.
    pub fn new() -> (r: Chats)
        ensures
            r@ == Map::<usize, ChatView>::empty(),
            r.wf(),
    {
        let all_chats: HashMap<ChatID, Chat> = HashMap::new();
        proof {
            assert(chat_views(all_chats@) =~= Map::<usize, ChatView>::empty());
        }
        Chats { all_chats }
    }

    /// The number of chats.
    pub fn len(&self) -> (r: usize)
        ensures
            r == self@.len(),
    {
        proof {
            assert(chat_views(self.all_chats@).dom() =~= self.all_chats@.dom());
        }
        self.all_chats.len()
    }

    /// Whether ids are dense and every chat is well formed.
    pub fn is_well_formed(&self) -> (r: bool)
        ensures
            r == self.wf(),
    {
        let n = self.len();
        let mut i: usize = 0;
        proof {
            assert(self@.dom() =~= self.all_chats@.dom());
        }
        while i < n
            invariant
                i <= n,
                n == self@.len(),
                self@.dom().finite(),
                forall|k: usize| k < i ==> #[trigger] self@.contains_key(k),
                forall|k: usize| k < i ==> (#[trigger] self@[k]).id == k && self@[k].wf(),
            decreases n - i,
        {
            match self.all_chats.get(&i) {
                Some(chat) => {
                    if chat.id != i || !chat.is_well_formed() {
                        proof {
                            assert(self@[i] == chat@);
                        }
                        return false;
                    }
                },
                None => {
                    proof {
                        assert(!self@.contains_key(i));
                    }
                    return false;
                },
            }
            i += 1;
        }
        proof {
            lemma_dense_domain(self@);
        }
        true
    }

    /// The chats.
    pub fn get_chats(&self) -> (r: &HashMap<ChatID, Chat>)
        ensures
            chat_views(r@) == self@,
    {
        &self.all_chats
    }

    /// The chats, to be changed in place.
    pub fn get_chats_mut(&mut self) -> (r: &mut HashMap<ChatID, Chat>)
        ensures
            chat_views(r@) == old(self)@,
            final(self)@ == chat_views(final(r)@),
    {
        &mut self.all_chats
    }

    /// A copy of the chat kept under `id`, if there is one.
    pub fn get_chat(&self, id: ChatID) -> (r: Option<Chat>)
        ensures
            match r {
                Some(chat) => self@.contains_key(id) && chat@ == self@[id],
                None => !self@.contains_key(id),
            },
    {
        match self.all_chats.get(&id) {
            Some(chat) => Some(chat.clone()),
            None => None,
        }
    }

    /// Puts `chat` under its id, in the place of the chat that was there.
    pub fn update_chat(&mut self, chat: Chat)
        ensures
            final(self)@ == old(self)@.insert(chat.id, chat@),
            old(self).wf() && old(self)@.contains_key(chat.id) && chat@.wf() ==> final(self).wf(),
    {
        let id = chat.id;
        let ghost before = self.all_chats@;
        self.all_chats.insert(id, chat);
        proof {
            assert(chat_views(self.all_chats@) =~= chat_views(before).insert(id, chat@));
            if old(self).wf() && old(self)@.contains_key(chat.id) && chat@.wf() {
                assert(self@.dom() =~= old(self)@.dom());
            }
        }
    }

    /// Adds `chat` under the next id, which is returned.
    pub fn add_chat_raw(&mut self, chat: Chat) -> (id: ChatID)
        ensures
            id == old(self)@.len(),
            final(self)@ == old(self)@.insert(id, (ChatView { id, ..chat@ })),
            old(self).wf() && chat@.wf() ==> final(self).wf(),
    {
        let mut chat = chat;
        let id = self.len();
        chat.id = id;
        let ghost before = self.all_chats@;
        self.all_chats.insert(id, chat);
        proof {
            assert(chat_views(self.all_chats@) =~= chat_views(before).insert(id, chat@));
            if old(self).wf() && chat@.wf() {
                assert(!old(self)@.contains_key(id));
                assert(self@.dom() =~= old(self)@.dom().insert(id));
            }
        }
        id
    }

    /// Appends a fragment to the dialogue of the chat `chat_id`, if that
    /// chat exists.
    pub fn add_context_part_to(&mut self, context_part: ContextPart, chat_id: ChatID)
        ensures
            old(self)@.contains_key(chat_id) ==> final(self)@ == old(self)@.insert(
                chat_id,
                (ChatView {
                    context: old(self)@[chat_id].context.push(context_part@),
                    waiting_on_response: context_part@.position != ContextPosition::User
                        && context_part@.position != ContextPosition::System,
                    latest_message: final(self)@[chat_id].latest_message,
                    ..old(self)@[chat_id]
                }),
            ),
            !old(self)@.contains_key(chat_id) ==> final(self)@ == old(self)@,
            old(self).wf() ==> final(self).wf(),
    {
        let ghost before = self.all_chats@;
        match self.all_chats.remove(&chat_id) {
            Some(chat) => {
                let mut chat = chat;
                chat.add_to_context(context_part);
                self.all_chats.insert(chat_id, chat);
                proof {
                    assert(chat_views(self.all_chats@) =~= chat_views(before).insert(
                        chat_id,
                        chat@,
                    ));
                    if old(self).wf() {
                        assert(self@.dom() =~= old(self)@.dom());
                    }
                }
            },
            None => {
                proof {
                    assert(self.all_chats@ =~= before);
                }
            },
        }
    }

    /// Adds a chat that starts with `starting_context`, at the time of the
    /// call, under the next id, which is returned. It has no title, no tags
    /// and the global access mode.
    pub fn create_chat(
        &mut self,
        starting_context: WholeContext,
        session_id: Option<SessionID>,
        origin_device: DeviceID,
        config: Option<ChatConfigID>,
    ) -> (id: ChatID)
        ensures
            id == old(self)@.len(),
            final(self)@ == old(self)@.insert(
                id,
                (ChatView {
                    id,
                    context: starting_context@,
                    chat_title: None,
                    session_id,
                    origin_device,
                    start_date: final(self)@[id].start_date,
                    waiting_on_response: awaits_response(starting_context@),
                    latest_message: final(self)@[id].latest_message,
                    tags: Set::empty(),
                    access_modes: Set::empty().insert(0),
                    config,
                    latest_used_config: None,
                }),
            ),
            old(self).wf() ==> final(self).wf(),
    {
        let waiting_on_response = if starting_context.len() > 0 {
            let parts = starting_context.get_parts();
            match parts[parts.len() - 1].get_position() {
                ContextPosition::User => false,
                ContextPosition::System => false,
                _ => true,
            }
        } else {
            false
        };
        let mut access_modes: HashSet<AccessModeID> = HashSet::new();
        access_modes.insert(0);
        let chat = Chat {
            context: starting_context,
            chat_title: None,
            session_id,
            origin_device,
            id: 0,
            tags: HashSet::new(),
            access_modes,
            latest_message: Timestamp::now(),
            start_date: Timestamp::now(),
            waiting_on_response,
            config,
            latest_used_config: None,
        };
        self.add_chat_raw(chat)
    }

    /// Brings the references of every chat up to date after an insertion of
    /// an item of `kind` at `at`.
    pub fn shift_references(&mut self, kind: ItemKind, at: usize)
        requires
            chats_dense(old(self)@),
        ensures
            final(self)@ == old(self)@.map_values(|c: ChatView| chat_shifted(c, kind, at)),
    {
        let ghost before = self@;
        let n = self.len();
        let mut i: usize = 0;
        while i < n
            invariant
                i <= n,
                n == before.len(),
                chats_dense(before),
                self@.dom() == before.dom(),
                forall|k: usize|
                    before.contains_key(k) ==> #[trigger] self@[k] == if k < i {
                        chat_shifted(before[k], kind, at)
                    } else {
                        before[k]
                    },
            decreases n - i,
        {
            let ghost prev = self.all_chats@;
            assert(before.contains_key(i));
            assert(self@.contains_key(i));
            match self.all_chats.remove(&i) {
                Some(chat) => {
                    let mut chat = chat;
                    proof {
                        assert(chat == prev[i]);
                        assert(chat_views(prev)[i] == prev[i]@);
                    }
                    chat.shift_references(kind, at);
                    self.all_chats.insert(i, chat);
                    proof {
                        assert(chat_views(self.all_chats@) =~= chat_views(prev).insert(i, chat@));
                        assert(self@.dom() =~= before.dom());
                    }
                },
                None => {
                    proof {
                        assert(false);
                    }
                },
            }
            i += 1;
        }
        proof {
            assert(self@ =~= before.map_values(|c: ChatView| chat_shifted(c, kind, at)));
        }
    }

    /// The chat with the greatest id, if there is any chat.
    pub fn get_last_chat(&self) -> (r: Option<&Chat>)
        ensures
            match r {
                Some(chat) => self@.len() > 0 && self@.contains_key((self@.len() - 1) as usize)
                    && chat@ == self@[(self@.len() - 1) as usize],
                None => self@.len() == 0 || !self@.contains_key((self@.len() - 1) as usize),
            },
    {
        let n = self.len();
        if n > 0 {
            self.all_chats.get(&(n - 1))
        } else {
            None
        }
    }

    /// Inserts `chat` under its id: every chat from that id on moves up by
    /// one, and so does its id.
    pub fn insert_chat(&mut self, chat: Chat)
        requires
            old(self).wf(),
            chat@.wf(),
            chat.id <= old(self)@.len(),
            old(self)@.len() < usize::MAX,
        ensures
            final(self)@ == chats_inserted(old(self)@, chat@),
            final(self).wf(),
    {
        let id = chat.id;
        let n = self.len();
        let ghost before = self@;
        let mut i: usize = n;
        while i > id
            invariant
                id <= i <= n < usize::MAX,
                n == before.len(),
                chats_dense(before),
                chats_valid(before),
                forall|k: usize| self@.contains_key(k) <==> (k <= n && k != i),
                forall|k: usize| k < i ==> #[trigger] self@[k] == before[k],
                forall|k: usize|
                    i < k <= n ==> #[trigger] self@[k] == (ChatView {
                        id: k,
                        ..before[(k - 1) as usize]
                    }),
            decreases i,
        {
            let ghost prev = self.all_chats@;
            let from = i - 1;
            assert(self@.contains_key(from));
            match self.all_chats.remove(&from) {
                Some(moved) => {
                    let mut moved = moved;
                    proof {
                        assert(moved == prev[from]);
                        assert(chat_views(prev)[from] == prev[from]@);
                        assert(self@.contains_key(i) == false) by {
                            assert(chat_views(self.all_chats@).dom() =~= chat_views(
                                prev,
                            ).dom().remove(from));
                        }
                    }
                    moved.id = i;
                    self.all_chats.insert(i, moved);
                    proof {
                        assert(chat_views(self.all_chats@) =~= chat_views(prev).remove(
                            from,
                        ).insert(i, moved@));
                        assert(moved@ == (ChatView { id: i, ..before[from] }));
                    }
                },
                None => {
                    proof {
                        assert(false);
                    }
                },
            }
            i = from;
        }
        let ghost shifted = self@;
        assert(i == id);
        assert(forall|k: usize| shifted.contains_key(k) <==> (k <= n && k != id));
        assert(forall|k: usize| k < id ==> #[trigger] shifted[k] == before[k]);
        assert(forall|k: usize|
            id < k <= n ==> #[trigger] shifted[k] == (ChatView {
                id: k,
                ..before[(k - 1) as usize]
            }));
        self.all_chats.insert(id, chat);
        proof {
            assert(chat_views(self.all_chats@) =~= shifted.insert(id, chat@));
            let target = chats_inserted(before, chat@);
            assert forall|k: usize| self@.contains_key(k) <==> target.contains_key(k) by {}
            assert forall|k: usize| self@.contains_key(k) implies self@[k] == target[k] by {
                if k < id {
                    assert(shifted[k] == before[k]);
                } else if k > id {
                    assert(shifted[k] == (ChatView { id: k, ..before[(k - 1) as usize] }));
                }
            }
            assert(self@ =~= target);
            lemma_inserted_dense(before, chat@);
        }
    }
}

/// Chats that hold every id below their number hold no other id.
pub proof fn lemma_dense_domain(chats: Map<usize, ChatView>)
    requires
        chats.dom().finite(),
        chats.len() <= usize::MAX,
        forall|k: usize| k < chats.len() ==> chats.contains_key(k),
    ensures
        forall|k: usize| chats.contains_key(k) <==> k < chats.len(),
{
    let n = chats.len();
    let below = Set::new(|k: usize| k < n);
    assert(below.subset_of(chats.dom()));
    let as_ints = below.map(|k: usize| k as int);
    assert(as_ints =~= vstd::set_lib::set_int_range(0, n as int)) by {
        assert forall|x: int| vstd::set_lib::set_int_range(0, n as int).contains(
            x,
        ) implies as_ints.contains(x) by {
            assert(below.contains(x as usize) && (x as usize) as int == x);
        }
    }
    vstd::set_lib::lemma_int_range(0, n as int);
    vstd::set_lib::lemma_len_subset(below, chats.dom());
    vstd::set_lib::lemma_map_size(below, as_ints, |k: usize| k as int);
    vstd::set_lib::lemma_subset_equality(below, chats.dom());
}

/// An insertion into dense, well-formed chats leaves them dense and well formed.
pub proof fn lemma_inserted_dense(chats: Map<usize, ChatView>, chat: ChatView)
    requires
        chats_dense(chats),
        chats_valid(chats),
        chat.wf(),
        chat.id <= chats.len(),
        chats.len() < usize::MAX,
    ensures
        chats_dense(chats_inserted(chats, chat)),
        chats_valid(chats_inserted(chats, chat)),
        chats_inserted(chats, chat).len() == chats.len() + 1,
{
    let r = chats_inserted(chats, chat);
    let n = chats.len() as usize;
    assert(r.dom() =~= chats.dom().insert(n));
    assert(!chats.contains_key(n));
    assert forall|k: usize| r.contains_key(k) implies (#[trigger] r[k]).id == k && r[k].wf() by {
        if k < chat.id {
            assert(chats.contains_key(k));
        } else if k > chat.id {
            assert(chats.contains_key((k - 1) as usize));
        }
    }
}

impl Clone for Chats {
    fn clone(&self) -> (r: Self)
        ensures
            r@ == self@,
    {
        let all_chats = self.all_chats.clone();
        Chats { all_chats }
    }
}

} // verus!
