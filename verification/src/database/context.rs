//! Contexts: ordered fragments of a dialogue, each tagged by its source.

use crate::ai_interaction::tools::data_inserts;
use crate::database::configuration::{
    full_system_prompt, ChatConfiguration, ChatConfigurationView, ChatSetting, ChatSettingView,
    RepeatPosition,
};
use vstd::prelude::*;

verus! {

/// Where a fragment of a dialogue comes from.
#[derive(Clone, Copy, PartialEq, Eq, Structural, Debug)]
pub enum ContextPosition {
    System,
    User,
    AI,
    Total,
    Tool,
}

/// One item of a fragment: a run of text or a reference to an image.
#[derive(PartialEq, Eq, Debug)]
pub enum ContextData {
    Text(String),
    Image(usize),
}

/// The mathematical value of a [`ContextData`].
pub enum ContextDataView {
    Text(Seq<char>),
    Image(usize),
}

impl View for ContextData {
    type V = ContextDataView;

    open spec fn view(&self) -> ContextDataView {
        match self {
            ContextData::Text(text) => ContextDataView::Text(text@),
            ContextData::Image(image) => ContextDataView::Image(*image),
        }
    }
}

impl Clone for ContextData {
    fn clone(&self) -> (r: Self)
        ensures
            r@ == self@,
    {
        match self {
            ContextData::Text(text) => ContextData::Text(text.clone()),
            ContextData::Image(image) => ContextData::Image(*image),
        }
    }
}

/// The values of a sequence of items.
pub open spec fn data_views(data: Seq<ContextData>) -> Seq<ContextDataView> {
    data.map_values(|d: ContextData| d@)
}

/// The text that stands for an image where only text can be handed on.
pub open spec fn image_alt_text() -> Seq<char> {
    "Alt text : This is an image. Not much more I can say since alt text is not implemented yet"@
}

/// The text of one item: its own text, or the stand-in text of an image.
pub open spec fn item_text(data: ContextDataView) -> Seq<char> {
    match data {
        ContextDataView::Text(text) => text,
        ContextDataView::Image(_) => image_alt_text(),
    }
}

/// The text items of `data`, put together in order; images add nothing.
pub open spec fn joined_text(data: Seq<ContextDataView>) -> Seq<char>
    decreases data.len(),
{
    if data.len() == 0 {
        Seq::empty()
    } else {
        let head = match data.last() {
            ContextDataView::Text(text) => text,
            ContextDataView::Image(_) => Seq::empty(),
        };
        joined_text(data.drop_last()) + head
    }
}

/// The text of two runs of items, one after the other, is the text of the
/// first followed by the text of the second.
pub proof fn lemma_joined_text_concat(a: Seq<ContextDataView>, b: Seq<ContextDataView>)
    ensures
        joined_text(a + b) == joined_text(a) + joined_text(b),
    decreases b.len(),
{
    if b.len() == 0 {
        assert(a + b =~= a);
        assert(joined_text(a) + joined_text(b) =~= joined_text(a));
    } else {
        lemma_joined_text_concat(a, b.drop_last());
        assert((a + b).drop_last() =~= a + b.drop_last());
        assert((a + b).last() == b.last());
        let head = match b.last() {
            ContextDataView::Text(text) => text,
            ContextDataView::Image(_) => Seq::empty(),
        };
        assert(joined_text(a) + joined_text(b.drop_last()) + head =~= joined_text(a) + (
        joined_text(b.drop_last()) + head));
    }
}

/// The text of a single text item is that text.
pub proof fn lemma_joined_text_single(text: Seq<char>)
    ensures
        joined_text(seq![ContextDataView::Text(text)]) == text,
{
    let one = seq![ContextDataView::Text(text)];
    assert(one.drop_last() =~= Seq::<ContextDataView>::empty());
    assert(joined_text(one.drop_last()) + text =~= text);
}

/// `data` with each run of text items joined into one item. An image ends
/// the run before it, which is kept even when empty, and is itself left out.
pub open spec fn joined_runs(data: Seq<ContextDataView>, current: Seq<char>) -> Seq<
    ContextDataView,
>
    decreases data.len(),
{
    if data.len() == 0 {
        if current.len() > 0 {
            seq![ContextDataView::Text(current)]
        } else {
            Seq::empty()
        }
    } else {
        match data[0] {
            ContextDataView::Text(text) => joined_runs(data.drop_first(), current + text),
            ContextDataView::Image(_) => seq![ContextDataView::Text(current)] + joined_runs(
                data.drop_first(),
                Seq::empty(),
            ),
        }
    }
}

impl ContextData {
    /// The text of a text item.
    pub fn get_text(&self) -> (r: String)
        requires
            self is Text,
        ensures
            self@ == ContextDataView::Text(r@),
    {
        match self {
            ContextData::Text(text) => text.clone(),
            ContextData::Image(_) => String::new(),
        }
    }
}

/// A fragment of a dialogue: items in order, and where they come from.
#[derive(PartialEq, Eq, Debug)]
pub struct ContextPart {
    data: Vec<ContextData>,
    position: ContextPosition,
}

pub type Prompt = ContextPart;

pub type Response = ContextPart;

/// The mathematical value of a [`ContextPart`].
pub struct ContextPartView {
    pub data: Seq<ContextDataView>,
    pub position: ContextPosition,
}

impl View for ContextPart {
    type V = ContextPartView;

    closed spec fn view(&self) -> ContextPartView {
        ContextPartView { data: data_views(self.data@), position: self.position }
    }
}

impl ContextPartView {
    /// The text of the fragment: its text items put together.
    pub open spec fn text(self) -> Seq<char> {
        joined_text(self.data)
    }
}

/// Clones a list of items.
pub fn clone_data(data: &Vec<ContextData>) -> (r: Vec<ContextData>)
    ensures
        data_views(r@) == data_views(data@),
{
    let mut r: Vec<ContextData> = Vec::new();
    let mut i: usize = 0;
    while i < data.len()
        invariant
            i <= data.len(),
            data_views(r@) == data_views(data@).take(i as int),
        decreases data.len() - i,
    {
        let item = data[i].clone();
        let ghost before = r@;
        r.push(item);
        proof {
            assert(item@ == data@[i as int]@);
            assert(data_views(r@) =~= data_views(before).push(item@));
            assert(data_views(data@).take(i + 1) =~= data_views(data@).take(i as int).push(
                data@[i as int]@,
            ));
        }
        i += 1;
    }
    proof {
        assert(data_views(data@).take(data.len() as int) =~= data_views(data@));
    }
    r
}

impl Clone for ContextPart {
    fn clone(&self) -> (r: Self)
        ensures
            r@ == self@,
    {
        ContextPart { data: clone_data(&self.data), position: self.position }
    }
}

impl ContextPart {
    /// The fragment made of `data` at `position`.
    pub fn new(data: Vec<ContextData>, position: ContextPosition) -> (r: ContextPart)
        ensures
            r@ == (ContextPartView { data: data_views(data@), position }),
    {
        ContextPart { data, position }
    }

    /// The items of the fragment.
    pub fn get_data(&self) -> (r: &Vec<ContextData>)
        ensures
            data_views(r@) == self@.data,
    {
        &self.data
    }

    /// The items of the fragment, to be changed in place.
    pub fn get_data_mut(&mut self) -> (r: &mut Vec<ContextData>)
        ensures
            data_views(r@) == old(self)@.data,
            final(self)@ == (ContextPartView {
                data: data_views(final(r)@),
                position: old(self)@.position,
            }),
    {
        &mut self.data
    }

    /// Appends one item.
    pub fn add_data(&mut self, data: ContextData)
        ensures
            final(self)@ == (ContextPartView {
                data: old(self)@.data.push(data@),
                position: old(self)@.position,
            }),
    {
        self.data.push(data);
        proof {
            assert(data_views(self.data@) =~= data_views(old(self).data@).push(data@));
        }
    }

    /// Appends the items of `append`, in order; its position is dropped.
    pub fn merge_data_with(&mut self, append: ContextPart)
        ensures
            final(self)@ == (ContextPartView {
                data: old(self)@.data + append@.data,
                position: old(self)@.position,
            }),
    {
        let mut other = append.data;
        self.data.append(&mut other);
        proof {
            assert(data_views(self.data@) =~= data_views(old(self).data@) + data_views(
                append.data@,
            ));
        }
    }

    /// A user fragment: `data` between the opening and the closing marker of
    /// a user prompt.
    pub fn new_user_prompt_with_tools(data: Vec<ContextData>) -> (r: ContextPart)
        ensures
            r@ == (ContextPartView {
                data: seq![ContextDataView::Text("<user_prompt>\n"@)] + data_views(data@)
                    + seq![ContextDataView::Text("</user_prompt>\n"@)],
                position: ContextPosition::User,
            }),
    {
        let mut data = data;
        let ghost before = data@;
        data.insert(0, ContextData::Text("<user_prompt>\n".to_string()));
        data.push(ContextData::Text("</user_prompt>\n".to_string()));
        proof {
            assert(data_views(data@) =~= seq![ContextDataView::Text("<user_prompt>\n"@)]
                + data_views(before) + seq![ContextDataView::Text("</user_prompt>\n"@)]);
        }
        ContextPart { data, position: ContextPosition::User }
    }

    /// Where the fragment comes from.
    pub fn get_position(&self) -> (r: &ContextPosition)
        ensures
            *r == self@.position,
    {
        &self.position
    }

    /// Whether the fragment is shown to the user: all but system fragments are.
    pub fn in_visible_position(&self) -> (r: bool)
        ensures
            r == (self@.position != ContextPosition::System),
    {
        match self.position {
            ContextPosition::System => false,
            _ => true,
        }
    }

    /// Whether the fragment comes from the user.
    pub fn is_user(&self) -> (r: bool)
        ensures
            r == (self@.position == ContextPosition::User),
    {
        match self.position {
            ContextPosition::User => true,
            _ => false,
        }
    }

    /// The text of the fragment: its text items put together.
    pub fn joined_text(&self) -> (r: String)
        ensures
            r@ == self@.text(),
    {
        let mut r = String::new();
        let mut i: usize = 0;
        while i < self.data.len()
            invariant
                i <= self.data.len(),
                r@ == joined_text(self@.data.take(i as int)),
            decreases self.data.len() - i,
        {
            proof {
                assert(self@.data.take(i + 1).drop_last() =~= self@.data.take(i as int));
                assert(self@.data.take(i + 1).last() == self.data@[i as int]@);
            }
            match &self.data[i] {
                ContextData::Text(text) => {
                    r.append(text.as_str());
                },
                ContextData::Image(_) => {
                    proof {
                        assert(r@ + Seq::<char>::empty() =~= r@);
                    }
                },
            }
            i += 1;
        }
        proof {
            assert(self@.data.take(self.data.len() as int) =~= self@.data);
        }
        r
    }

    /// The text of each item, in order; an image gives its stand-in text.
    pub fn data_to_text(&self) -> (r: Vec<String>)
        ensures
            crate::text::text_views(r@) == self@.data.map_values(
                |d: ContextDataView| item_text(d),
            ),
    {
        let mut r: Vec<String> = Vec::new();
        let mut i: usize = 0;
        while i < self.data.len()
            invariant
                i <= self.data.len(),
                crate::text::text_views(r@) == self@.data.map_values(
                    |d: ContextDataView| item_text(d),
                ).take(i as int),
            decreases self.data.len() - i,
        {
            let ghost before = r@;
            let text = match &self.data[i] {
                ContextData::Text(text) => text.clone(),
                ContextData::Image(_) => {
                    "Alt text : This is an image. Not much more I can say since alt text is not implemented yet".to_string()
                },
            };
            r.push(text);
            proof {
                let all = self@.data.map_values(|d: ContextDataView| item_text(d));
                assert(text@ == item_text(self.data@[i as int]@));
                assert(crate::text::text_views(r@) =~= crate::text::text_views(before).push(
                    text@,
                ));
                assert(all.take(i + 1) =~= all.take(i as int).push(all[i as int]));
            }
            i += 1;
        }
        proof {
            let all = self@.data.map_values(|d: ContextDataView| item_text(d));
            assert(all.take(self.data.len() as int) =~= all);
        }
        r
    }

    /// Joins each run of text items into one item.
    pub fn concatenate_text(&mut self)
        ensures
            final(self)@ == (ContextPartView {
                data: joined_runs(old(self)@.data, Seq::empty()),
                position: old(self)@.position,
            }),
    {
        let mut new_data: Vec<ContextData> = Vec::new();
        let mut current = String::new();
        let ghost all = self@.data;
        let mut i: usize = 0;
        proof {
            assert(all.skip(0) =~= all);
            assert(data_views(new_data@) + joined_runs(all, Seq::empty()) =~= joined_runs(
                all,
                Seq::empty(),
            ));
        }
        while i < self.data.len()
            invariant
                i <= self.data.len(),
                all == data_views(self.data@),
                joined_runs(all, Seq::empty()) == data_views(new_data@) + joined_runs(
                    all.skip(i as int),
                    current@,
                ),
            decreases self.data.len() - i,
        {
            let ghost before = data_views(new_data@);
            let ghost run = current@;
            proof {
                assert(all.skip(i as int).drop_first() =~= all.skip(i + 1));
                assert(all.skip(i as int)[0] == self.data@[i as int]@);
            }
            match &self.data[i] {
                ContextData::Text(text) => {
                    current.append(text.as_str());
                },
                ContextData::Image(_) => {
                    new_data.push(ContextData::Text(current));
                    current = String::new();
                    proof {
                        assert(data_views(new_data@) =~= before.push(ContextDataView::Text(run)));
                        assert(before + (seq![ContextDataView::Text(run)] + joined_runs(
                            all.skip(i + 1),
                            Seq::empty(),
                        )) =~= data_views(new_data@) + joined_runs(
                            all.skip(i + 1),
                            Seq::empty(),
                        ));
                    }
                },
            }
            i += 1;
        }
        let ghost before = data_views(new_data@);
        let ghost run = current@;
        if current.as_str().unicode_len() > 0 {
            new_data.push(ContextData::Text(current));
            proof {
                assert(data_views(new_data@) =~= before.push(ContextDataView::Text(run)));
            }
        }
        proof {
            assert(all.skip(self.data.len() as int) =~= Seq::<ContextDataView>::empty());
            assert(data_views(new_data@) =~= before + joined_runs(
                Seq::<ContextDataView>::empty(),
                run,
            ));
        }
        self.data = new_data;
    }
}

/// A dialogue: fragments in order.
#[derive(PartialEq, Eq, Debug)]
pub struct WholeContext {
    parts: Vec<ContextPart>,
}

/// The values of a sequence of fragments.
pub open spec fn part_views(parts: Seq<ContextPart>) -> Seq<ContextPartView> {
    parts.map_values(|p: ContextPart| p@)
}

impl View for WholeContext {
    type V = Seq<ContextPartView>;

    closed spec fn view(&self) -> Seq<ContextPartView> {
        part_views(self.parts@)
    }
}

/// The fragments of `parts` that are system fragments (`system` true), or
/// those that are not (`system` false), in their order.
pub open spec fn parts_by_kind(parts: Seq<ContextPartView>, system: bool) -> Seq<ContextPartView>
    decreases parts.len(),
{
    if parts.len() == 0 {
        Seq::empty()
    } else if (parts.last().position == ContextPosition::System) == system {
        parts_by_kind(parts.drop_last(), system).push(parts.last())
    } else {
        parts_by_kind(parts.drop_last(), system)
    }
}

/// The items of all the fragments of `parts`, in order.
pub open spec fn all_data(parts: Seq<ContextPartView>) -> Seq<ContextDataView>
    decreases parts.len(),
{
    if parts.len() == 0 {
        Seq::empty()
    } else {
        all_data(parts.drop_last()) + parts.last().data
    }
}

/// Clones a list of fragments.
pub fn clone_parts(parts: &Vec<ContextPart>) -> (r: Vec<ContextPart>)
    ensures
        part_views(r@) == part_views(parts@),
{
    let mut r: Vec<ContextPart> = Vec::new();
    let mut i: usize = 0;
    while i < parts.len()
        invariant
            i <= parts.len(),
            part_views(r@) == part_views(parts@).take(i as int),
        decreases parts.len() - i,
    {
        let part = parts[i].clone();
        let ghost before = r@;
        r.push(part);
        proof {
            assert(part_views(r@) =~= part_views(before).push(part@));
            assert(part_views(parts@).take(i + 1) =~= part_views(parts@).take(i as int).push(
                parts@[i as int]@,
            ));
        }
        i += 1;
    }
    proof {
        assert(part_views(parts@).take(parts.len() as int) =~= part_views(parts@));
    }
    r
}

/// `parts` with the repeated pre-prompts among `settings` put in, one after
/// the other: behind the last fragment, or just in front of it.
pub open spec fn with_repeated_prompts(
    parts: Seq<ContextPartView>,
    settings: Seq<ChatSettingView>,
) -> Seq<ContextPartView>
    decreases settings.len(),
{
    if settings.len() == 0 {
        parts
    } else {
        let before = with_repeated_prompts(parts, settings.drop_last());
        match settings.last() {
            ChatSettingView::RepeatedPrePrompt(prompt, RepeatPosition::AfterLatest) => before.push(
                prompt,
            ),
            ChatSettingView::RepeatedPrePrompt(prompt, RepeatPosition::BeforeLatest) => if before.len()
                >= 1 {
                before.insert(before.len() - 1, prompt)
            } else {
                before.insert(0, prompt)
            },
            _ => before,
        }
    }
}

/// `parts` with what a configuration adds in each turn: its repeated
/// pre-prompts, then what its tools keep.
pub open spec fn with_per_turn_settings(
    parts: Seq<ContextPartView>,
    config: ChatConfigurationView,
) -> Seq<ContextPartView> {
    let repeated = with_repeated_prompts(parts, config.raw_settings);
    match config.tools {
        Some(tools) => repeated.push(
            ContextPartView { data: data_inserts(tools.tool_data), position: ContextPosition::Tool },
        ),
        None => repeated,
    }
}

impl Clone for WholeContext {
    fn clone(&self) -> (r: Self)
        ensures
            r@ == self@,
    {
        WholeContext { parts: clone_parts(&self.parts) }
    }
}

impl WholeContext {
    /// The dialogue made of the system prompt of `settings`, then `parts`,
    /// then what `settings` add in each turn.
    pub fn new_with_all_settings(parts: Vec<ContextPart>, settings: &ChatConfiguration) -> (r:
        WholeContext)
        ensures
            r@ == with_per_turn_settings(
                seq![full_system_prompt(settings@)] + part_views(parts@),
                settings@,
            ),
    {
        let mut parts = parts;
        let ghost given = parts@;
        let system = settings.get_full_system_prompt();
        parts.insert(0, system);
        proof {
            assert(part_views(parts@) =~= seq![full_system_prompt(settings@)] + part_views(given));
        }
        let mut pre_self = WholeContext { parts };
        pre_self.add_per_turn_settings(settings);
        pre_self
    }

    /// Adds what `settings` add in each turn.
    pub fn add_per_turn_settings(&mut self, settings: &ChatConfiguration)
        ensures
            final(self)@ == with_per_turn_settings(old(self)@, settings@),
    {
        let ghost start = self@;
        let ghost all = settings@.raw_settings;
        let raw = settings.get_raw_settings();
        let mut i: usize = 0;
        proof {
            assert(all.take(0).len() == 0);
        }
        while i < raw.len()
            invariant
                i <= raw.len(),
                all == crate::database::configuration::setting_views(raw@),
                self@ == with_repeated_prompts(start, all.take(i as int)),
            decreases raw.len() - i,
        {
            proof {
                assert(all.take(i + 1).drop_last() =~= all.take(i as int));
                assert(all.take(i + 1).last() == raw@[i as int]@);
            }
            let ghost before = self.parts@;
            match &raw[i] {
                ChatSetting::RepeatedPrePrompt(prompt, position) => match position {
                    RepeatPosition::AfterLatest => {
                        let part = prompt.clone();
                        self.parts.push(part);
                        proof {
                            assert(part_views(self.parts@) =~= part_views(before).push(part@));
                        }
                    },
                    RepeatPosition::BeforeLatest => {
                        let part = prompt.clone();
                        if self.parts.len() >= 1 {
                            let at = self.parts.len() - 1;
                            self.parts.insert(at, part);
                            proof {
                                assert(part_views(self.parts@) =~= part_views(before).insert(
                                    at as int,
                                    part@,
                                ));
                            }
                        } else {
                            self.parts.insert(0, part);
                            proof {
                                assert(part_views(self.parts@) =~= part_views(before).insert(
                                    0,
                                    part@,
                                ));
                            }
                        }
                    },
                },
                _ => (),
            }
            i += 1;
        }
        proof {
            assert(all.take(raw.len() as int) =~= all);
        }
        match settings.get_tools() {
            Some(tools) => {
                let part = tools.get_tool_data_insert();
                let ghost before = self.parts@;
                self.parts.push(part);
                proof {
                    assert(part_views(self.parts@) =~= part_views(before).push(part@));
                }
            },
            None => (),
        }
    }

    /// The dialogue made of `parts`.
    pub fn new(parts: Vec<ContextPart>) -> (r: WholeContext)
        ensures
            r@ == part_views(parts@),
    {
        WholeContext { parts }
    }

    /// The fragments, to be changed in place.
    pub fn get_parts_mut(&mut self) -> (r: &mut Vec<ContextPart>)
        ensures
            part_views(r@) == old(self)@,
            final(self)@ == part_views(final(r)@),
    {
        &mut self.parts
    }

    /// The fragments.
    pub fn get_parts(&self) -> (r: &Vec<ContextPart>)
        ensures
            part_views(r@) == self@,
    {
        &self.parts
    }

    /// The number of fragments.
    pub fn len(&self) -> (r: usize)
        ensures
            r == self@.len(),
    {
        self.parts.len()
    }

    /// Appends one fragment.
    pub fn add_part(&mut self, part: ContextPart)
        ensures
            final(self)@ == old(self)@.push(part@),
    {
        self.parts.push(part);
        proof {
            assert(part_views(self.parts@) =~= part_views(old(self).parts@).push(part@));
        }
    }

    /// This dialogue followed by `other`.
    pub fn merge_with(self, other: WholeContext) -> (r: WholeContext)
        ensures
            r@ == self@ + other@,
    {
        let mut parts = self.parts;
        let mut rest = other.parts;
        parts.append(&mut rest);
        proof {
            assert(part_views(parts@) =~= part_views(self.parts@) + part_views(other.parts@));
        }
        WholeContext { parts }
    }

    fn select(&self, system: bool) -> (r: WholeContext)
        ensures
            r@ == parts_by_kind(self@, system),
    {
        let mut out: Vec<ContextPart> = Vec::new();
        let mut i: usize = 0;
        while i < self.parts.len()
            invariant
                i <= self.parts.len(),
                part_views(out@) == parts_by_kind(self@.take(i as int), system),
            decreases self.parts.len() - i,
        {
            let ghost before = out@;
            proof {
                assert(self@.take(i + 1).drop_last() =~= self@.take(i as int));
                assert(self@.take(i + 1).last() == self.parts@[i as int]@);
            }
            let is_system = match self.parts[i].get_position() {
                ContextPosition::System => true,
                _ => false,
            };
            if is_system == system {
                let part = self.parts[i].clone();
                out.push(part);
                proof {
                    assert(part_views(out@) =~= part_views(before).push(part@));
                }
            }
            i += 1;
        }
        proof {
            assert(self@.take(self.parts.len() as int) =~= self@);
        }
        WholeContext { parts: out }
    }

    /// The system fragments, in order.
    pub fn get_whole_system_prompt(&self) -> (r: WholeContext)
        ensures
            r@ == parts_by_kind(self@, true),
    {
        self.select(true)
    }

    /// All but the system fragments, in order.
    pub fn get_everything_but_system_prompt(&self) -> (r: WholeContext)
        ensures
            r@ == parts_by_kind(self@, false),
    {
        self.select(false)
    }

    /// One fragment, at position `Total`, that holds the items of all fragments.
    pub fn concatenate_into_single_part(&self) -> (r: ContextPart)
        ensures
            r@ == (ContextPartView { data: all_data(self@), position: ContextPosition::Total }),
    {
        let mut data: Vec<ContextData> = Vec::new();
        let mut i: usize = 0;
        while i < self.parts.len()
            invariant
                i <= self.parts.len(),
                data_views(data@) == all_data(self@.take(i as int)),
            decreases self.parts.len() - i,
        {
            let ghost before = data@;
            let mut items = clone_data(self.parts[i].get_data());
            let ghost added = items@;
            data.append(&mut items);
            proof {
                assert(self@.take(i + 1).drop_last() =~= self@.take(i as int));
                assert(self@.take(i + 1).last() == self.parts@[i as int]@);
                assert(data_views(data@) =~= data_views(before) + data_views(added));
            }
            i += 1;
        }
        proof {
            assert(self@.take(self.parts.len() as int) =~= self@);
        }
        ContextPart { data, position: ContextPosition::Total }
    }
}

} // verus!
