//! Tags: the labels that items are filed under. Tags form a forest.

use crate::database::description::Description;
use crate::database::forest::{is_forest, lemma_forest_after_push, parents_forest};
use crate::database::ids::{shift_id, shift_option_if, shifted, shifted_option_if, ItemKind};
use crate::database::timestamp::Timestamp;
use crate::text::same_text;
use vstd::prelude::*;

verus! {

pub type TagID = usize;

/// A tag.
#[derive(PartialEq, Eq, Debug)]
pub struct Tag {
    pub(crate) number: TagID,
    pub name: String,
    pub desc: Description,
    pub created_at: Timestamp,
    pub parent: Option<TagID>,
}

/// The mathematical value of a [`Tag`].
pub struct TagView {
    pub id: usize,
    pub name: Seq<char>,
    pub desc: Seq<char>,
    pub created_at: Timestamp,
    pub parent: Option<usize>,
}

impl View for Tag {
    type V = TagView;

    closed spec fn view(&self) -> TagView {
        TagView {
            id: self.number,
            name: self.name@,
            desc: self.desc@,
            created_at: self.created_at,
            parent: self.parent,
        }
    }
}

impl Clone for Tag {
    fn clone(&self) -> (r: Self)
        ensures
            r@ == self@,
    {
        Tag {
            number: self.number,
            name: self.name.clone(),
            desc: self.desc.clone(),
            created_at: self.created_at,
            parent: self.parent,
        }
    }
}

impl Tag {
    /// The name of the tag.
    pub fn get_name(&self) -> (r: &String)
        ensures
            r@ == self@.name,
    {
        &self.name
    }

    /// The description of the tag.
    pub fn get_desc(&self) -> (r: &Description)
        ensures
            r@ == self@.desc,
    {
        &self.desc
    }

    /// The tag above this one, if any.
    pub fn get_parent(&self) -> (r: Option<TagID>)
        ensures
            r == self@.parent,
    {
        self.parent
    }

    /// The time that the tag was created at.
    pub fn get_created_at(&self) -> (r: Timestamp)
        ensures
            r == self@.created_at,
    {
        self.created_at
    }

    /// The id of the tag.
    pub fn get_id(&self) -> (r: TagID)
        ensures
            r == self@.id,
    {
        self.number
    }

    /// Gives the tag another id.
    pub fn set_id(&mut self, id: TagID)
        ensures
            final(self)@ == (TagView { id, ..old(self)@ }),
    {
        self.number = id;
    }

    /// A tag created at the time of the call.
    pub fn new(number: TagID, name: String, desc: Description, parent: Option<TagID>) -> (r: Tag)
        ensures
            r@ == (TagView {
                id: number,
                name: name@,
                desc: desc@,
                created_at: r@.created_at,
                parent,
            }),
    {
        Tag { number, name, desc, parent, created_at: Timestamp::now() }
    }
}

/// A tag after an insertion of an item of `kind` at `at`: its parent is
/// brought up to date where a tag was inserted.
pub open spec fn tag_shifted(tag: TagView, kind: ItemKind, at: usize) -> TagView {
    TagView { parent: shifted_option_if(kind == ItemKind::Tag, tag.parent, at), ..tag }
}

impl Tag {
    /// Brings the references of the tag up to date after an insertion of an
    /// item of `kind` at `at`.
    pub fn shift_references(&mut self, kind: ItemKind, at: usize)
        ensures
            final(self)@ == tag_shifted(old(self)@, kind, at),
    {
        shift_option_if(kind == ItemKind::Tag, &mut self.parent, at);
    }
}

/// A tag that is yet to get its id.
#[derive(PartialEq, Eq, Debug)]
pub struct NewTag {
    name: String,
    desc: Description,
    parent: Option<TagID>,
}

/// The mathematical value of a [`NewTag`].
pub struct NewTagView {
    pub name: Seq<char>,
    pub desc: Seq<char>,
    pub parent: Option<usize>,
}

impl View for NewTag {
    type V = NewTagView;

    closed spec fn view(&self) -> NewTagView {
        NewTagView { name: self.name@, desc: self.desc@, parent: self.parent }
    }
}

impl NewTagView {
    /// What the tag says.
    pub open spec fn shape(self) -> TagShape {
        TagShape { name: self.name, desc: self.desc, parent: self.parent }
    }
}

impl NewTag {
    /// A tag to be added under `parent`.
    pub fn new(name: String, desc: Description, parent: Option<TagID>) -> (r: NewTag)
        ensures
            r@ == (NewTagView { name: name@, desc: desc@, parent }),
    {
        NewTag { name, desc, parent }
    }
}

/// The values of a sequence of tags.
pub open spec fn tag_views(tags: Seq<Tag>) -> Seq<TagView> {
    tags.map_values(|t: Tag| t@)
}

/// Whether every tag of `tags` has its position as its id.
pub open spec fn tags_dense(tags: Seq<TagView>) -> bool {
    forall|i: int| 0 <= i < tags.len() ==> (#[trigger] tags[i]).id == i
}

/// Whether the parent of every tag of `tags`, where it has one, is a tag of `tags`.
pub open spec fn parents_exist(tags: Seq<TagView>) -> bool {
    forall|i: int|
        0 <= i < tags.len() ==> match (#[trigger] tags[i]).parent {
            Some(p) => p < tags.len(),
            None => true,
        }
}

/// The parents of `tags`, in order.
pub open spec fn tag_parents(tags: Seq<TagView>) -> Seq<Option<usize>> {
    tags.map_values(|t: TagView| t.parent)
}

/// Whether `tags` form a forest: the parent of every tag is a tag, and no
/// tag is its own ancestor.
pub open spec fn tags_forest(tags: Seq<TagView>) -> bool {
    parents_forest(tag_parents(tags))
}

/// The index of the first tag called `name`, or the number of tags where
/// there is none.
pub open spec fn first_named(tags: Seq<TagView>, name: Seq<char>) -> int
    decreases tags.len(),
{
    if tags.len() == 0 || tags[0].name == name {
        0
    } else {
        1 + first_named(tags.drop_first(), name)
    }
}

proof fn lemma_first_named(tags: Seq<TagView>, name: Seq<char>, k: int)
    requires
        0 <= k <= tags.len(),
        forall|i: int| 0 <= i < k ==> tags[i].name != name,
        k < tags.len() ==> tags[k].name == name,
    ensures
        first_named(tags, name) == k,
    decreases k,
{
    if k > 0 {
        lemma_first_named(tags.drop_first(), name, k - 1);
    }
}

/// What a tag says: all of it but its id and the time it was created at.
pub struct TagShape {
    pub name: Seq<char>,
    pub desc: Seq<char>,
    pub parent: Option<usize>,
}

/// What the tags `tags` say, in order.
pub open spec fn tag_shapes(tags: Seq<TagView>) -> Seq<TagShape> {
    tags.map_values(|t: TagView| TagShape { name: t.name, desc: t.desc, parent: t.parent })
}

/// The index of the first of `shapes` called `name`, or their number.
pub open spec fn shape_find(shapes: Seq<TagShape>, name: Seq<char>) -> int
    decreases shapes.len(),
{
    if shapes.len() == 0 || shapes[0].name == name {
        0
    } else {
        1 + shape_find(shapes.drop_first(), name)
    }
}

/// A tag is found by its name among tags where it is found among what they say.
pub proof fn lemma_shape_find(tags: Seq<TagView>, name: Seq<char>)
    ensures
        shape_find(tag_shapes(tags), name) == first_named(tags, name),
    decreases tags.len(),
{
    if tags.len() == 0 || tags[0].name == name {
    } else {
        lemma_shape_find(tags.drop_first(), name);
        assert(tag_shapes(tags).drop_first() =~= tag_shapes(tags.drop_first()));
    }
}

/// What is added to `shapes` when `new_tag` is added: the tag, with its
/// parent where that exists.
pub open spec fn shapes_added(shapes: Seq<TagShape>, new_tag: TagShape) -> Seq<TagShape> {
    shapes.push(TagShape { parent: checked_parent(new_tag.parent, shapes.len()), ..new_tag })
}

/// What `shapes` become when `new_tag` is added under the tag called
/// `parent_name`: where no tag has that name, one comes first, with a
/// stand-in description, and is the parent.
pub open spec fn shapes_added_under(
    shapes: Seq<TagShape>,
    new_tag: TagShape,
    parent_name: Option<Seq<char>>,
) -> Seq<TagShape> {
    match parent_name {
        Some(name) => if shape_find(shapes, name) >= shapes.len() {
            shapes.push(TagShape { name, desc: "Missing description"@, parent: None }).push(
                TagShape { parent: Some(shapes.len() as usize), ..new_tag },
            )
        } else {
            shapes_added(shapes, new_tag)
        },
        None => shapes_added(shapes, new_tag),
    }
}

/// The parent that a new tag gets among `count` tags: the one it asks for
/// where that tag exists, none otherwise.
pub open spec fn checked_parent(parent: Option<usize>, count: nat) -> Option<usize> {
    match parent {
        Some(p) => if p < count {
            Some(p)
        } else {
            None
        },
        None => None,
    }
}

/// `tags` with `tag` inserted at the position that is its id, and the id
/// of each one behind it raised by one.
pub open spec fn tags_inserted(tags: Seq<TagView>, tag: TagView) -> Seq<TagView> {
    Seq::new(
        tags.len() + 1,
        |i: int|
            if i < tag.id {
                tags[i]
            } else if i == tag.id {
                tag
            } else {
                (TagView { id: shifted(tags[i - 1].id, 0), ..tags[i - 1] })
            },
    )
}

/// All tags, each at the position that is its id.
#[derive(PartialEq, Eq, Debug)]
pub struct Tags {
    all_tags: Vec<Tag>,
}

impl View for Tags {
    type V = Seq<TagView>;

    closed spec fn view(&self) -> Seq<TagView> {
        tag_views(self.all_tags@)
    }
}

impl Clone for Tags {
    fn clone(&self) -> (r: Self)
        ensures
            r@ == self@,
    {
        let all_tags = self.all_tags.clone();
        proof {
            assert(tag_views(all_tags@) =~= tag_views(self.all_tags@));
        }
        Tags { all_tags }
    }
}

impl Tags {
    /// Whether ids are positions, every parent exists, and the tags form a
    /// forest.
    pub open spec fn wf(&self) -> bool {
        tags_dense(self@) && parents_exist(self@) && tags_forest(self@)
    }

    /// The parents of the tags, in order.
    pub fn parents(&self) -> (r: Vec<Option<TagID>>)
        ensures
            r@ == tag_parents(self@),
    {
        let mut r: Vec<Option<TagID>> = Vec::new();
        let mut i: usize = 0;
        while i < self.all_tags.len()
            invariant
                i <= self.all_tags.len(),
                r.len() == i,
                forall|j: int| 0 <= j < i ==> #[trigger] r@[j] == self@[j].parent,
            decreases self.all_tags.len() - i,
        {
            r.push(self.all_tags[i].parent);
            i += 1;
        }
        proof {
            assert(r@ =~= tag_parents(self@));
        }
        r
    }

    /// Whether the tags form a forest.
    pub fn is_forest(&self) -> (r: bool)
        ensures
            r == tags_forest(self@),
    {
        is_forest(&self.parents())
    }

    /// Whether the tags would form a forest with `tag` in the place of the
    /// tag that has its id.
    pub fn is_forest_with(&self, tag: &Tag) -> (r: bool)
        requires
            tag@.id < self@.len(),
        ensures
            r == tags_forest(self@.update(tag@.id as int, tag@)),
    {
        let mut parents = self.parents();
        parents[tag.number] = tag.parent;
        proof {
            assert(parents@ =~= tag_parents(self@.update(tag@.id as int, tag@)));
        }
        is_forest(&parents)
    }

    /// Whether ids are positions, every parent exists, and the tags form a
    /// forest.
    pub fn is_well_formed(&self) -> (r: bool)
        ensures
            r == self.wf(),
    {
        if !self.is_forest() {
            return false;
        }
        let mut i: usize = 0;
        while i < self.all_tags.len()
            invariant
                i <= self.all_tags.len(),
                forall|j: int| 0 <= j < i ==> (#[trigger] self@[j]).id == j,
                forall|j: int|
                    0 <= j < i ==> match (#[trigger] self@[j]).parent {
                        Some(p) => p < self@.len(),
                        None => true,
                    },
            decreases self.all_tags.len() - i,
        {
            let parent_ok = match self.all_tags[i].parent {
                Some(p) => p < self.all_tags.len(),
                None => true,
            };
            if self.all_tags[i].number != i || !parent_ok {
                proof {
                    assert(self@[i as int].id != i || !(match self@[i as int].parent {
                        Some(p) => p < self@.len(),
                        None => true,
                    }));
                }
                return false;
            }
            i += 1;
        }
        true
    }

    /// The tags.
    pub fn get_tags(&self) -> (r: &Vec<Tag>)
        ensures
            tag_views(r@) == self@,
    {
        &self.all_tags
    }

    /// The tags, to be changed in place.
    pub fn get_tags_mut(&mut self) -> (r: &mut Vec<Tag>)
        ensures
            tag_views(r@) == old(self)@,
            final(self)@ == tag_views(final(r)@),
    {
        &mut self.all_tags
    }

    /// Puts `tag` in the place of the tag that has its id.
    pub fn update_tag(&mut self, tag: Tag)
        requires
            tag@.id < old(self)@.len(),
        ensures
            final(self)@ == old(self)@.update(tag@.id as int, tag@),
    {
        let num = tag.number;
        let ghost before = self.all_tags@;
        self.all_tags[num] = tag;
        proof {
            assert(tag_views(self.all_tags@) =~= tag_views(before).update(num as int, tag@));
        }
    }

    /// No tags.
    pub fn new() -> (r: Tags)
        ensures
            r@ == Seq::<TagView>::empty(),
            r.wf(),
    {
        let all_tags: Vec<Tag> = Vec::new();
        proof {
            assert(tag_views(all_tags@) =~= Seq::<TagView>::empty());
        }
        Tags { all_tags }
    }

    /// Inserts `tag` at the position that is its id; the id of each one
    /// behind it goes up by one.
    pub fn insert_tag(&mut self, tag: Tag)
        requires
            tag@.id <= old(self)@.len(),
        ensures
            final(self)@ == tags_inserted(old(self)@, tag@),
    {
        let id = tag.number;
        let ghost before = self@;
        let mut i: usize = id;
        while i < self.all_tags.len()
            invariant
                id <= i <= self.all_tags.len(),
                self@.len() == before.len(),
                forall|j: int|
                    0 <= j < before.len() ==> #[trigger] self@[j] == if id <= j < i {
                        (TagView { id: shifted(before[j].id, 0), ..before[j] })
                    } else {
                        before[j]
                    },
            decreases self.all_tags.len() - i,
        {
            let ghost prev = self.all_tags@;
            let old_id = self.all_tags[i].number;
            let new_id = shift_id(old_id, 0);
            self.all_tags[i].number = new_id;
            proof {
                assert forall|j: int| 0 <= j < before.len() implies #[trigger] self@[j] == if id
                    <= j < i + 1 {
                    (TagView { id: shifted(before[j].id, 0), ..before[j] })
                } else {
                    before[j]
                } by {
                    assert(tag_views(prev)[j] == prev[j]@);
                    if j != i {
                        assert(self.all_tags@[j] == prev[j]);
                    } else {
                        assert(self.all_tags@[j]@ == (TagView { id: new_id, ..prev[j]@ }));
                    }
                }
            }
            i += 1;
        }
        let ghost shifted_all = self@;
        self.all_tags.insert(id, tag);
        proof {
            assert forall|j: int| 0 <= j < self@.len() implies self@[j] == tags_inserted(
                before,
                tag@,
            )[j] by {
                if j < id {
                    assert(self@[j] == shifted_all[j]);
                } else if j > id {
                    assert(self@[j] == shifted_all[j - 1]);
                }
            }
            assert(self@ =~= tags_inserted(before, tag@));
        }
    }

    /// Adds `tag` at the end, under the next id, which is returned.
    pub fn add_tag_raw(&mut self, tag: Tag) -> (id: TagID)
        ensures
            id == old(self)@.len(),
            final(self)@ == old(self)@.push((TagView { id, ..tag@ })),
    {
        let mut tag = tag;
        let id = self.all_tags.len();
        tag.number = id;
        let ghost before = self.all_tags@;
        self.all_tags.push(tag);
        proof {
            assert(tag_views(self.all_tags@) =~= tag_views(before).push(tag@));
        }
        id
    }

    /// Adds a tag created at the time of the call, under the next id, which
    /// is returned. A parent that does not exist is dropped.
    pub fn add_tag(&mut self, new_tag: NewTag) -> (id: TagID)
        ensures
            id == old(self)@.len(),
            final(self)@ == old(self)@.push(
                (TagView {
                    id,
                    name: new_tag@.name,
                    desc: new_tag@.desc,
                    created_at: final(self)@.last().created_at,
                    parent: checked_parent(new_tag@.parent, old(self)@.len()),
                }),
            ),
            tag_shapes(final(self)@) == shapes_added(tag_shapes(old(self)@), new_tag@.shape()),
            tags_dense(old(self)@) ==> tags_dense(final(self)@),
            old(self).wf() ==> final(self).wf(),
    {
        let parent = match new_tag.parent {
            Some(tagid) => if tagid < self.all_tags.len() {
                Some(tagid)
            } else {
                None
            },
            None => None,
        };
        let tag_id = self.all_tags.len();
        let tag = Tag {
            number: tag_id,
            name: new_tag.name,
            desc: new_tag.desc,
            parent,
            created_at: Timestamp::now(),
        };
        let ghost before = self.all_tags@;
        self.all_tags.push(tag);
        proof {
            assert(tag_views(self.all_tags@) =~= tag_views(before).push(tag@));
            assert(tag_shapes(self@) =~= shapes_added(tag_shapes(old(self)@), new_tag@.shape()));
            assert(tag_parents(self@) =~= tag_parents(old(self)@).push(tag@.parent));
            if tags_forest(old(self)@) {
                lemma_forest_after_push(tag_parents(old(self)@), tag@.parent);
            }
        }
        tag_id
    }

    /// Brings the references of every tag up to date after an insertion of
    /// an item of `kind` at `at`.
    pub fn shift_references(&mut self, kind: ItemKind, at: usize)
        ensures
            final(self)@ == old(self)@.map_values(|t: TagView| tag_shifted(t, kind, at)),
    {
        let ghost before = self@;
        let mut i: usize = 0;
        while i < self.all_tags.len()
            invariant
                i <= self.all_tags.len(),
                self@.len() == before.len(),
                forall|j: int|
                    0 <= j < before.len() ==> #[trigger] self@[j] == if j < i {
                        tag_shifted(before[j], kind, at)
                    } else {
                        before[j]
                    },
            decreases self.all_tags.len() - i,
        {
            let ghost prev = self.all_tags@;
            self.all_tags[i].shift_references(kind, at);
            proof {
                assert forall|j: int| 0 <= j < before.len() implies #[trigger] self@[j] == if j
                    < i + 1 {
                    tag_shifted(before[j], kind, at)
                } else {
                    before[j]
                } by {
                    assert(tag_views(prev)[j] == prev[j]@);
                    if j != i {
                        assert(self.all_tags@[j] == prev[j]);
                    }
                }
            }
            i += 1;
        }
        proof {
            assert(self@ =~= before.map_values(|t: TagView| tag_shifted(t, kind, at)));
        }
    }

    /// The id of the first tag called `tag_name`, if any.
    pub fn get_tagid_of(&self, tag_name: String) -> (r: Option<TagID>)
        ensures
            r == if first_named(self@, tag_name@) < self@.len() {
                Some(first_named(self@, tag_name@) as usize)
            } else {
                None
            },
    {
        let mut k: usize = 0;
        while k < self.all_tags.len() && !same_text(
            self.all_tags[k].name.as_str(),
            tag_name.as_str(),
        )
            invariant
                k <= self.all_tags.len(),
                forall|i: int| 0 <= i < k ==> self@[i].name != tag_name@,
            decreases self.all_tags.len() - k,
        {
            k += 1;
        }
        proof {
            lemma_first_named(self@, tag_name@, k as int);
        }
        if k < self.all_tags.len() {
            Some(k)
        } else {
            None
        }
    }

    /// The tag with the id `id`, if any.
    pub fn get_tag_from_tagid(&self, id: TagID) -> (r: Option<&Tag>)
        ensures
            match r {
                Some(tag) => id < self@.len() && tag@ == self@[id as int],
                None => id >= self@.len(),
            },
    {
        if id < self.all_tags.len() {
            Some(&self.all_tags[id])
        } else {
            None
        }
    }

    /// Adds a tag under the tag called `parent_name`. Where no tag has that
    /// name, one is added first, with a stand-in description, and made the
    /// parent. Returns the id of the new tag.
    pub fn add_tag_with_parent_name(&mut self, new_tag: NewTag, parent_name: Option<String>) -> (id:
        TagID)
        ensures
            id == final(self)@.len() - 1,
            final(self)@.len() > old(self)@.len(),
            final(self)@.take(old(self)@.len() as int) == old(self)@,
            forall|i: int|
                old(self)@.len() <= i < final(self)@.len() ==> (#[trigger] final(self)@[i]).id == i,
            tag_shapes(final(self)@) == shapes_added_under(
                tag_shapes(old(self)@),
                new_tag@.shape(),
                match parent_name {
                    Some(name) => Some(name@),
                    None => None,
                },
            ),
            tags_dense(old(self)@) ==> tags_dense(final(self)@),
            old(self).wf() ==> final(self).wf(),
    {
        let mut new_tag = new_tag;
        let ghost start = self@;
        proof {
            if parent_name is Some {
                lemma_shape_find(self@, parent_name->0@);
            }
        }
        match parent_name {
            Some(parent_tag) => match self.get_tagid_of(parent_tag.clone()) {
                Some(_) => (),
                None => {
                    let tagid = self.all_tags.len();
                    new_tag.parent = Some(tagid);
                    self.add_tag(
                        NewTag {
                            name: parent_tag,
                            desc: Description::new("Missing description".to_string()),
                            parent: None,
                        },
                    );
                },
            },
            None => (),
        }
        let id = self.add_tag(new_tag);
        proof {
            assert(self@.take(start.len() as int) =~= start);
        }
        id
    }
}

/// What can be wrong with a reply that tags an item.
#[derive(Clone, Copy, PartialEq, Eq, Structural, Debug)]
pub enum TaggingParsingError {
    BadlyPlacedText,
    UnparseableDOM,
    IsCommented,
    BadNumberOfNewTagArgs,
    UnknownTag,
}

} // verus!
