//! Reading what a model says of an item: its description, the tags that it
//! makes for it, and the tags that it gives it.

use crate::ai_interaction::markup::{node_views, parse_markup, parsed_roots, MarkupNode, MarkupView};
use crate::database::description::{Description, DescriptionParsingError};
use crate::database::tags::{
    lemma_shape_find, shape_find, shapes_added, shapes_added_under, tag_shapes, tags_dense,
    NewTag, TagID, TagShape, TaggingParsingError, Tags,
};
use crate::text::{same_text, split, split_text, text_views, trim, trim_text};
use vstd::prelude::*;

verus! {

/// What a field of a new tag says: what stands behind its first colon, or
/// all of it where it has none.
pub open spec fn field_text(text: Seq<char>) -> Seq<char> {
    let pieces = split(text, ':');
    if pieces.len() > 1 {
        pieces[1]
    } else {
        pieces[0]
    }
}

/// What the field that names the parent of a new tag says: what stands
/// behind its colon where it has exactly one, what stands in front of the
/// first otherwise.
pub open spec fn parent_field_text(text: Seq<char>) -> Seq<char> {
    let pieces = split(text, ':');
    if pieces.len() == 2 {
        pieces[1]
    } else {
        pieces[0]
    }
}

/// `shapes` with a tag for each part that is not empty: called as the part
/// says, with a stand-in description, without parent.
pub open spec fn shapes_of_parts(shapes: Seq<TagShape>, parts: Seq<Seq<char>>) -> Seq<TagShape>
    decreases parts.len(),
{
    if parts.len() == 0 {
        shapes
    } else {
        let before = shapes_of_parts(shapes, parts.drop_last());
        if parts.last().len() > 0 {
            shapes_added(
                before,
                TagShape { name: trim(parts.last()), desc: "MISSING_DESCRIPTION"@, parent: None },
            )
        } else {
            before
        }
    }
}

/// What `shapes` become by the line `line` of new tags; `None` where the
/// line has no `|`. A line of three parts gives a name, a description and
/// the name of a parent, which is made where it is missing; a line of two
/// parts gives a name and a description; a line of more parts gives a name
/// in each part.
pub open spec fn new_tag_line(shapes: Seq<TagShape>, line: Seq<char>) -> Option<Seq<TagShape>> {
    let parts = split(line, '|');
    if parts.len() == 3 {
        let parent_name = parent_field_text(trim(parts[2]));
        let found = shape_find(shapes, parent_name);
        Some(
            shapes_added_under(
                shapes,
                TagShape {
                    name: field_text(trim(parts[0])),
                    desc: field_text(trim(parts[1])),
                    parent: if parent_name == "NONE"@ || found >= shapes.len() {
                        None
                    } else {
                        Some(found as usize)
                    },
                },
                Some(parent_name),
            ),
        )
    } else if parts.len() == 2 {
        Some(
            shapes_added(
                shapes,
                TagShape {
                    name: field_text(trim(parts[0])),
                    desc: field_text(trim(parts[1])),
                    parent: None,
                },
            ),
        )
    } else if parts.len() >= 3 {
        Some(shapes_of_parts(shapes, parts))
    } else {
        None
    }
}

/// What `shapes` become by the lines `lines` of new tags, taken in order up
/// to the first that cannot be used, and whether all could be used.
pub open spec fn new_tag_lines(shapes: Seq<TagShape>, lines: Seq<Seq<char>>) -> (
    Seq<TagShape>,
    bool,
)
    decreases lines.len(),
{
    if lines.len() == 0 {
        (shapes, true)
    } else {
        let (before, ok) = new_tag_lines(shapes, lines.drop_last());
        if !ok {
            (before, false)
        } else {
            match new_tag_line(before, lines.last()) {
                Some(after) => (after, true),
                None => (before, false),
            }
        }
    }
}

/// The ids of the tags that the lines `names` name among `shapes`, in order.
pub open spec fn named_shapes(shapes: Seq<TagShape>, names: Seq<Seq<char>>) -> Seq<usize>
    decreases names.len(),
{
    if names.len() == 0 {
        Seq::empty()
    } else {
        let k = shape_find(shapes, trim(names.last()));
        if k < shapes.len() {
            named_shapes(shapes, names.drop_last()).push(k as usize)
        } else {
            named_shapes(shapes, names.drop_last())
        }
    }
}

/// What has been read of a reply so far.
pub struct Described {
    /// What the tags say.
    pub shapes: Seq<TagShape>,
    /// The description.
    pub desc: Seq<char>,
    /// The ids of the tags given to the item.
    pub used: Seq<usize>,
    /// Whether every line of new tags could be used.
    pub ok: bool,
}

/// The text of an element called `name`: that of its first child, where
/// that is text.
pub open spec fn element_text(node: MarkupView, name: Seq<char>) -> Option<Seq<char>> {
    match node {
        MarkupView::Element(found, children) => if trim(found) == name && children.len() > 0 {
            match children[0] {
                MarkupView::Text(text) => Some(text),
                _ => None,
            }
        } else {
            None
        },
        _ => None,
    }
}

/// What has been read after the node `node`: a description element gives
/// the description, an element of new tags makes tags, and a tagging
/// element gives tags to the item.
pub open spec fn described_node(state: Described, node: MarkupView) -> Described {
    match element_text(node, "Description"@) {
        Some(text) => Described { desc: trim(text), ..state },
        None => match element_text(node, "NewTags"@) {
            Some(text) => {
                let (shapes, ok) = new_tag_lines(state.shapes, split(trim(text), '\n'));
                Described { shapes, ok, ..state }
            },
            None => match element_text(node, "Tagging"@) {
                Some(text) => Described {
                    used: state.used + named_shapes(state.shapes, split(text, '\n')),
                    ..state
                },
                None => state,
            },
        },
    }
}

/// What has been read after the nodes `nodes`, taken in order up to the
/// first line of new tags that cannot be used.
pub open spec fn described(state: Described, nodes: Seq<MarkupView>) -> Described
    decreases nodes.len(),
{
    if nodes.len() == 0 {
        state
    } else {
        let before = described(state, nodes.drop_last());
        if before.ok {
            described_node(before, nodes.last())
        } else {
            before
        }
    }
}

fn field_of(text: &str) -> (r: String)
    ensures
        r@ == field_text(text@),
{
    let pieces = split_text(text, ':');
    proof {
        assert(split(text@, ':').len() > 0);
        assert(text_views(pieces@)[0] == pieces@[0]@);
    }
    if pieces.len() > 1 {
        proof {
            assert(text_views(pieces@)[1] == pieces@[1]@);
        }
        pieces[1].clone()
    } else {
        pieces[0].clone()
    }
}

fn parent_field_of(text: &str) -> (r: String)
    ensures
        r@ == parent_field_text(text@),
{
    let pieces = split_text(text, ':');
    proof {
        assert(split(text@, ':').len() > 0);
        assert(text_views(pieces@)[0] == pieces@[0]@);
    }
    if pieces.len() == 2 {
        proof {
            assert(text_views(pieces@)[1] == pieces@[1]@);
        }
        pieces[1].clone()
    } else {
        pieces[0].clone()
    }
}

fn add_parts(tags: &mut Tags, parts: &Vec<String>)
    ensures
        tag_shapes(final(tags)@) == shapes_of_parts(tag_shapes(old(tags)@), text_views(parts@)),
        final(tags)@.len() >= old(tags)@.len(),
        final(tags)@.take(old(tags)@.len() as int) == old(tags)@,
        tags_dense(old(tags)@) ==> tags_dense(final(tags)@),
        old(tags).wf() ==> final(tags).wf(),
{
    let ghost all = text_views(parts@);
    let ghost start = tags@;
    let mut i: usize = 0;
    proof {
        assert(all.take(0).len() == 0);
        assert(tags@.take(start.len() as int) =~= start);
    }
    while i < parts.len()
        invariant
            i <= parts.len(),
            all == text_views(parts@),
            tag_shapes(tags@) == shapes_of_parts(tag_shapes(start), all.take(i as int)),
            tags@.len() >= start.len(),
            tags@.take(start.len() as int) == start,
            tags_dense(start) ==> tags_dense(tags@),
            old(tags).wf() ==> tags.wf(),
            start == old(tags)@,
        decreases parts.len() - i,
    {
        proof {
            assert(all.take(i + 1).drop_last() =~= all.take(i as int));
            assert(all.take(i + 1).last() == parts@[i as int]@);
        }
        if parts[i].as_str().unicode_len() > 0 {
            let ghost before = tags@;
            tags.add_tag(
                NewTag::new(
                    trim_text(parts[i].as_str()),
                    Description::new("MISSING_DESCRIPTION".to_string()),
                    None,
                ),
            );
            proof {
                assert(tags@.take(start.len() as int) =~= before.take(start.len() as int));
            }
        }
        i += 1;
    }
    proof {
        assert(all.take(parts.len() as int) =~= all);
    }
}

/// Makes the tags that the line `line` of new tags asks for. Returns
/// whether the line could be used.
pub fn add_new_tag_line(tags: &mut Tags, line: &str) -> (r: bool)
    ensures
        match new_tag_line(tag_shapes(old(tags)@), line@) {
            Some(shapes) => r && tag_shapes(final(tags)@) == shapes,
            None => !r && final(tags)@ == old(tags)@,
        },
        final(tags)@.len() >= old(tags)@.len(),
        final(tags)@.take(old(tags)@.len() as int) == old(tags)@,
        tags_dense(old(tags)@) ==> tags_dense(final(tags)@),
        old(tags).wf() ==> final(tags).wf(),
{
    let parts = split_text(line, '|');
    proof {
        assert(tags@.take(tags@.len() as int) =~= tags@);
    }
    if parts.len() == 3 {
        proof {
            assert(text_views(parts@)[0] == parts@[0]@);
            assert(text_views(parts@)[1] == parts@[1]@);
            assert(text_views(parts@)[2] == parts@[2]@);
        }
        let name = field_of(trim_text(parts[0].as_str()).as_str());
        let desc = field_of(trim_text(parts[1].as_str()).as_str());
        let parent_name = parent_field_of(trim_text(parts[2].as_str()).as_str());
        proof {
            lemma_shape_find(tags@, parent_name@);
        }
        let parent = if same_text(parent_name.as_str(), "NONE") {
            None
        } else {
            tags.get_tagid_of(parent_name.clone())
        };
        tags.add_tag_with_parent_name(
            NewTag::new(name, Description::new(desc), parent),
            Some(parent_name),
        );
        true
    } else if parts.len() == 2 {
        proof {
            assert(text_views(parts@)[0] == parts@[0]@);
            assert(text_views(parts@)[1] == parts@[1]@);
        }
        let name = field_of(trim_text(parts[0].as_str()).as_str());
        let desc = field_of(trim_text(parts[1].as_str()).as_str());
        tags.add_tag(NewTag::new(name, Description::new(desc), None));
        proof {
            assert(tags@.take(old(tags)@.len() as int) =~= old(tags)@);
        }
        true
    } else if parts.len() >= 3 {
        add_parts(tags, &parts);
        true
    } else {
        false
    }
}

/// Makes the tags that the lines `lines` of new tags ask for, up to the
/// first that cannot be used. Returns whether all could be used.
pub fn add_new_tag_lines(tags: &mut Tags, lines: &Vec<String>) -> (r: bool)
    ensures
        (tag_shapes(final(tags)@), r) == new_tag_lines(
            tag_shapes(old(tags)@),
            text_views(lines@),
        ),
        final(tags)@.len() >= old(tags)@.len(),
        final(tags)@.take(old(tags)@.len() as int) == old(tags)@,
        tags_dense(old(tags)@) ==> tags_dense(final(tags)@),
        old(tags).wf() ==> final(tags).wf(),
{
    let ghost all = text_views(lines@);
    let ghost start = tags@;
    let mut i: usize = 0;
    proof {
        assert(all.take(0).len() == 0);
        assert(tags@.take(start.len() as int) =~= start);
    }
    while i < lines.len()
        invariant
            i <= lines.len(),
            all == text_views(lines@),
            start == old(tags)@,
            (tag_shapes(tags@), true) == new_tag_lines(tag_shapes(start), all.take(i as int)),
            tags@.len() >= start.len(),
            tags@.take(start.len() as int) == start,
            tags_dense(start) ==> tags_dense(tags@),
            old(tags).wf() ==> tags.wf(),
        decreases lines.len() - i,
    {
        proof {
            assert(all.take(i + 1).drop_last() =~= all.take(i as int));
            assert(all.take(i + 1).last() == lines@[i as int]@);
        }
        let ghost before = tags@;
        let used = add_new_tag_line(tags, lines[i].as_str());
        proof {
            assert(tags@.take(start.len() as int) =~= before.take(start.len() as int));
        }
        if !used {
            proof {
                lemma_lines_stop(tag_shapes(start), all, i + 1);
            }
            return false;
        }
        i += 1;
    }
    proof {
        assert(all.take(lines.len() as int) =~= all);
    }
    true
}

proof fn lemma_lines_stop(shapes: Seq<TagShape>, lines: Seq<Seq<char>>, k: int)
    requires
        0 <= k <= lines.len(),
        !new_tag_lines(shapes, lines.take(k)).1,
    ensures
        new_tag_lines(shapes, lines) == new_tag_lines(shapes, lines.take(k)),
    decreases lines.len() - k,
{
    if k == lines.len() {
        assert(lines.take(k) =~= lines);
    } else {
        assert(lines.take(k + 1).drop_last() =~= lines.take(k));
        lemma_lines_stop(shapes, lines, k + 1);
    }
}

proof fn lemma_described_stop(state: Described, nodes: Seq<MarkupView>, k: int)
    requires
        0 <= k <= nodes.len(),
        !described(state, nodes.take(k)).ok,
    ensures
        described(state, nodes) == described(state, nodes.take(k)),
    decreases nodes.len() - k,
{
    if k == nodes.len() {
        assert(nodes.take(k) =~= nodes);
    } else {
        assert(nodes.take(k + 1).drop_last() =~= nodes.take(k));
        lemma_described_stop(state, nodes, k + 1);
    }
}

fn text_of_element<'a>(node: &'a MarkupNode, name: &str) -> (r: Option<&'a String>)
    ensures
        match r {
            Some(text) => element_text(node@, name@) == Some(text@),
            None => element_text(node@, name@) is None,
        },
{
    match node {
        MarkupNode::Element(found, children) => {
            proof {
                let ghost kids = node@->Element_1;
                assert(kids.len() == children@.len());
                if children@.len() > 0 {
                    assert(kids[0] == children@[0]@);
                }
            }
            let found = trim_text(found.as_str());
            if same_text(found.as_str(), name) && children.len() > 0 {
                match &children[0] {
                    MarkupNode::Text(text) => Some(text),
                    _ => None,
                }
            } else {
                None
            }
        },
        _ => None,
    }
}

fn ids_of_named(tags: &Tags, names: &Vec<String>) -> (r: Vec<TagID>)
    ensures
        r@ == named_shapes(tag_shapes(tags@), text_views(names@)),
{
    let mut ids: Vec<TagID> = Vec::new();
    let ghost all = text_views(names@);
    let mut i: usize = 0;
    proof {
        assert(all.take(0).len() == 0);
    }
    while i < names.len()
        invariant
            i <= names.len(),
            all == text_views(names@),
            ids@ == named_shapes(tag_shapes(tags@), all.take(i as int)),
        decreases names.len() - i,
    {
        proof {
            assert(all.take(i + 1).drop_last() =~= all.take(i as int));
            assert(all.take(i + 1).last() == names@[i as int]@);
        }
        let name = trim_text(names[i].as_str());
        proof {
            lemma_shape_find(tags@, name@);
        }
        match tags.get_tagid_of(name) {
            Some(id) => {
                ids.push(id);
            },
            None => {},
        }
        i += 1;
    }
    proof {
        assert(all.take(names.len() as int) =~= all);
    }
    ids
}

/// Reads the nodes of a reply that describes an item: makes the tags that
/// it asks for, and hands out the description and the ids of the tags that
/// it gives to the item. An error where a line of new tags cannot be used;
/// the tags made up to that line stay.
pub fn describe_from_nodes(nodes: &Vec<MarkupNode>, tags: &mut Tags) -> (r: Result<
    (Description, Vec<TagID>),
    DescriptionParsingError,
>)
    ensures
        ({
            let read = described(
                Described {
                    shapes: tag_shapes(old(tags)@),
                    desc: Seq::empty(),
                    used: Seq::empty(),
                    ok: true,
                },
                node_views(nodes@),
            );
            &&& tag_shapes(final(tags)@) == read.shapes
            &&& match r {
                Ok((desc, used)) => read.ok && desc@ == read.desc && used@ == read.used,
                Err(error) => !read.ok && error == DescriptionParsingError::BadNumberOfNewTagArgs,
            }
        }),
        final(tags)@.len() >= old(tags)@.len(),
        final(tags)@.take(old(tags)@.len() as int) == old(tags)@,
        tags_dense(old(tags)@) ==> tags_dense(final(tags)@),
        old(tags).wf() ==> final(tags).wf(),
{
    let ghost all = node_views(nodes@);
    let ghost start = tags@;
    let ghost first = Described {
        shapes: tag_shapes(start),
        desc: Seq::empty(),
        used: Seq::empty(),
        ok: true,
    };
    let mut desc = String::new();
    let mut used: Vec<TagID> = Vec::new();
    let mut i: usize = 0;
    proof {
        assert(all.take(0).len() == 0);
        assert(tags@.take(start.len() as int) =~= start);
    }
    while i < nodes.len()
        invariant
            i <= nodes.len(),
            all == node_views(nodes@),
            start == old(tags)@,
            first == (Described {
                shapes: tag_shapes(start),
                desc: Seq::empty(),
                used: Seq::empty(),
                ok: true,
            }),
            described(first, all.take(i as int)) == (Described {
                shapes: tag_shapes(tags@),
                desc: desc@,
                used: used@,
                ok: true,
            }),
            tags@.len() >= start.len(),
            tags@.take(start.len() as int) == start,
            tags_dense(start) ==> tags_dense(tags@),
            old(tags).wf() ==> tags.wf(),
        decreases nodes.len() - i,
    {
        proof {
            assert(all.take(i + 1).drop_last() =~= all.take(i as int));
            assert(all.take(i + 1).last() == nodes@[i as int]@);
        }
        let ghost before = tags@;
        let ghost had = used@;
        match text_of_element(&nodes[i], "Description") {
            Some(text) => {
                desc = trim_text(text.as_str());
            },
            None => match text_of_element(&nodes[i], "NewTags") {
                Some(text) => {
                    let lines = split_text(trim_text(text.as_str()).as_str(), '\n');
                    let ok = add_new_tag_lines(tags, &lines);
                    proof {
                        assert(tags@.take(start.len() as int) =~= before.take(start.len() as int));
                    }
                    if !ok {
                        proof {
                            lemma_described_stop(first, all, i + 1);
                        }
                        return Err(DescriptionParsingError::BadNumberOfNewTagArgs);
                    }
                },
                None => match text_of_element(&nodes[i], "Tagging") {
                    Some(text) => {
                        let names = split_text(text.as_str(), '\n');
                        let mut ids = ids_of_named(tags, &names);
                        used.append(&mut ids);
                    },
                    None => {},
                },
            },
        }
        i += 1;
    }
    proof {
        assert(all.take(nodes.len() as int) =~= all);
    }
    Ok((Description::new(desc), used))
}

/// Reads the reply `text` of a model that describes an item. An error where
/// the reply cannot be parsed, or a line of new tags cannot be used.
pub fn parse_desc_response(text: String, tags: &mut Tags) -> (r: Result<
    (Description, Vec<TagID>),
    DescriptionParsingError,
>)
    ensures
        match parsed_roots(text@) {
            Some(nodes) => {
                let read = described(
                    Described {
                        shapes: tag_shapes(old(tags)@),
                        desc: Seq::empty(),
                        used: Seq::empty(),
                        ok: true,
                    },
                    nodes,
                );
                &&& tag_shapes(final(tags)@) == read.shapes
                &&& match r {
                    Ok((desc, used)) => read.ok && desc@ == read.desc && used@ == read.used,
                    Err(error) => !read.ok && error
                        == DescriptionParsingError::BadNumberOfNewTagArgs,
                }
            },
            None => final(tags)@ == old(tags)@ && r == Err::<
                (Description, Vec<TagID>),
                DescriptionParsingError,
            >(DescriptionParsingError::UnparseableDOM),
        },
        final(tags)@.len() >= old(tags)@.len(),
        final(tags)@.take(old(tags)@.len() as int) == old(tags)@,
        tags_dense(old(tags)@) ==> tags_dense(final(tags)@),
        old(tags).wf() ==> final(tags).wf(),
{
    proof {
        assert(tags@.take(tags@.len() as int) =~= tags@);
    }
    match parse_markup(text.as_str()) {
        Some(nodes) => describe_from_nodes(&nodes, tags),
        None => Err(DescriptionParsingError::UnparseableDOM),
    }
}

/// The ids of the tags that the tagging elements among `nodes` give to an
/// item, in order.
pub open spec fn tagged(shapes: Seq<TagShape>, nodes: Seq<MarkupView>) -> Seq<usize>
    decreases nodes.len(),
{
    if nodes.len() == 0 {
        Seq::empty()
    } else {
        tagged(shapes, nodes.drop_last()) + match element_text(nodes.last(), "Tagging"@) {
            Some(text) => named_shapes(shapes, split(text, '\n')),
            None => Seq::empty(),
        }
    }
}

/// The ids of the tags that the tagging elements among `nodes` give to an item.
pub fn tags_of_nodes(nodes: &Vec<MarkupNode>, tags: &Tags) -> (r: Vec<TagID>)
    ensures
        r@ == tagged(tag_shapes(tags@), node_views(nodes@)),
{
    let mut used: Vec<TagID> = Vec::new();
    let ghost all = node_views(nodes@);
    let mut i: usize = 0;
    proof {
        assert(all.take(0).len() == 0);
    }
    while i < nodes.len()
        invariant
            i <= nodes.len(),
            all == node_views(nodes@),
            used@ == tagged(tag_shapes(tags@), all.take(i as int)),
        decreases nodes.len() - i,
    {
        proof {
            assert(all.take(i + 1).drop_last() =~= all.take(i as int));
            assert(all.take(i + 1).last() == nodes@[i as int]@);
        }
        let ghost before = used@;
        match text_of_element(&nodes[i], "Tagging") {
            Some(text) => {
                let names = split_text(text.as_str(), '\n');
                let mut ids = ids_of_named(tags, &names);
                used.append(&mut ids);
            },
            None => {
                proof {
                    assert(before + Seq::<usize>::empty() =~= before);
                }
            },
        }
        i += 1;
    }
    proof {
        assert(all.take(nodes.len() as int) =~= all);
    }
    used
}

/// The ids of the tags that the reply `text` of a model gives to an item:
/// those named on the lines of its tagging elements. An error where the
/// reply cannot be parsed. The tags stay as they are.
pub fn parse_tagging_response(text: String, tags: &mut Tags) -> (r: Result<
    Vec<TagID>,
    TaggingParsingError,
>)
    ensures
        final(tags)@ == old(tags)@,
        match r {
            Ok(ids) => parsed_roots(text@) matches Some(nodes) && ids@ == tagged(
                tag_shapes(old(tags)@),
                nodes,
            ),
            Err(error) => parsed_roots(text@) is None && error
                == TaggingParsingError::UnparseableDOM,
        },
{
    match parse_markup(text.as_str()) {
        Some(nodes) => Ok(tags_of_nodes(&nodes, tags)),
        None => Err(TaggingParsingError::UnparseableDOM),
    }
}

} // verus!
