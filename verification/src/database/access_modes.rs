//! Access modes: named sets of tags that scope what a client may see.

use crate::database::ids::{
    clone_ids, shift_id, shift_ids_if, shifted, shifted_ids_if, ItemKind,
};
use crate::database::tags::TagID;
use crate::database::timestamp::Timestamp;
use std::collections::HashSet;
use vstd::prelude::*;

verus! {

broadcast use vstd::std_specs::hash::group_hash_axioms;

pub type AccessModeID = usize;

/// An access mode.
#[derive(PartialEq, Eq, Debug)]
pub struct AccessMode {
    pub(crate) id: AccessModeID,
    pub tags: HashSet<TagID>,
    pub added_on: Timestamp,
    pub(crate) name: String,
}

/// The mathematical value of an [`AccessMode`].
pub struct AccessModeView {
    pub id: usize,
    pub tags: Set<usize>,
    pub added_on: Timestamp,
    pub name: Seq<char>,
}

impl View for AccessMode {
    type V = AccessModeView;

    closed spec fn view(&self) -> AccessModeView {
        AccessModeView { id: self.id, tags: self.tags@, added_on: self.added_on, name: self.name@ }
    }
}

impl Clone for AccessMode {
    fn clone(&self) -> (r: Self)
        ensures
            r@ == self@,
    {
        AccessMode {
            id: self.id,
            tags: clone_ids(&self.tags),
            added_on: self.added_on,
            name: self.name.clone(),
        }
    }
}

impl AccessMode {
    /// An access mode added at the time of the call.
    pub fn new(id: AccessModeID, tags: HashSet<TagID>, name: String) -> (r: AccessMode)
        ensures
            r@ == (AccessModeView { id, tags: tags@, added_on: r@.added_on, name: name@ }),
    {
        AccessMode { id, tags, name, added_on: Timestamp::now() }
    }

    /// The name of the mode.
    pub fn get_name(&self) -> (r: &String)
        ensures
            r@ == self@.name,
    {
        &self.name
    }

    /// Gives the mode another id.
    pub fn set_id(&mut self, id: AccessModeID)
        ensures
            final(self)@ == (AccessModeView { id, ..old(self)@ }),
    {
        self.id = id;
    }

    /// The tags of the mode.
    pub fn get_tags(&self) -> (r: &HashSet<TagID>)
        ensures
            r@ == self@.tags,
    {
        &self.tags
    }

    /// The time that the mode was added at.
    pub fn get_added_on(&self) -> (r: Timestamp)
        ensures
            r == self@.added_on,
    {
        self.added_on
    }

    /// Whether every tag id below `count` is among the tags of the mode.
    pub fn holds_all_tags(&self, count: usize) -> (r: bool)
        ensures
            r == (forall|t: usize| t < count ==> self@.tags.contains(t)),
    {
        let mut t: usize = 0;
        while t < count
            invariant
                t <= count,
                forall|u: usize| u < t ==> self@.tags.contains(u),
            decreases count - t,
        {
            if !self.tags.contains(&t) {
                proof {
                    assert(t < count && !self@.tags.contains(t));
                }
                return false;
            }
            t += 1;
        }
        true
    }

    /// The id of the mode.
    pub fn get_id(&self) -> (r: AccessModeID)
        ensures
            r == self@.id,
    {
        self.id
    }
}

/// An access mode after an insertion of an item of `kind` at `at`: its tags
/// are brought up to date where a tag was inserted.
pub open spec fn mode_shifted(mode: AccessModeView, kind: ItemKind, at: usize) -> AccessModeView {
    AccessModeView { tags: shifted_ids_if(kind == ItemKind::Tag, mode.tags, at), ..mode }
}

impl AccessMode {
    /// Brings the references of the mode up to date after an insertion of an
    /// item of `kind` at `at`.
    pub fn shift_references(&mut self, kind: ItemKind, at: usize)
        ensures
            final(self)@ == mode_shifted(old(self)@, kind, at),
    {
        shift_ids_if(kind == ItemKind::Tag, &mut self.tags, at);
    }
}

/// The values of a sequence of access modes.
pub open spec fn mode_views(modes: Seq<AccessMode>) -> Seq<AccessModeView> {
    modes.map_values(|m: AccessMode| m@)
}

/// Whether every mode of `modes` has its position as its id.
pub open spec fn modes_dense(modes: Seq<AccessModeView>) -> bool {
    forall|i: int| 0 <= i < modes.len() ==> (#[trigger] modes[i]).id == i
}

/// `modes` with `mode` inserted at the position that is its id, and the id
/// of each one behind it raised by one.
pub open spec fn modes_inserted(modes: Seq<AccessModeView>, mode: AccessModeView) -> Seq<AccessModeView> {
    Seq::new(
        modes.len() + 1,
        |i: int|
            if i < mode.id {
                modes[i]
            } else if i == mode.id {
                mode
            } else {
                (AccessModeView { id: shifted(modes[i - 1].id, 0), ..modes[i - 1] })
            },
    )
}

/// All access modes, each at the position that is its id. The first one is
/// the global mode.
#[derive(PartialEq, Eq, Debug)]
pub struct AccessModes {
    all_modes: Vec<AccessMode>,
}

impl View for AccessModes {
    type V = Seq<AccessModeView>;

    closed spec fn view(&self) -> Seq<AccessModeView> {
        mode_views(self.all_modes@)
    }
}

impl Clone for AccessModes {
    fn clone(&self) -> (r: Self)
        ensures
            r@ == self@,
    {
        let all_modes = self.all_modes.clone();
        proof {
            assert(mode_views(all_modes@) =~= mode_views(self.all_modes@));
        }
        AccessModes { all_modes }
    }
}

impl AccessModes {
    /// Whether the global mode exists and ids are positions.
    pub open spec fn wf(&self) -> bool {
        self@.len() >= 1 && modes_dense(self@)
    }

    /// The global mode alone, without tags, added at the time of the call.
    pub fn new() -> (r: AccessModes)
        ensures
            r@.len() == 1,
            r@[0].id == 0,
            r@[0].tags == Set::<usize>::empty(),
            r@[0].name == "global"@,
            r.wf(),
    {
        let mut all_modes: Vec<AccessMode> = Vec::new();
        all_modes.push(
            AccessMode {
                added_on: Timestamp::now(),
                id: 0,
                tags: HashSet::new(),
                name: "global".to_string(),
            },
        );
        AccessModes { all_modes }
    }

    /// Whether every mode has its position as its id.
    pub fn is_dense(&self) -> (r: bool)
        ensures
            r == modes_dense(self@),
    {
        let mut i: usize = 0;
        while i < self.all_modes.len()
            invariant
                i <= self.all_modes.len(),
                forall|j: int| 0 <= j < i ==> (#[trigger] self@[j]).id == j,
            decreases self.all_modes.len() - i,
        {
            if self.all_modes[i].id != i {
                proof {
                    assert(self@[i as int].id != i);
                }
                return false;
            }
            i += 1;
        }
        true
    }

    /// The modes.
    pub fn get_modes(&self) -> (r: &Vec<AccessMode>)
        ensures
            mode_views(r@) == self@,
    {
        &self.all_modes
    }

    /// The modes, to be changed in place.
    pub fn get_modes_mut(&mut self) -> (r: &mut Vec<AccessMode>)
        ensures
            mode_views(r@) == old(self)@,
            final(self)@ == mode_views(final(r)@),
    {
        &mut self.all_modes
    }

    /// Puts `mode` in the place of the mode that has its id.
    pub fn update_mode(&mut self, mode: AccessMode)
        requires
            mode@.id < old(self)@.len(),
        ensures
            final(self)@ == old(self)@.update(mode@.id as int, mode@),
            old(self).wf() ==> final(self).wf(),
    {
        let num = mode.id;
        let ghost before = self.all_modes@;
        self.all_modes[num] = mode;
        proof {
            assert(mode_views(self.all_modes@) =~= mode_views(before).update(num as int, mode@));
        }
    }

    /// Adds `tag` to the mode `mode` and to the global mode. Returns whether
    /// the mode `mode` did not have it yet.
    pub fn associate_tag_to_mode(&mut self, mode: AccessModeID, tag: TagID) -> (r: bool)
        requires
            mode < old(self)@.len(),
        ensures
            final(self)@.len() == old(self)@.len(),
            forall|i: int|
                0 <= i < old(self)@.len() ==> #[trigger] final(self)@[i] == if i == 0 || i
                    == mode {
                    (AccessModeView { tags: old(self)@[i].tags.insert(tag), ..old(self)@[i] })
                } else {
                    old(self)@[i]
                },
            r == !(if mode == 0 {
                true
            } else {
                old(self)@[mode as int].tags.contains(tag)
            }),
    {
        let ghost before = self@;
        self.all_modes[0].tags.insert(tag);
        let r = self.all_modes[mode].tags.insert(tag);
        proof {
            assert forall|i: int| 0 <= i < before.len() implies #[trigger] self@[i] == if i == 0
                || i == mode {
                (AccessModeView { tags: before[i].tags.insert(tag), ..before[i] })
            } else {
                before[i]
            } by {
                if i == 0 && mode == 0 {
                    assert(before[i].tags.insert(tag).insert(tag) =~= before[i].tags.insert(tag));
                }
            }
        }
        r
    }

    /// Brings the references of every mode up to date after an insertion of
    /// an item of `kind` at `at`.
    pub fn shift_references(&mut self, kind: ItemKind, at: usize)
        ensures
            final(self)@ == old(self)@.map_values(|m: AccessModeView| mode_shifted(m, kind, at)),
    {
        let ghost before = self@;
        let mut i: usize = 0;
        while i < self.all_modes.len()
            invariant
                i <= self.all_modes.len(),
                self@.len() == before.len(),
                forall|j: int|
                    0 <= j < before.len() ==> #[trigger] self@[j] == if j < i {
                        mode_shifted(before[j], kind, at)
                    } else {
                        before[j]
                    },
            decreases self.all_modes.len() - i,
        {
            let ghost prev = self.all_modes@;
            self.all_modes[i].shift_references(kind, at);
            proof {
                assert forall|j: int| 0 <= j < before.len() implies #[trigger] self@[j] == if j
                    < i + 1 {
                    mode_shifted(before[j], kind, at)
                } else {
                    before[j]
                } by {
                    assert(mode_views(prev)[j] == prev[j]@);
                    if j != i {
                        assert(self.all_modes@[j] == prev[j]);
                    }
                }
            }
            i += 1;
        }
        proof {
            assert(self@ =~= before.map_values(|m: AccessModeView| mode_shifted(m, kind, at)));
        }
    }

    /// Inserts `mode` at the position that is its id; the id of each one
    /// behind it goes up by one.
    pub fn insert_mode(&mut self, mode: AccessMode)
        requires
            mode@.id <= old(self)@.len(),
        ensures
            final(self)@ == modes_inserted(old(self)@, mode@),
    {
        let id = mode.id;
        let ghost before = self@;
        let mut i: usize = id;
        while i < self.all_modes.len()
            invariant
                id <= i <= self.all_modes.len(),
                self@.len() == before.len(),
                forall|j: int|
                    0 <= j < before.len() ==> #[trigger] self@[j] == if id <= j < i {
                        (AccessModeView { id: shifted(before[j].id, 0), ..before[j] })
                    } else {
                        before[j]
                    },
            decreases self.all_modes.len() - i,
        {
            let ghost prev = self.all_modes@;
            let old_id = self.all_modes[i].id;
            let new_id = shift_id(old_id, 0);
            self.all_modes[i].id = new_id;
            proof {
                assert forall|j: int| 0 <= j < before.len() implies #[trigger] self@[j] == if id
                    <= j < i + 1 {
                    (AccessModeView { id: shifted(before[j].id, 0), ..before[j] })
                } else {
                    before[j]
                } by {
                    assert(mode_views(prev)[j] == prev[j]@);
                    if j != i {
                        assert(self.all_modes@[j] == prev[j]);
                    } else {
                        assert(self.all_modes@[j]@ == (AccessModeView { id: new_id, ..prev[j]@ }));
                    }
                }
            }
            i += 1;
        }
        let ghost shifted_all = self@;
        self.all_modes.insert(id, mode);
        proof {
            assert forall|j: int| 0 <= j < self@.len() implies self@[j] == modes_inserted(
                before,
                mode@,
            )[j] by {
                if j < id {
                    assert(self@[j] == shifted_all[j]);
                } else if j > id {
                    assert(self@[j] == shifted_all[j - 1]);
                }
            }
            assert(self@ =~= modes_inserted(before, mode@));
        }
    }

    /// Adds `mode` at the end, under the next id, which is returned.
    pub fn add_mode(&mut self, mode: AccessMode) -> (id: AccessModeID)
        ensures
            id == old(self)@.len(),
            final(self)@ == old(self)@.push((AccessModeView { id, ..mode@ })),
            old(self).wf() ==> final(self).wf(),
    {
        let mut mode = mode;
        let num = self.all_modes.len();
        mode.id = num;
        let ghost before = self.all_modes@;
        self.all_modes.push(mode);
        proof {
            assert(mode_views(self.all_modes@) =~= mode_views(before).push(mode@));
        }
        num
    }
}

} // verus!
