//! What the database knows of its user.

use crate::database::description::Description;
use crate::database::ids::{clone_id_list, shift_list_if, shifted_list_if, ItemKind};
use crate::database::tags::TagID;
use crate::database::timestamp::Timestamp;
use vstd::prelude::*;

verus! {

/// Something the user cares about.
#[derive(PartialEq, Eq, Debug)]
pub struct Interest {
    pub tags: Vec<TagID>,
    pub description: Description,
}

/// The mathematical value of an [`Interest`].
pub struct InterestView {
    pub tags: Seq<usize>,
    pub description: Seq<char>,
}

impl View for Interest {
    type V = InterestView;

    open spec fn view(&self) -> InterestView {
        InterestView { tags: self.tags@, description: self.description@ }
    }
}

impl Clone for Interest {
    fn clone(&self) -> (r: Self)
        ensures
            r@ == self@,
    {
        Interest { tags: clone_id_list(&self.tags), description: self.description.clone() }
    }
}

/// An interest after an insertion of an item of `kind` at `at`: its tags
/// are brought up to date where a tag was inserted.
pub open spec fn interest_shifted(interest: InterestView, kind: ItemKind, at: usize)
    -> InterestView {
    InterestView { tags: shifted_list_if(kind == ItemKind::Tag, interest.tags, at), ..interest }
}

impl Interest {
    /// Brings the references of the interest up to date after an insertion
    /// of an item of `kind` at `at`.
    pub fn shift_references(&mut self, kind: ItemKind, at: usize)
        ensures
            final(self)@ == interest_shifted(old(self)@, kind, at),
    {
        shift_list_if(kind == ItemKind::Tag, &mut self.tags, at);
    }
}

/// The values of a sequence of interests.
pub open spec fn interest_views(interests: Seq<Interest>) -> Seq<InterestView> {
    interests.map_values(|i: Interest| i@)
}

/// The record of the user.
#[derive(PartialEq, Eq, Debug)]
pub struct UserData {
    pub name: Option<String>,
    pub pseudonym: String,
    pub password_hash: String,
    pub interests: Vec<Interest>,
    pub last_updated: Timestamp,
    pub current_description: Description,
}

/// The mathematical value of a [`UserData`].
pub struct UserDataView {
    pub name: Option<Seq<char>>,
    pub pseudonym: Seq<char>,
    pub password_hash: Seq<char>,
    pub interests: Seq<InterestView>,
    pub last_updated: Timestamp,
    pub current_description: Seq<char>,
}

impl View for UserData {
    type V = UserDataView;

    open spec fn view(&self) -> UserDataView {
        UserDataView {
            name: match self.name {
                Some(n) => Some(n@),
                None => None,
            },
            pseudonym: self.pseudonym@,
            password_hash: self.password_hash@,
            interests: interest_views(self.interests@),
            last_updated: self.last_updated,
            current_description: self.current_description@,
        }
    }
}

impl Clone for UserData {
    fn clone(&self) -> (r: Self)
        ensures
            r@ == self@,
    {
        let interests = self.interests.clone();
        proof {
            assert(interest_views(interests@) =~= interest_views(self.interests@));
        }
        UserData {
            name: match &self.name {
                Some(n) => Some(n.clone()),
                None => None,
            },
            pseudonym: self.pseudonym.clone(),
            password_hash: self.password_hash.clone(),
            interests,
            last_updated: self.last_updated,
            current_description: self.current_description.clone(),
        }
    }
}

/// The record of the user after an insertion of an item of `kind` at `at`.
pub open spec fn user_shifted(user: UserDataView, kind: ItemKind, at: usize) -> UserDataView {
    UserDataView {
        interests: user.interests.map_values(|x: InterestView| interest_shifted(x, kind, at)),
        ..user
    }
}

impl UserData {
    /// Brings the references of the record up to date after an insertion of
    /// an item of `kind` at `at`.
    pub fn shift_references(&mut self, kind: ItemKind, at: usize)
        ensures
            final(self)@ == user_shifted(old(self)@, kind, at),
    {
        let ghost before = interest_views(self.interests@);
        let mut i: usize = 0;
        while i < self.interests.len()
            invariant
                i <= self.interests.len(),
                self@ == (UserDataView { interests: self@.interests, ..old(self)@ }),
                self@.interests.len() == before.len(),
                forall|j: int|
                    0 <= j < before.len() ==> #[trigger] self@.interests[j] == if j < i {
                        interest_shifted(before[j], kind, at)
                    } else {
                        before[j]
                    },
            decreases self.interests.len() - i,
        {
            let ghost prev = self.interests@;
            self.interests[i].shift_references(kind, at);
            proof {
                assert forall|j: int| 0 <= j < before.len() implies #[trigger] self@.interests[j]
                    == if j < i + 1 {
                    interest_shifted(before[j], kind, at)
                } else {
                    before[j]
                } by {
                    assert(interest_views(prev)[j] == prev[j]@);
                    if j != i {
                        assert(self.interests@[j] == prev[j]);
                    }
                }
            }
            i += 1;
        }
        proof {
            assert(self@.interests =~= before.map_values(
                |x: InterestView| interest_shifted(x, kind, at),
            ));
        }
    }


    /// The description of the user.
    pub fn get_desc(&self) -> (r: Description)
        ensures
            r@ == self@.current_description,
    {
        self.current_description.clone()
    }
}

/// All that is known of the user.
#[derive(PartialEq, Eq, Debug)]
pub struct PersonalInformation {
    pub user_data: UserData,
}

impl View for PersonalInformation {
    type V = UserDataView;

    open spec fn view(&self) -> UserDataView {
        self.user_data@
    }
}

impl Clone for PersonalInformation {
    fn clone(&self) -> (r: Self)
        ensures
            r@ == self@,
    {
        PersonalInformation { user_data: self.user_data.clone() }
    }
}

impl PersonalInformation {
    /// A user known by a pseudonym and the hash of a password only, as of
    /// the time of the call.
    pub fn new(pseudonym: String, password_hash: String) -> (r: PersonalInformation)
        ensures
            r@ == (UserDataView {
                name: None,
                pseudonym: pseudonym@,
                password_hash: password_hash@,
                interests: Seq::empty(),
                last_updated: r@.last_updated,
                current_description: "The user is currently anonymous, called by the name : "@
                    + pseudonym@,
            }),
    {
        let text = "The user is currently anonymous, called by the name : ".to_string().concat(
            pseudonym.as_str(),
        );
        let interests: Vec<Interest> = Vec::new();
        proof {
            assert(interest_views(interests@) =~= Seq::empty());
        }
        PersonalInformation {
            user_data: UserData {
                last_updated: Timestamp::now(),
                password_hash,
                pseudonym,
                name: None,
                interests,
                current_description: Description::new(text),
            },
        }
    }
}

} // verus!
