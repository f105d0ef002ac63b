//! Media that the database keeps beside its items: what is known of each
//! blob, under the hash of its content.

use crate::database::access_modes::AccessModeID;
use crate::database::ids::clone_ids;
use crate::database::tags::TagID;
use crate::database::timestamp::Timestamp;
use std::collections::HashSet;
use vstd::prelude::*;

verus! {

broadcast use vstd::std_specs::hash::group_hash_axioms;

/// What kind of media a blob is.
#[derive(Clone, Copy, PartialEq, Eq, Structural, Debug)]
pub enum MediaType {
    Image,
    Video,
    Audio,
}

/// The hash of the content of a blob.
pub type MediaHash = [u8; 32];

/// The SHA3-256 digest of a sequence of bytes.
pub uninterp spec fn sha3_256(data: Seq<u8>) -> Seq<u8>;

/// The SHA3-256 digest of `data`, by the `sha3` crate: a new `Sha3_256`
/// hasher is fed `data` once and finalized. The digest depends on the bytes
/// alone.
#[verifier::external_body]
fn digest_of(data: &Vec<u8>) -> (r: [u8; 32])
    ensures
        r@ == sha3_256(data@),
{
    let mut hasher = <sha3::Sha3_256 as sha3::Digest>::new();
    sha3::Digest::update(&mut hasher, data);
    sha3::Digest::finalize(hasher).into()
}

/// The hash that a blob with the content `data` is kept under.
pub fn media_hash(data: &Vec<u8>) -> (r: MediaHash)
    ensures
        r@ == sha3_256(data@),
{
    digest_of(data)
}

/// The character of the hexadecimal digit `d`, in lower case.
pub open spec fn hex_digit(d: nat) -> char
    recommends
        d < 16,
{
    if d < 10 {
        (0x30 + d) as char
    } else {
        (0x61 + d - 10) as char
    }
}

/// The byte `b` written as `0x` and two hexadecimal digits.
pub open spec fn byte_mark(b: u8) -> Seq<char> {
    seq!['0', 'x', hex_digit((b / 16) as nat), hex_digit((b % 16) as nat)]
}

/// The name that a blob is stored under when `taken` names were found
/// taken: the name it came with, with one byte of its hash in front for
/// each name that was taken, the latest first.
pub open spec fn media_name(given: Seq<char>, hash: Seq<u8>, taken: nat) -> Seq<char>
    decreases taken,
{
    if taken == 0 || taken > hash.len() {
        given
    } else {
        byte_mark(hash[taken - 1]) + media_name(given, hash, (taken - 1) as nat)
    }
}

fn hex_char(d: u8) -> (r: char)
    requires
        d < 16,
    ensures
        r == hex_digit(d as nat),
{
    if d < 10 {
        (0x30u8 + d) as char
    } else {
        (0x61u8 + d - 10) as char
    }
}

/// The name that a blob is stored under when `taken` names were found
/// taken; `None` where more names were taken than the hash has bytes.
pub fn media_file_name(given: &str, hash: &MediaHash, taken: usize) -> (r: Option<String>)
    ensures
        match r {
            Some(name) => taken <= 32 && name@ == media_name(given@, hash@, taken as nat),
            None => taken > 32,
        },
{
    if taken > 32 {
        return None;
    }
    let mut name = given.to_string();
    let mut k: usize = 0;
    while k < taken
        invariant
            k <= taken <= 32,
            hash@.len() == 32,
            name@ == media_name(given@, hash@, k as nat),
        decreases taken - k,
    {
        let b = hash[k];
        let mut marked = String::new();
        marked.append("0x");
        proof {
            reveal_strlit("0x");
        }
        let mut digits: Vec<char> = Vec::new();
        digits.push(hex_char(b / 16));
        digits.push(hex_char(b % 16));
        let two = crate::text::string_of(&digits, 0, 2);
        marked.append(two.as_str());
        marked.append(name.as_str());
        proof {
            assert(digits@.subrange(0, 2) =~= digits@);
            assert("0x"@ + digits@ =~= byte_mark(b));
        }
        name = marked;
        k += 1;
    }
    Some(name)
}

/// What is known of a blob.
#[derive(PartialEq, Eq, Debug)]
pub struct Media {
    pub hash: MediaHash,
    pub media_type: MediaType,
    pub file_name: String,
    pub tags: HashSet<TagID>,
    pub access_modes: HashSet<AccessModeID>,
    pub added_at: Timestamp,
}

/// The mathematical value of a [`Media`].
pub struct MediaView {
    pub hash: Seq<u8>,
    pub media_type: MediaType,
    pub file_name: Seq<char>,
    pub tags: Set<usize>,
    pub access_modes: Set<usize>,
    pub added_at: Timestamp,
}

impl View for Media {
    type V = MediaView;

    open spec fn view(&self) -> MediaView {
        MediaView {
            hash: self.hash@,
            media_type: self.media_type,
            file_name: self.file_name@,
            tags: self.tags@,
            access_modes: self.access_modes@,
            added_at: self.added_at,
        }
    }
}

impl Clone for Media {
    fn clone(&self) -> (r: Self)
        ensures
            r@ == self@,
    {
        Media {
            hash: self.hash,
            media_type: self.media_type,
            file_name: self.file_name.clone(),
            tags: clone_ids(&self.tags),
            access_modes: clone_ids(&self.access_modes),
            added_at: self.added_at,
        }
    }
}

/// The values of a sequence of media.
pub open spec fn media_views(media: Seq<Media>) -> Seq<MediaView> {
    media.map_values(|m: Media| m@)
}

/// The index of the first of `media` that is kept under `hash`, or their number.
pub open spec fn media_find(media: Seq<MediaView>, hash: Seq<u8>) -> int
    decreases media.len(),
{
    if media.len() == 0 || media[0].hash == hash {
        0
    } else {
        1 + media_find(media.drop_first(), hash)
    }
}

/// `media` with `new_media` kept under its hash: in the place of what was
/// kept under it, or at the end.
pub open spec fn media_with(media: Seq<MediaView>, new_media: MediaView) -> Seq<MediaView> {
    let i = media_find(media, new_media.hash);
    if 0 <= i < media.len() {
        media.update(i, new_media)
    } else {
        media.push(new_media)
    }
}

proof fn lemma_media_find(media: Seq<MediaView>, hash: Seq<u8>, k: int)
    requires
        0 <= k <= media.len(),
        forall|i: int| 0 <= i < k ==> media[i].hash != hash,
        k < media.len() ==> media[k].hash == hash,
    ensures
        media_find(media, hash) == k,
    decreases k,
{
    if k > 0 {
        lemma_media_find(media.drop_first(), hash, k - 1);
    }
}

fn same_hash(a: &MediaHash, b: &MediaHash) -> (r: bool)
    ensures
        r == (a@ == b@),
{
    let mut i: usize = 0;
    while i < 32
        invariant
            i <= 32,
            forall|j: int| 0 <= j < i ==> a@[j] == b@[j],
        decreases 32 - i,
    {
        if a[i] != b[i] {
            return false;
        }
        i += 1;
    }
    proof {
        assert(a@ =~= b@);
    }
    true
}

/// All media, each under the hash of its content. Nothing is kept twice
/// under one hash by the functions of the storage.
#[derive(PartialEq, Eq, Debug)]
pub struct MediaStorage {
    pub data: Vec<Media>,
}

impl View for MediaStorage {
    type V = Seq<MediaView>;

    open spec fn view(&self) -> Seq<MediaView> {
        media_views(self.data@)
    }
}

impl MediaStorage {
    /// No media.
    pub fn new() -> (r: MediaStorage)
        ensures
            r@ == Seq::<MediaView>::empty(),
    {
        let data: Vec<Media> = Vec::new();
        proof {
            assert(media_views(data@) =~= Seq::<MediaView>::empty());
        }
        MediaStorage { data }
    }

    fn find(&self, hash: &MediaHash) -> (k: usize)
        ensures
            k == media_find(self@, hash@),
            k <= self@.len(),
    {
        let mut k: usize = 0;
        while k < self.data.len() && !same_hash(&self.data[k].hash, hash)
            invariant
                k <= self.data.len(),
                forall|i: int| 0 <= i < k ==> self@[i].hash != hash@,
            decreases self.data.len() - k,
        {
            k += 1;
        }
        proof {
            lemma_media_find(self@, hash@, k as int);
        }
        k
    }

    /// What is kept under `hash`, if anything.
    pub fn get_media(&self, hash: &MediaHash) -> (r: Option<&Media>)
        ensures
            match r {
                Some(media) => media_find(self@, hash@) < self@.len() && media@ == self@[media_find(
                    self@,
                    hash@,
                )],
                None => media_find(self@, hash@) >= self@.len(),
            },
    {
        let k = self.find(hash);
        if k < self.data.len() {
            Some(&self.data[k])
        } else {
            None
        }
    }

    /// Keeps `media` under its hash, in the place of what was kept under it.
    pub fn insert_media_raw(&mut self, media: Media)
        ensures
            final(self)@ == media_with(old(self)@, media@),
    {
        let k = self.find(&media.hash);
        let ghost before = self.data@;
        if k < self.data.len() {
            self.data[k] = media;
            proof {
                assert(media_views(self.data@) =~= media_views(before).update(k as int, media@));
            }
        } else {
            self.data.push(media);
            proof {
                assert(media_views(self.data@) =~= media_views(before).push(media@));
            }
        }
    }

    /// Keeps what is known of a blob with the content `data`, stored under
    /// `file_name`, as of the time of the call: under the hash of the
    /// content, which is returned, with the given tags, and with the given
    /// access modes and the global one.
    pub fn add_media(
        &mut self,
        data: &Vec<u8>,
        tags: HashSet<TagID>,
        access_modes: HashSet<AccessModeID>,
        file_name: String,
        media_type: MediaType,
    ) -> (hash: MediaHash)
        ensures
            hash@ == sha3_256(data@),
            final(self)@ == media_with(
                old(self)@,
                MediaView {
                    hash: sha3_256(data@),
                    media_type,
                    file_name: file_name@,
                    tags: tags@,
                    access_modes: access_modes@.insert(0),
                    added_at: final(self)@[media_find(final(self)@, sha3_256(data@))].added_at,
                },
            ),
    {
        let hash = media_hash(data);
        let mut access_modes = access_modes;
        access_modes.insert(0);
        let media = Media {
            hash,
            media_type,
            file_name,
            tags,
            access_modes,
            added_at: Timestamp::now(),
        };
        proof {
            lemma_media_find_bounds(self@, hash@);
        }
        self.insert_media_raw(media);
        proof {
            lemma_media_find_after(old(self)@, media@);
        }
        hash
    }

    /// Takes out what is kept under `hash`, if anything.
    pub fn remove_media(&mut self, hash: &MediaHash)
        ensures
            final(self)@ == if media_find(old(self)@, hash@) < old(self)@.len() {
                old(self)@.remove(media_find(old(self)@, hash@))
            } else {
                old(self)@
            },
    {
        let k = self.find(hash);
        let ghost before = self.data@;
        if k < self.data.len() {
            self.data.remove(k);
            proof {
                assert(media_views(self.data@) =~= media_views(before).remove(k as int));
            }
        }
    }
}

/// The first of `media` under `hash` is found at an index in range that
/// holds the hash, or none holds it.
pub proof fn lemma_media_find_bounds(media: Seq<MediaView>, hash: Seq<u8>)
    ensures
        0 <= media_find(media, hash) <= media.len(),
        media_find(media, hash) < media.len() ==> media[media_find(media, hash)].hash == hash,
        forall|i: int| 0 <= i < media_find(media, hash) ==> media[i].hash != hash,
    decreases media.len(),
{
    if media.len() == 0 || media[0].hash == hash {
    } else {
        lemma_media_find_bounds(media.drop_first(), hash);
        let k = media_find(media.drop_first(), hash);
        assert forall|i: int| 0 <= i < k + 1 implies media[i].hash != hash by {
            if i > 0 {
                assert(media.drop_first()[i - 1].hash != hash);
            }
        }
    }
}

/// What was just kept is found where it was put.
pub proof fn lemma_media_find_after(media: Seq<MediaView>, new_media: MediaView)
    ensures
        media_find(media_with(media, new_media), new_media.hash) == media_find(
            media,
            new_media.hash,
        ),
        media_with(media, new_media)[media_find(media, new_media.hash)] == new_media,
{
    lemma_media_find_bounds(media, new_media.hash);
    let k = media_find(media, new_media.hash);
    let after = media_with(media, new_media);
    assert forall|i: int| 0 <= i < k implies after[i].hash != new_media.hash by {
        assert(media[i].hash != new_media.hash);
    }
    lemma_media_find(after, new_media.hash, k);
}

} // verus!
