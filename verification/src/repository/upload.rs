//! Uploaded files: the link from an attachment key to the name the file was
//! uploaded under.

use vstd::prelude::*;
use vstd::string::*;
use crate::trusted::{random_uuid, uuid_text, uuid_to_string};

verus! {

/// One uploaded file: its key in canonical text form and the name it came with.
#[derive(Debug)]
pub struct Upload {
    pub uuid: String,
    pub filename: String,
}

/// What an [`Upload`] holds, as plain sequences of characters.
pub struct UploadView {
    pub uuid: Seq<char>,
    pub filename: Seq<char>,
}

impl View for Upload {
    type V = UploadView;

    open spec fn view(&self) -> UploadView {
        UploadView { uuid: self.uuid@, filename: self.filename@ }
    }
}

impl UploadView {
    /// Where the bytes of this upload are kept, relative to the working directory.
    pub open spec fn store_path(self) -> Seq<char> {
        "./database/file_uploads/"@ + self.uuid + seq!['_'] + self.filename
    }
}

impl Upload {
    /// The path under which the bytes of this upload are kept.
    pub fn store_path(&self) -> (path: String)
        ensures
            path@ == self@.store_path(),
    {
        let mut path = String::from_str("./database/file_uploads/");
        path.append(self.uuid.as_str());
        proof {
            reveal_strlit("_");
        }
        path.append("_");
        path.append(self.filename.as_str());
        assert("_"@ =~= seq!['_']);
        path
    }
}

impl Clone for Upload {
    fn clone(&self) -> (copy: Self)
        ensures
            copy@ == self@,
    {
        Upload { uuid: self.uuid.clone(), filename: self.filename.clone() }
    }
}

/// Why an upload could not be linked.
#[derive(Debug, Clone, Copy, PartialEq, Eq, Structural)]
pub enum FileUploadError {
    /// The key already names another upload.
    KeyTaken,
}

/// The uploads of a sequence, as mathematical values.
pub open spec fn upload_views(uploads: Seq<Upload>) -> Seq<UploadView> {
    uploads.map_values(|u: Upload| u@)
}

/// Some upload among `entries` has the key `key`.
pub open spec fn has_key(entries: Seq<UploadView>, key: Seq<char>) -> bool {
    exists|i: int| 0 <= i < entries.len() && (#[trigger] entries[i]).uuid == key
}

/// The upload that `key` names among `entries`, if there is one.
pub open spec fn resolve(entries: Seq<UploadView>, key: Seq<char>) -> Option<UploadView> {
    if has_key(entries, key) {
        Some(entries[choose|i: int| 0 <= i < entries.len() && (#[trigger] entries[i]).uuid == key])
    } else {
        None
    }
}

/// No two uploads share a key.
pub open spec fn distinct_keys(entries: Seq<UploadView>) -> bool {
    forall|i: int, j: int|
        0 <= i < j < entries.len() ==> (#[trigger] entries[i]).uuid != (#[trigger] entries[j]).uuid
}

/// The link from attachment keys to uploads.
#[derive(Debug)]
pub struct UploadRepository {
    uploads: Vec<Upload>,
}

impl View for UploadRepository {
    type V = Seq<UploadView>;

    closed spec fn view(&self) -> Seq<UploadView> {
        upload_views(self.uploads@)
    }
}

impl UploadRepository {
    /// The invariant of the store: a key names at most one upload.
    pub open spec fn wf(&self) -> bool {
        distinct_keys(self@)
    }

    /// A store without uploads.
    pub fn new() -> (store: Self)
        ensures
            store.wf(),
            store@ == Seq::<UploadView>::empty(),
    {
        let store = UploadRepository { uploads: Vec::new() };
        proof {
            assert(upload_views(store.uploads@) =~= Seq::<UploadView>::empty());
        }
        store
    }

    /// The number of uploads.
    pub fn len(&self) -> (count: usize)
        ensures
            count == self@.len(),
    {
        self.uploads.len()
    }

    /// The upload whose key has the text `key`.
    pub fn find_by_text(&self, key: &str) -> (found: Option<Upload>)
        requires
            self.wf(),
        ensures
            match found {
                Some(upload) => resolve(self@, key@) == Some(upload@),
                None => resolve(self@, key@) is None,
            },
    {
        let wanted = String::from_str(key);
        let mut index: usize = 0;
        while index < self.uploads.len()
            invariant
                self.wf(),
                index <= self.uploads.len(),
                wanted@ == key@,
                forall|j: int| 0 <= j < index ==> (#[trigger] self@[j]).uuid != key@,
            decreases self.uploads.len() - index,
        {
            if self.uploads[index].uuid == wanted {
                proof {
                    lemma_resolve_at(self@, index as int);
                }
                return Some(self.uploads[index].clone());
            }
            index = index + 1;
        }
        None
    }

    /// The upload that the key `uuid` names: the one stored under the
    /// canonical text of the key.
    pub fn find(&self, uuid: u128) -> (found: Option<Upload>)
        requires
            self.wf(),
        ensures
            match found {
                Some(upload) => resolve(self@, uuid_text(uuid)) == Some(upload@),
                None => resolve(self@, uuid_text(uuid)) is None,
            },
    {
        let key = uuid_to_string(uuid);
        self.find_by_text(key.as_str())
    }

    /// Links the key `uuid` to an upload with the name `filename`. A key
    /// names one upload for good: linking it again is refused and changes
    /// nothing.
    pub fn link(&mut self, uuid: u128, filename: &str) -> (outcome: Result<Upload, FileUploadError>)
        requires
            old(self).wf(),
        ensures
            final(self).wf(),
            outcome is Ok <==> !has_key(old(self)@, uuid_text(uuid)),
            match outcome {
                Ok(upload) => {
                    &&& upload@ == (UploadView { uuid: uuid_text(uuid), filename: filename@ })
                    &&& final(self)@ == old(self)@.push(upload@)
                },
                Err(_) => final(self)@ == old(self)@,
            },
    {
        let key = uuid_to_string(uuid);
        match self.find_by_text(key.as_str()) {
            Some(_) => Err(FileUploadError::KeyTaken),
            None => {
                let upload = Upload { uuid: key, filename: String::from_str(filename) };
                let copy = upload.clone();
                let ghost before = self.uploads@;
                self.uploads.push(upload);
                proof {
                    assert(upload_views(self.uploads@) =~= upload_views(before).push(copy@));
                }
                Ok(copy)
            },
        }
    }

    /// Links a key drawn at random to an upload with the name `filename`.
    /// The outcome is that of [`UploadRepository::link`] for some key.
    pub fn link_new(&mut self, filename: &str) -> (outcome: Result<Upload, FileUploadError>)
        requires
            old(self).wf(),
        ensures
            final(self).wf(),
            exists|uuid: u128|
                {
                    &&& outcome is Ok <==> !has_key(old(self)@, #[trigger] uuid_text(uuid))
                    &&& match outcome {
                        Ok(upload) => {
                            &&& upload@ == (UploadView {
                                uuid: uuid_text(uuid),
                                filename: filename@,
                            })
                            &&& final(self)@ == old(self)@.push(upload@)
                        },
                        Err(_) => final(self)@ == old(self)@,
                    }
                },
    {
        let uuid = random_uuid();
        self.link(uuid, filename)
    }
}

/// With distinct keys, the upload at a position is the one its key resolves to.
pub proof fn lemma_resolve_at(entries: Seq<UploadView>, index: int)
    requires
        distinct_keys(entries),
        0 <= index < entries.len(),
    ensures
        resolve(entries, entries[index].uuid) == Some(entries[index]),
{
    let key = entries[index].uuid;
    assert(has_key(entries, key));
    let k = choose|i: int| 0 <= i < entries.len() && (#[trigger] entries[i]).uuid == key;
    if k < index {
        assert(entries[k].uuid != entries[index].uuid);
    } else if index < k {
        assert(entries[index].uuid != entries[k].uuid);
    }
}

/// What a key resolves to has that key.
pub proof fn lemma_resolved_has_key(entries: Seq<UploadView>, key: Seq<char>)
    requires
        resolve(entries, key) is Some,
    ensures
        resolve(entries, key)->Some_0.uuid == key,
{
}

/// An upload linked under a key is what the key resolves to from then on:
/// right after the link, and after any number of later links.
pub proof fn lemma_linked_upload_resolves(
    entries: Seq<UploadView>,
    linked: UploadView,
    later: Seq<UploadView>,
)
    requires
        distinct_keys(entries.push(linked) + later),
    ensures
        resolve(entries.push(linked) + later, linked.uuid) == Some(linked),
{
    let all = entries.push(linked) + later;
    assert(all[entries.len() as int] == linked);
    lemma_resolve_at(all, entries.len() as int);
}

} // verus!
