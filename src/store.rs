use vstd::prelude::*;

use crate::id::{
    base64url_decoded, base64url_encoded, be_value, uuid_bytes, uuid_from_base64url, uuid_to_base64url,
    IdError, Uuid,
};
use crate::state::{luid_in, TotalState};
use crate::universe::universe_get_index_of;
use vstd::string::{StrSliceExecFns, StringExecFns};

verus! {

/// The prefix of every patch file name.
pub open spec fn patch_prefix() -> Seq<char> {
    seq!['p', 'a', 't', 'c', 'h', '_']
}

/// The name of the file that holds a patch: the prefix, then the base64url form
/// of the patch's own UUID.
pub fn patch_file_name(patch: Uuid) -> (r: String)
    ensures
        r@ == patch_prefix() + base64url_encoded(uuid_bytes(patch)),
{
    let mut name = String::from_str("patch_");
    proof {
        reveal_strlit("patch_");
        assert("patch_"@ =~= patch_prefix());
    }
    let text = uuid_to_base64url(patch);
    name.append(text.as_str());
    name
}

/// Why a file name is not that of a patch.
#[derive(Debug, Clone, Copy, PartialEq, Eq, Structural)]
pub enum FileNameError {
    /// The name does not start with the patch prefix.
    MissingPrefix,
    /// What follows the prefix is not a UUID.
    InvalidUuid(IdError),
}

/// The UUID of the patch that a file of this name holds.
pub fn patch_uuid_from_file_name(name: &str) -> (r: Result<Uuid, FileNameError>)
    ensures
        !(name@.len() >= 6 && name@.subrange(0, 6) == patch_prefix()) ==> r == Err::<Uuid, FileNameError>(
            FileNameError::MissingPrefix,
        ),
        name@.len() >= 6 && name@.subrange(0, 6) == patch_prefix() ==> {
            let rest = name@.subrange(6, name@.len() as int);
            &&& r matches Ok(u) ==> (base64url_decoded(rest) matches Some(b) && b.len() == 16 && be_value(b) == u)
            &&& r == Err::<Uuid, FileNameError>(FileNameError::InvalidUuid(IdError::InvalidEncoding))
                <==> base64url_decoded(rest) is None
            &&& r == Err::<Uuid, FileNameError>(FileNameError::InvalidUuid(IdError::InvalidLength))
                <==> (base64url_decoded(rest) matches Some(b) && b.len() != 16)
        },
{
    let n = name.unicode_len();
    if n < 6 {
        return Err(FileNameError::MissingPrefix);
    }
    let prefix = ['p', 'a', 't', 'c', 'h', '_'];
    let mut i: usize = 0;
    while i < 6
        invariant
            n == name@.len(),
            n >= 6,
            i <= 6,
            prefix@ == patch_prefix(),
            forall|k: int| 0 <= k < i ==> name@[k] == patch_prefix()[k],
        decreases 6 - i,
    {
        if name.get_char(i) != prefix[i] {
            assert(name@.subrange(0, 6)[i as int] != patch_prefix()[i as int]);
            return Err(FileNameError::MissingPrefix);
        }
        i = i + 1;
    }
    assert(name@.subrange(0, 6) =~= patch_prefix());
    let rest = name.substring_char(6, n);
    match uuid_from_base64url(rest) {
        Ok(u) => Ok(u),
        Err(e) => Err(FileNameError::InvalidUuid(e)),
    }
}

/// The UUID that a base64url text denotes, if it denotes one.
pub open spec fn uuid_of_text(s: Seq<char>) -> Option<Uuid> {
    match base64url_decoded(s) {
        Some(b) => if b.len() == 16 {
            Some(be_value(b) as Uuid)
        } else {
            None
        },
        None => None,
    }
}

/// Why a text does not name a known commit.
#[derive(Debug, Clone, Copy, PartialEq, Eq, Structural)]
pub enum CommitRefError {
    /// The text is not the base64url form of a UUID.
    InvalidUuid(IdError),
    /// The UUID is not a known commit.
    UnknownCommit,
}

impl TotalState {
    /// The commit that a text in base64url form names, if it is a known commit
    /// (the target of some registered patch).
    pub fn parse_commit_ref(&self, text: &str) -> (r: Result<Uuid, CommitRefError>)
        requires
            self.wf(),
        ensures
            base64url_decoded(text@) is None ==> r == Err::<Uuid, CommitRefError>(
                CommitRefError::InvalidUuid(IdError::InvalidEncoding),
            ),
            (base64url_decoded(text@) matches Some(b) && b.len() != 16) ==> r == Err::<Uuid, CommitRefError>(
                CommitRefError::InvalidUuid(IdError::InvalidLength),
            ),
            uuid_of_text(text@) matches Some(u) ==> {
                let known = self.uuids().contains(u) && self.commits@.contains_key(luid_in(self.uuids(), u));
                &&& known ==> r == Ok::<Uuid, CommitRefError>(u)
                &&& !known ==> r == Err::<Uuid, CommitRefError>(CommitRefError::UnknownCommit)
            },
    {
        let uuid = match uuid_from_base64url(text) {
            Ok(u) => u,
            Err(e) => return Err(CommitRefError::InvalidUuid(e)),
        };
        match universe_get_index_of(&self.universe, uuid) {
            Some(l) => {
                proof {
                    crate::state::lemma_luid_at(self.uuids(), self.uuids()[l as int], l as int);
                }
                if self.commits.contains_key(&l) {
                    Ok(uuid)
                } else {
                    Err(CommitRefError::UnknownCommit)
                }
            },
            None => Err(CommitRefError::UnknownCommit),
        }
    }
}

} // verus!
