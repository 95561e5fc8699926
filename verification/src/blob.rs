//! The blob store: staged writes, promotion by digest, and reads by name.
use crate::address::{is_valid_name, valid_name, AddressSpace};
use crate::bytes::{append_bytes, copy_bytes};
use crate::digest::{
    absorbed, accumulator_new, accumulator_update, digest_name, has_digest_shape,
    is_digest_name, is_hex_char, sha512, Accumulator, Digest, DIGEST_NAME_LEN,
};
use crate::error::StoreError;
use crate::medium::{
    lemma_replay_forgets_others, lemma_replay_keeps_others, perform, replay, touches, untouched,
    valid_token, with_cleanup, ActionView, Medium,
};
use vstd::prelude::*;

verus! {

/// Whether `token` can stand for a staging object.
pub fn is_valid_token(token: &str) -> (ok: bool)
    ensures
        ok == valid_token(token@),
{
    is_valid_name(token) && token.unicode_len() != DIGEST_NAME_LEN
}

/// Number of characters in a staging token that the store draws itself.
pub const TOKEN_LEN: usize = 36;

/// `uuid::Uuid::new_v4`, written out by `to_string`: a random identifier in
/// hyphenated form, 36 characters that are lowercase hexadecimal digits or
/// hyphens.
#[verifier::external_body]
pub(crate) fn fresh_token() -> (token: String)
    ensures
        token@.len() == TOKEN_LEN,
        forall|i: int|
            0 <= i < token@.len() ==> is_hex_char(#[trigger] token@[i]) || token@[i] == '-',
{
    uuid::Uuid::new_v4().to_string()
}

/// One action on a durable medium that holds the objects under their
/// names, in the directory of the store.
#[derive(Debug, PartialEq, Eq)]
pub enum StorageAction {
    /// Create an empty object under `name`.
    Create { name: String },
    /// Append `bytes` to the object under `name`.
    Append { name: String, bytes: Vec<u8> },
    /// Rename the object under `from` to `to`, in one step.
    Promote { from: String, to: String },
    /// Remove the object under `name`.
    Discard { name: String },
}

impl View for StorageAction {
    type V = ActionView;

    open spec fn view(&self) -> ActionView {
        match *self {
            StorageAction::Create { name } => ActionView::Create { name: name@ },
            StorageAction::Append { name, bytes } => ActionView::Append {
                name: name@,
                bytes: bytes@,
            },
            StorageAction::Promote { from, to } => ActionView::Promote { from: from@, to: to@ },
            StorageAction::Discard { name } => ActionView::Discard { name: name@ },
        }
    }
}

/// The views of the actions, in order.
pub open spec fn action_views(actions: Seq<StorageAction>) -> Seq<ActionView> {
    actions.map_values(|action: StorageAction| action@)
}

/// A committed object.
struct Blob {
    name: String,
    bytes: Vec<u8>,
}

/// A staging object with the running digest of its bytes.
struct Staged {
    token: String,
    bytes: Vec<u8>,
    acc: Accumulator,
}

/// The right to write to one staging object, and to commit or abort it.
pub struct StagingHandle {
    token: String,
}

impl StagingHandle {
    /// The token that names the staging object.
    pub closed spec fn token(&self) -> Seq<char> {
        self.token@
    }

    /// The token that names the staging object.
    pub fn name(&self) -> (token: &String)
        ensures
            token@ == self.token(),
    {
        &self.token
    }
}

spec fn blob_at(blobs: Seq<Blob>, name: Seq<char>, i: int) -> bool {
    0 <= i < blobs.len() && blobs[i].name@ == name
}

spec fn staged_at(staging: Seq<Staged>, token: Seq<char>, i: int) -> bool {
    0 <= i < staging.len() && staging[i].token@ == token
}

spec fn blobs_match(blobs: Seq<Blob>, committed: Map<Seq<char>, Seq<u8>>) -> bool {
    &&& forall|i: int|
        0 <= i < blobs.len() ==> {
            let blob = #[trigger] blobs[i];
            committed.contains_key(blob.name@) && committed[blob.name@] == blob.bytes@
        }
    &&& forall|name: Seq<char>| #[trigger]
        committed.contains_key(name) ==> exists|i: int| blob_at(blobs, name, i)
    &&& forall|i: int, j: int|
        0 <= i < j < blobs.len() ==> (#[trigger] blobs[i]).name@ != (#[trigger] blobs[j]).name@
}

spec fn staging_match(staging: Seq<Staged>, staged: Map<Seq<char>, Seq<u8>>) -> bool {
    &&& forall|i: int|
        0 <= i < staging.len() ==> {
            let entry = #[trigger] staging[i];
            &&& staged.contains_key(entry.token@)
            &&& staged[entry.token@] == entry.bytes@
            &&& absorbed(entry.acc) == entry.bytes@
        }
    &&& forall|token: Seq<char>| #[trigger]
        staged.contains_key(token) ==> exists|i: int| staged_at(staging, token, i)
    &&& forall|i: int, j: int|
        0 <= i < j < staging.len() ==> (#[trigger] staging[i]).token@ != (
        #[trigger] staging[j]).token@
}

/// The store of blobs under one address space.
pub struct BlobStore {
    space: AddressSpace,
    blobs: Vec<Blob>,
    staging: Vec<Staged>,
    journal: Vec<StorageAction>,
    medium: Ghost<Medium>,
    durable: Ghost<Map<Seq<char>, Seq<u8>>>,
}

impl View for BlobStore {
    type V = Medium;

    closed spec fn view(&self) -> Medium {
        self.medium@
    }
}

impl BlobStore {
    /// The address space that the store resolves names in.
    pub closed spec fn space(&self) -> AddressSpace {
        self.space
    }

    /// The stored objects are those of the view, and each running digest has
    /// absorbed the bytes of its staging object.
    pub closed spec fn rep(&self) -> bool {
        blobs_match(self.blobs@, self@.committed) && staging_match(self.staging@, self@.staged)
    }

    /// The actions that were recorded since the journal was last drained,
    /// in order.
    pub closed spec fn pending(&self) -> Seq<ActionView> {
        action_views(self.journal@)
    }

    /// What the durable medium is taken to hold: what the store held when
    /// the journal was last drained, less what a failure that was reported
    /// since has shown not to be there.
    pub closed spec fn durable(&self) -> Map<Seq<char>, Seq<u8>> {
        self.durable@
    }

    /// The store is in order, whatever its journal holds.
    pub open spec fn sound(&self) -> bool {
        self.rep() && self@.wf()
    }

    /// The invariant of the store: it is in order, and a durable medium
    /// that holds what it is taken to hold will hold what the store holds
    /// now, once the pending actions are performed. The pending actions
    /// touch staging objects and committed objects only.
    pub open spec fn wf(&self) -> bool {
        &&& self.sound()
        &&& replay(self.durable(), self.pending()) == self@.disk()
        &&& forall|i: int, name: Seq<char>|
            0 <= i < self.pending().len() && #[trigger] touches(self.pending()[i], name)
                ==> valid_token(name) || self@.committed.contains_key(name)
    }

    /// An empty store under `space`.
    pub fn new(space: AddressSpace) -> (store: BlobStore)
        ensures
            store.wf(),
            store@ == Medium::empty(),
            store.space() == space,
            store.pending() == Seq::<ActionView>::empty(),
            store.durable() == Map::<Seq<char>, Seq<u8>>::empty(),
    {
        let store = BlobStore {
            space,
            blobs: Vec::new(),
            staging: Vec::new(),
            journal: Vec::new(),
            medium: Ghost(Medium::empty()),
            durable: Ghost(Map::empty()),
        };
        assert(store@.disk() =~= Map::<Seq<char>, Seq<u8>>::empty());
        store
    }

    /// The address space that the store resolves names in.
    pub fn address_space(&self) -> (space: &AddressSpace)
        ensures
            *space == self.space(),
    {
        &self.space
    }

    fn find_blob(&self, name: &String) -> (found: Option<usize>)
        requires
            self.rep(),
        ensures
            match found {
                Some(i) => i < self.blobs@.len() && self.blobs@[i as int].name@ == name@
                    && self@.committed.contains_key(name@),
                None => !self@.committed.contains_key(name@),
            },
    {
        let mut i: usize = 0;
        while i < self.blobs.len()
            invariant
                self.rep(),
                i <= self.blobs@.len(),
                forall|k: int| 0 <= k < i ==> !blob_at(self.blobs@, name@, k),
            decreases self.blobs@.len() - i,
        {
            if self.blobs[i].name == *name {
                return Some(i);
            }
            i = i + 1;
        }
        None
    }

    fn find_staged(&self, token: &String) -> (found: Option<usize>)
        requires
            self.rep(),
        ensures
            match found {
                Some(i) => i < self.staging@.len() && self.staging@[i as int].token@ == token@
                    && self@.staged.contains_key(token@),
                None => !self@.staged.contains_key(token@),
            },
    {
        let mut i: usize = 0;
        while i < self.staging.len()
            invariant
                self.rep(),
                i <= self.staging@.len(),
                forall|k: int| 0 <= k < i ==> !staged_at(self.staging@, token@, k),
            decreases self.staging@.len() - i,
        {
            if self.staging[i].token == *token {
                return Some(i);
            }
            i = i + 1;
        }
        None
    }

    /// Whether an object is committed under `name`.
    pub fn contains(&self, name: &str) -> (present: bool)
        requires
            self.wf(),
        ensures
            present == self@.committed.contains_key(name@),
    {
        let name = String::from_str(name);
        self.find_blob(&name).is_some()
    }

    /// The committed object under `name`: `InvalidName` where the name cannot
    /// be resolved, `NotFound` where nothing is committed there, and else the
    /// complete content, whose digest the name is.
    pub fn read(&self, name: &str) -> (r: Result<&Vec<u8>, StoreError>)
        requires
            self.wf(),
        ensures
            !valid_name(name@) ==> r == Err::<&Vec<u8>, StoreError>(StoreError::InvalidName),
            valid_name(name@) && !self@.committed.contains_key(name@) ==> r == Err::<
                &Vec<u8>,
                StoreError,
            >(StoreError::NotFound),
            valid_name(name@) && self@.committed.contains_key(name@) ==> r is Ok && r->Ok_0@
                == self@.committed[name@] && digest_name(r->Ok_0@) == name@,
    {
        match self.space.resolve(name) {
            Err(e) => Err(e),
            Ok(_) => {
                let name = String::from_str(name);
                match self.find_blob(&name) {
                    None => Err(StoreError::NotFound),
                    Some(i) => Ok(&self.blobs[i].bytes),
                }
            },
        }
    }

    /// Allocates the staging object named by `token` and leaves it empty.
    /// `InvalidName` where the token cannot name a staging object;
    /// `StorageIo` where a staging object is already there. The store is
    /// unchanged then.
    pub fn begin_write_at(&mut self, token: String) -> (r: Result<StagingHandle, StoreError>)
        requires
            old(self).wf(),
        ensures
            final(self).wf(),
            final(self).space() == old(self).space(),
            final(self).durable() == old(self).durable(),
            !valid_token(token@) ==> r is Err && r->Err_0 == StoreError::InvalidName,
            valid_token(token@) && old(self)@.staged.contains_key(token@) ==> r is Err
                && r->Err_0 == StoreError::StorageIo,
            valid_token(token@) && !old(self)@.staged.contains_key(token@) ==> r is Ok,
            match r {
                Ok(handle) => {
                    &&& handle.token() == token@
                    &&& final(self)@ == old(self)@.create(token@)
                    &&& final(self).pending() == old(self).pending().push(
                        ActionView::Create { name: token@ },
                    )
                },
                Err(_) => final(self)@ == old(self)@ && final(self).pending() == old(
                    self).pending(),
            },
    {
        if !is_valid_token(token.as_str()) {
            return Err(StoreError::InvalidName);
        }
        if self.find_staged(&token).is_some() {
            return Err(StoreError::StorageIo);
        }
        let ghost before = *self;
        let handle = StagingHandle { token: token.clone() };
        let name = token.clone();
        self.put_staged(Staged { token, bytes: Vec::new(), acc: accumulator_new() });
        proof {
            before@.lemma_actions_mirror_steps(name@, Seq::empty());
        }
        self.log(StorageAction::Create { name });
        Ok(handle)
    }

    /// Allocates a fresh staging object under a random token of 36
    /// characters. `StorageIo`, with the store unchanged, where the token
    /// drawn is already in use; that cannot be where no staging object has a
    /// token of that length.
    pub fn begin_write(&mut self) -> (r: Result<StagingHandle, StoreError>)
        requires
            old(self).wf(),
        ensures
            final(self).wf(),
            final(self).space() == old(self).space(),
            final(self).durable() == old(self).durable(),
            (forall|token: Seq<char>| #[trigger]
                old(self)@.staged.contains_key(token) ==> token.len() != TOKEN_LEN) ==> r is Ok,
            match r {
                Ok(handle) => {
                    &&& valid_token(handle.token())
                    &&& handle.token().len() == TOKEN_LEN
                    &&& !old(self)@.staged.contains_key(handle.token())
                    &&& final(self)@ == old(self)@.create(handle.token())
                    &&& final(self).pending() == old(self).pending().push(
                        ActionView::Create { name: handle.token() },
                    )
                },
                Err(e) => {
                    &&& e == StoreError::StorageIo
                    &&& final(self)@ == old(self)@
                    &&& final(self).pending() == old(self).pending()
                },
            },
    {
        let token = fresh_token();
        self.begin_write_at(token)
    }

    /// Appends `chunk` to the staging object of `handle` and feeds the same
    /// bytes to its running digest. `StorageIo`, with the store unchanged,
    /// where the staging object is not there.
    pub fn write(&mut self, handle: &StagingHandle, chunk: &[u8]) -> (r: Result<(), StoreError>)
        requires
            old(self).wf(),
        ensures
            final(self).wf(),
            final(self).space() == old(self).space(),
            final(self).durable() == old(self).durable(),
            r is Ok <==> old(self)@.staged.contains_key(handle.token()),
            match r {
                Ok(()) => {
                    &&& final(self)@ == old(self)@.append(handle.token(), chunk@)
                    &&& final(self).pending() == old(self).pending().push(
                        ActionView::Append { name: handle.token(), bytes: chunk@ },
                    )
                },
                Err(e) => {
                    &&& e == StoreError::StorageIo
                    &&& final(self)@ == old(self)@
                    &&& final(self).pending() == old(self).pending()
                },
            },
    {
        match self.find_staged(&handle.token) {
            None => Err(StoreError::StorageIo),
            Some(i) => {
                let ghost before = *self;
                let mut staged = self.take_staged(i);
                append_bytes(&mut staged.bytes, chunk);
                accumulator_update(&mut staged.acc, chunk);
                self.put_staged(staged);
                proof {
                    assert(self@.staged =~= before@.append(handle.token(), chunk@).staged);
                    before@.lemma_actions_mirror_steps(handle.token(), chunk@);
                }
                self.log(
                    StorageAction::Append { name: handle.token.clone(), bytes: copy_bytes(chunk) },
                );
                Ok(())
            },
        }
    }

    /// Finalizes the running digest of the staging object and promotes the
    /// object to the name of that digest, in one step. Where an object is
    /// committed under that name already, it is left untouched and the
    /// staging object is dropped. `StorageIo`, with the store unchanged,
    /// where the staging object is not there.
    pub fn commit(&mut self, handle: StagingHandle) -> (r: Result<Digest, StoreError>)
        requires
            old(self).wf(),
        ensures
            final(self).wf(),
            final(self).space() == old(self).space(),
            final(self).durable() == old(self).durable(),
            r is Ok <==> old(self)@.staged.contains_key(handle.token()),
            match r {
                Ok(digest) => {
                    &&& digest@ == sha512(old(self)@.staged[handle.token()])
                    &&& is_digest_name(digest_name(old(self)@.staged[handle.token()]))
                    &&& final(self)@ == old(self)@.promote(handle.token())
                    &&& final(self).pending() == old(self).pending().push(
                        old(self)@.commit_action(handle.token()),
                    )
                },
                Err(e) => {
                    &&& e == StoreError::StorageIo
                    &&& final(self)@ == old(self)@
                    &&& final(self).pending() == old(self).pending()
                },
            },
    {
        match self.find_staged(&handle.token) {
            None => Err(StoreError::StorageIo),
            Some(i) => {
                let ghost before = *self;
                let staged = self.take_staged(i);
                let digest = Digest::finish(staged.acc);
                let name = digest.name();
                let action = if self.find_blob(&name).is_none() {
                    let ghost middle = *self;
                    let to = name.clone();
                    self.blobs.push(Blob { name, bytes: staged.bytes });
                    self.medium = Ghost(before@.promote(handle.token()));
                    proof {
                        let last = middle.blobs@.len() as int;
                        assert forall|n: Seq<char>| #[trigger]
                            self@.committed.contains_key(n) implies exists|i: int|
                            blob_at(self.blobs@, n, i) by {
                            if n == digest_name(before@.staged[handle.token()]) {
                                assert(blob_at(self.blobs@, n, last));
                            } else {
                                let i = choose|i: int| blob_at(middle.blobs@, n, i);
                                assert(blob_at(self.blobs@, n, i));
                            }
                        }
                        assert forall|i: int, j: int| 0 <= i < j < self.blobs@.len() implies (
                        #[trigger] self.blobs@[i]).name@ != (#[trigger] self.blobs@[j]).name@ by {
                            if j == last {
                                assert(self.blobs@[i] == middle.blobs@[i]);
                            }
                        }
                    }
                    StorageAction::Promote { from: handle.token, to }
                } else {
                    assert(self@ == before@.promote(handle.token()));
                    StorageAction::Discard { name: handle.token }
                };
                proof {
                    before@.lemma_actions_mirror_steps(handle.token(), Seq::empty());
                }
                self.log(action);
                Ok(digest)
            },
        }
    }

    /// Drops the staging object of `handle` without promoting it. The
    /// committed objects stay as they are. Where the staging object is not
    /// there, nothing changes.
    pub fn abort(&mut self, handle: StagingHandle)
        requires
            old(self).wf(),
        ensures
            final(self).wf(),
            final(self).space() == old(self).space(),
            final(self).durable() == old(self).durable(),
            final(self)@ == old(self)@.discard(handle.token()),
            final(self).pending() == if old(self)@.staged.contains_key(handle.token()) {
                old(self).pending().push(ActionView::Discard { name: handle.token() })
            } else {
                old(self).pending()
            },
    {
        match self.find_staged(&handle.token) {
            None => {
                assert(self@.staged.remove(handle.token()) =~= self@.staged);
            },
            Some(i) => {
                let ghost before = *self;
                let _ = self.take_staged(i);
                proof {
                    before@.lemma_actions_mirror_steps(handle.token(), Seq::empty());
                }
                self.log(StorageAction::Discard { name: handle.token });
            },
        }
    }

    /// Takes in an object that the durable medium holds under `name` when
    /// the store is opened. It is kept as a committed object only if `name`
    /// is the name of the digest of `content`: `InvalidName` where `name`
    /// has not the shape of a digest name, `StorageIo` where the content has
    /// another digest. Nothing is recorded in the journal, since the medium
    /// holds the object already.
    pub fn restore(&mut self, name: &str, content: Vec<u8>) -> (r: Result<(), StoreError>)
        requires
            old(self).wf(),
        ensures
            final(self).wf(),
            final(self).space() == old(self).space(),
            final(self).pending() == old(self).pending(),
            !is_digest_name(name@) ==> r == Err::<(), StoreError>(StoreError::InvalidName),
            is_digest_name(name@) && digest_name(content@) != name@ ==> r == Err::<
                (),
                StoreError,
            >(StoreError::StorageIo),
            is_digest_name(name@) && digest_name(content@) == name@ ==> r is Ok,
            match r {
                Ok(()) => {
                    &&& final(self)@ == old(self)@.store(content@)
                    &&& final(self).durable() == if old(self)@.committed.contains_key(name@) {
                        old(self).durable()
                    } else {
                        old(self).durable().insert(name@, content@)
                    }
                },
                Err(_) => final(self)@ == old(self)@ && final(self).durable() == old(
                    self).durable(),
            },
    {
        if !has_digest_shape(name) {
            return Err(StoreError::InvalidName);
        }
        let found = Digest::of(content.as_slice()).name();
        let name = String::from_str(name);
        if found != name {
            return Err(StoreError::StorageIo);
        }
        if self.find_blob(&name).is_none() {
            let ghost before = *self;
            self.blobs.push(Blob { name, bytes: content });
            self.medium = Ghost(before@.store(content@));
            self.durable = Ghost(before.durable().insert(found@, content@));
            proof {
                let last = before.blobs@.len() as int;
                assert forall|n: Seq<char>| #[trigger]
                    self@.committed.contains_key(n) implies exists|i: int|
                    blob_at(self.blobs@, n, i) by {
                    if n == found@ {
                        assert(blob_at(self.blobs@, n, last));
                    } else {
                        let i = choose|i: int| blob_at(before.blobs@, n, i);
                        assert(blob_at(self.blobs@, n, i));
                    }
                }
                assert forall|i: int, j: int| 0 <= i < j < self.blobs@.len() implies (
                #[trigger] self.blobs@[i]).name@ != (#[trigger] self.blobs@[j]).name@ by {
                    if j == last {
                        assert(self.blobs@[i] == before.blobs@[i]);
                    }
                }
                assert forall|i: int| 0 <= i < before.pending().len() implies !touches(
                    #[trigger] before.pending()[i],
                    found@,
                ) by {
                    if touches(before.pending()[i], found@) {
                        assert(valid_token(found@) || before@.committed.contains_key(found@));
                    }
                }
                lemma_replay_keeps_others(
                    before.durable(),
                    before.pending(),
                    found@,
                    content@,
                );
                assert(self@.disk() =~= before@.disk().insert(found@, content@));
            }
        } else {
            assert(self@ == self@.store(content@));
        }
        Ok(())
    }

    /// The store holds, records and believes durable what `before` does.
    pub open spec fn same_as(&self, before: &BlobStore) -> bool {
        &&& self@ == before@
        &&& self.pending() == before.pending()
        &&& self.durable() == before.durable()
    }

    /// The upload staged under `token` is aborted: its staging object is
    /// dropped, and its removal from the durable medium is recorded.
    pub open spec fn aborted_from(&self, before: &BlobStore, token: Seq<char>) -> bool {
        &&& self@ == before@.discard(token)
        &&& self.pending() == with_cleanup(before.pending(), token)
        &&& self.durable() == before.durable()
    }

    /// Whether the relocation to `to` can be taken back: an object is
    /// committed there, and no action recorded since touches it.
    pub open spec fn can_take_back(&self, to: Seq<char>) -> bool {
        self@.committed.contains_key(to) && untouched(self.pending(), to)
    }

    /// The relocation of the staging object `from` to `to` is taken back:
    /// nothing is committed under `to`, the durable medium is believed to
    /// hold nothing there, and the removal of what is left of the staging
    /// object is recorded, unless the token is in use again.
    pub open spec fn taken_back_from(
        &self,
        before: &BlobStore,
        from: Seq<char>,
        to: Seq<char>,
    ) -> bool {
        &&& self@ == before@.uncommit(to)
        &&& self.durable() == before.durable().remove(to)
        &&& self.pending() == if valid_token(from) && !before@.staged.contains_key(from) {
            with_cleanup(before.pending(), from)
        } else {
            before.pending()
        }
    }

    /// Takes in that the durable medium could not perform `failed`, an
    /// action that `drain` handed out, and answers with the error to report.
    /// A failed relocation is taken back, so that nothing of the upload is
    /// visible under the name of its digest; the objects that were committed
    /// before the upload are untouched. A failed creation or a failed write
    /// aborts the upload. A failed removal changes nothing. In each case the
    /// removal of what may be left of the staging object is recorded.
    pub fn fail(&mut self, failed: &StorageAction) -> (e: StoreError)
        requires
            old(self).wf(),
        ensures
            e == StoreError::StorageIo,
            final(self).wf(),
            final(self).space() == old(self).space(),
            match failed@ {
                ActionView::Create { name } => if valid_token(name) {
                    final(self).aborted_from(old(self), name)
                } else {
                    final(self).same_as(old(self))
                },
                ActionView::Append { name, bytes } => if valid_token(name) {
                    final(self).aborted_from(old(self), name)
                } else {
                    final(self).same_as(old(self))
                },
                ActionView::Promote { from, to } => if old(self).can_take_back(to) {
                    final(self).taken_back_from(old(self), from, to)
                } else {
                    final(self).same_as(old(self))
                },
                ActionView::Discard { name } => final(self).same_as(old(self)),
            },
    {
        match failed {
            StorageAction::Create { name } => self.abort_upload(name),
            StorageAction::Append { name, bytes: _ } => self.abort_upload(name),
            StorageAction::Promote { from, to } => {
                match self.find_blob(to) {
                    None => {},
                    Some(i) => {
                        if !self.journal_touches(to) {
                            let clean = is_valid_token(from.as_str()) && self.find_staged(
                                from,
                            ).is_none();
                            self.take_blob(i);
                            if clean {
                                assert(self@.disk().remove(from@) =~= self@.disk());
                                self.log_cleanup(from);
                            }
                        }
                    },
                }
            },
            StorageAction::Discard { name: _ } => {},
        }
        StoreError::StorageIo
    }

    /// Drops the staging object under `token`, if there is one, and records
    /// its removal from the durable medium.
    fn abort_upload(&mut self, token: &String)
        requires
            old(self).wf(),
        ensures
            final(self).wf(),
            final(self).space() == old(self).space(),
            if valid_token(token@) {
                final(self).aborted_from(old(self), token@)
            } else {
                final(self).same_as(old(self))
            },
    {
        if !is_valid_token(token.as_str()) {
            return ;
        }
        let ghost before = *self;
        match self.find_staged(token) {
            None => {
                assert(self@.staged.remove(token@) =~= self@.staged);
            },
            Some(i) => {
                let _ = self.take_staged(i);
            },
        }
        assert(self@.disk() =~= before@.disk().remove(token@));
        self.log_cleanup(token);
    }

    /// Records the removal of the object under `token`, unless that is the
    /// last action recorded already.
    fn log_cleanup(&mut self, token: &String)
        requires
            old(self).sound(),
            valid_token(token@),
            replay(old(self).durable(), old(self).pending()).remove(token@) == old(
                self)@.disk(),
            forall|i: int, name: Seq<char>|
                0 <= i < old(self).pending().len() && #[trigger] touches(
                    old(self).pending()[i],
                    name,
                ) ==> valid_token(name) || old(self)@.committed.contains_key(name),
        ensures
            final(self).wf(),
            final(self).space() == old(self).space(),
            final(self).durable() == old(self).durable(),
            final(self)@ == old(self)@,
            final(self).pending() == with_cleanup(old(self).pending(), token@),
    {
        let count = self.journal.len();
        let recorded = if count == 0 {
            false
        } else {
            match &self.journal[count - 1] {
                StorageAction::Discard { name } => *name == *token,
                _ => false,
            }
        };
        if recorded {
            assert(self.pending().last() == self.journal@[count - 1]@);
            assert(self.pending().drop_last().push(self.pending().last()) =~= self.pending());
            assert(replay(self.durable(), self.pending()).remove(token@) =~= replay(
                self.durable(),
                self.pending(),
            ));
        } else {
            proof {
                if count > 0 {
                    assert(self.pending().last() == self.journal@[count - 1]@);
                }
            }
            self.log(StorageAction::Discard { name: token.clone() });
        }
    }

    /// Whether an action of the journal touches the object under `name`.
    fn journal_touches(&self, name: &String) -> (found: bool)
        ensures
            found == !untouched(self.pending(), name@),
    {
        let mut i: usize = 0;
        while i < self.journal.len()
            invariant
                i <= self.journal@.len(),
                self.pending() == action_views(self.journal@),
                forall|k: int| 0 <= k < i ==> !touches(#[trigger] self.pending()[k], name@),
            decreases self.journal@.len() - i,
        {
            let hit = match &self.journal[i] {
                StorageAction::Create { name: n } => *n == *name,
                StorageAction::Append { name: n, bytes: _ } => *n == *name,
                StorageAction::Promote { from, to } => *from == *name || *to == *name,
                StorageAction::Discard { name: n } => *n == *name,
            };
            assert(hit == touches(self.pending()[i as int], name@));
            if hit {
                return true;
            }
            i = i + 1;
        }
        false
    }

    /// Takes the committed object at index `i` out of the store, where no
    /// action of the journal touches it.
    fn take_blob(&mut self, i: usize)
        requires
            old(self).wf(),
            i < old(self).blobs@.len(),
            untouched(old(self).pending(), old(self).blobs@[i as int].name@),
        ensures
            final(self).wf(),
            final(self).space() == old(self).space(),
            final(self).pending() == old(self).pending(),
            final(self)@ == old(self)@.uncommit(old(self).blobs@[i as int].name@),
            final(self).durable() == old(self).durable().remove(
                old(self).blobs@[i as int].name@,
            ),
    {
        let ghost before = *self;
        let blob = self.blobs.remove(i);
        self.medium = Ghost(before@.uncommit(blob.name@));
        self.durable = Ghost(before.durable().remove(blob.name@));
        proof {
            assert forall|k: int| 0 <= k < self.blobs@.len() implies {
                let b = #[trigger] self.blobs@[k];
                self@.committed.contains_key(b.name@) && self@.committed[b.name@] == b.bytes@
            } by {
                if k < i {
                    assert(self.blobs@[k] == before.blobs@[k]);
                } else {
                    assert(self.blobs@[k] == before.blobs@[k + 1]);
                }
            }
            assert forall|n: Seq<char>| #[trigger] self@.committed.contains_key(n) implies exists|
                k: int,
            | blob_at(self.blobs@, n, k) by {
                let k = choose|k: int| blob_at(before.blobs@, n, k);
                if k < i {
                    assert(blob_at(self.blobs@, n, k));
                } else {
                    assert(blob_at(self.blobs@, n, k - 1));
                }
            }
            assert forall|a: int, b: int| 0 <= a < b < self.blobs@.len() implies (
            #[trigger] self.blobs@[a]).name@ != (#[trigger] self.blobs@[b]).name@ by {
                let a0 = if a < i { a } else { a + 1 };
                let b0 = if b < i { b } else { b + 1 };
                assert(self.blobs@[a] == before.blobs@[a0]);
                assert(self.blobs@[b] == before.blobs@[b0]);
            }
            lemma_replay_forgets_others(before.durable(), before.pending(), blob.name@);
            assert(self@.disk() =~= before@.disk().remove(blob.name@));
        }
    }

    /// Hands out the actions that were recorded since the journal was last
    /// drained, in order, and empties the journal. Performed in that order
    /// on the durable medium, they make it hold what the store holds now.
    /// An action that the medium cannot perform is to be handed to `fail`,
    /// and so is every action that was handed out after it.
    pub fn drain(&mut self) -> (actions: Vec<StorageAction>)
        requires
            old(self).wf(),
        ensures
            final(self).wf(),
            final(self).space() == old(self).space(),
            final(self)@ == old(self)@,
            action_views(actions@) == old(self).pending(),
            replay(old(self).durable(), action_views(actions@)) == old(self)@.disk(),
            final(self).pending() == Seq::<ActionView>::empty(),
            final(self).durable() == old(self)@.disk(),
    {
        let mut actions: Vec<StorageAction> = Vec::new();
        std::mem::swap(&mut actions, &mut self.journal);
        self.durable = Ghost(self@.disk());
        assert(self.pending() =~= Seq::<ActionView>::empty());
        actions
    }

    /// Records `action`, which carries the last step over to a durable
    /// medium.
    fn log(&mut self, action: StorageAction)
        requires
            old(self).sound(),
            perform(replay(old(self).durable(), old(self).pending()), action@) == old(
                self)@.disk(),
            forall|i: int, name: Seq<char>|
                0 <= i < old(self).pending().len() && #[trigger] touches(
                    old(self).pending()[i],
                    name,
                ) ==> valid_token(name) || old(self)@.committed.contains_key(name),
            forall|name: Seq<char>| #[trigger]
                touches(action@, name) ==> valid_token(name) || old(
                    self)@.committed.contains_key(name),
        ensures
            final(self).wf(),
            final(self).space() == old(self).space(),
            final(self).durable() == old(self).durable(),
            final(self)@ == old(self)@,
            final(self).pending() == old(self).pending().push(action@),
    {
        self.journal.push(action);
        assert(self.pending() =~= old(self).pending().push(action@));
        assert(self.pending().drop_last() =~= old(self).pending());
    }

    /// Takes the staging object at index `i` out of the store.
    fn take_staged(&mut self, i: usize) -> (staged: Staged)
        requires
            old(self).sound(),
            i < old(self).staging@.len(),
        ensures
            final(self).sound(),
            final(self).space() == old(self).space(),
            final(self).durable() == old(self).durable(),
            final(self).pending() == old(self).pending(),
            staged == old(self).staging@[i as int],
            old(self)@.staged.contains_key(staged.token@),
            old(self)@.staged[staged.token@] == staged.bytes@,
            absorbed(staged.acc) == staged.bytes@,
            valid_token(staged.token@),
            final(self)@ == old(self)@.discard(staged.token@),
            final(self).blobs == old(self).blobs,
    {
        let ghost before = *self;
        let staged = self.staging.remove(i);
        self.medium = Ghost(before@.discard(staged.token@));
        proof {
            assert forall|k: int| 0 <= k < self.staging@.len() implies {
                let s = #[trigger] self.staging@[k];
                &&& self@.staged.contains_key(s.token@)
                &&& self@.staged[s.token@] == s.bytes@
                &&& absorbed(s.acc) == s.bytes@
            } by {
                if k < i {
                    assert(self.staging@[k] == before.staging@[k]);
                } else {
                    assert(self.staging@[k] == before.staging@[k + 1]);
                }
            }
            assert forall|t: Seq<char>| #[trigger] self@.staged.contains_key(t) implies exists|
                k: int,
            | staged_at(self.staging@, t, k) by {
                let k = choose|k: int| staged_at(before.staging@, t, k);
                if k < i {
                    assert(staged_at(self.staging@, t, k));
                } else {
                    assert(staged_at(self.staging@, t, k - 1));
                }
            }
            assert forall|a: int, b: int| 0 <= a < b < self.staging@.len() implies (
            #[trigger] self.staging@[a]).token@ != (#[trigger] self.staging@[b]).token@ by {
                let a0 = if a < i { a } else { a + 1 };
                let b0 = if b < i { b } else { b + 1 };
                assert(self.staging@[a] == before.staging@[a0]);
                assert(self.staging@[b] == before.staging@[b0]);
            }
        }
        staged
    }

    /// Puts a staging object into the store under a token that is free.
    fn put_staged(&mut self, staged: Staged)
        requires
            old(self).sound(),
            valid_token(staged.token@),
            !old(self)@.staged.contains_key(staged.token@),
            absorbed(staged.acc) == staged.bytes@,
        ensures
            final(self).sound(),
            final(self).space() == old(self).space(),
            final(self).durable() == old(self).durable(),
            final(self).pending() == old(self).pending(),
            final(self)@.committed == old(self)@.committed,
            final(self)@.staged == old(self)@.staged.insert(staged.token@, staged.bytes@),
    {
        let ghost before = *self;
        let ghost token = staged.token@;
        let ghost bytes = staged.bytes@;
        self.staging.push(staged);
        self.medium = Ghost(
            Medium { committed: before@.committed, staged: before@.staged.insert(token, bytes) },
        );
        proof {
            let last = before.staging@.len() as int;
            assert forall|t: Seq<char>| #[trigger] self@.staged.contains_key(t) implies exists|
                i: int,
            | staged_at(self.staging@, t, i) by {
                if t == token {
                    assert(staged_at(self.staging@, t, last));
                } else {
                    let i = choose|i: int| staged_at(before.staging@, t, i);
                    assert(staged_at(self.staging@, t, i));
                }
            }
            assert forall|i: int, j: int| 0 <= i < j < self.staging@.len() implies (
            #[trigger] self.staging@[i]).token@ != (#[trigger] self.staging@[j]).token@ by {
                if j == last {
                    assert(self.staging@[i] == before.staging@[i]);
                }
            }
        }
    }
}

} // verus!
