//! The model of the store: what it holds, the steps that change it, and
//! the actions that carry each step over to a durable medium.
use crate::address::valid_name;
use crate::digest::{
    digest_name, is_digest_name, lemma_hex_text_of_digest, sha512, DIGEST_LEN, DIGEST_NAME_LEN,
};
use vstd::prelude::*;

verus! {

/// A name that can stand for a staging object: resolvable, and never of the
/// length of a digest name, so that the two namespaces cannot collide.
pub open spec fn valid_token(token: Seq<char>) -> bool {
    valid_name(token) && token.len() != DIGEST_NAME_LEN
}

/// All the chunks, one after the other.
pub open spec fn joined(chunks: Seq<Seq<u8>>) -> Seq<u8>
    decreases chunks.len(),
{
    if chunks.len() == 0 {
        Seq::empty()
    } else {
        joined(chunks.drop_last()) + chunks.last()
    }
}

/// What the store holds: the committed objects by digest name, and the
/// staging objects by token.
pub struct Medium {
    pub committed: Map<Seq<char>, Seq<u8>>,
    pub staged: Map<Seq<char>, Seq<u8>>,
}

impl Medium {
    /// A medium without objects.
    pub open spec fn empty() -> Medium {
        Medium { committed: Map::empty(), staged: Map::empty() }
    }

    /// An empty staging object appears under `token`.
    pub open spec fn create(self, token: Seq<char>) -> Medium {
        Medium { committed: self.committed, staged: self.staged.insert(token, Seq::empty()) }
    }

    /// `chunk` is appended to the staging object under `token`.
    pub open spec fn append(self, token: Seq<char>, chunk: Seq<u8>) -> Medium {
        Medium {
            committed: self.committed,
            staged: self.staged.insert(token, self.staged[token] + chunk),
        }
    }

    /// The staging object under `token` leaves the staging area. It becomes
    /// the committed object under the name of its digest, unless an object is
    /// committed there already, which then stays as it is.
    pub open spec fn promote(self, token: Seq<char>) -> Medium {
        let content = self.staged[token];
        let name = digest_name(content);
        Medium {
            committed: if self.committed.contains_key(name) {
                self.committed
            } else {
                self.committed.insert(name, content)
            },
            staged: self.staged.remove(token),
        }
    }

    /// The staging object under `token` is dropped.
    pub open spec fn discard(self, token: Seq<char>) -> Medium {
        Medium { committed: self.committed, staged: self.staged.remove(token) }
    }

    /// The object committed under `name` is taken back: a relocation that
    /// the durable medium could not perform leaves nothing under the name.
    pub open spec fn uncommit(self, name: Seq<char>) -> Medium {
        Medium { committed: self.committed.remove(name), staged: self.staged }
    }

    /// `content` is committed under the name of its digest, unless an
    /// object is committed there already. The staging area is as before.
    pub open spec fn store(self, content: Seq<u8>) -> Medium {
        let name = digest_name(content);
        Medium {
            committed: if self.committed.contains_key(name) {
                self.committed
            } else {
                self.committed.insert(name, content)
            },
            staged: self.staged,
        }
    }

    /// The action that commits the staging object under `token`: a rename
    /// to the name of its digest, or, where an object is committed there
    /// already, the removal of the staging object.
    pub open spec fn commit_action(self, token: Seq<char>) -> ActionView {
        let name = digest_name(self.staged[token]);
        if self.committed.contains_key(name) {
            ActionView::Discard { name: token }
        } else {
            ActionView::Promote { from: token, to: name }
        }
    }

    /// The actions of one upload of `chunks` that is staged under `token`:
    /// the staging object is created, the chunks are appended in order, and
    /// the object is committed.
    pub open spec fn upload_actions(self, token: Seq<char>, chunks: Seq<Seq<u8>>) -> Seq<
        ActionView,
    > {
        let name = digest_name(joined(chunks));
        seq![ActionView::Create { name: token }] + chunks.map_values(
            |chunk: Seq<u8>| ActionView::Append { name: token, bytes: chunk },
        ) + seq![
            if self.committed.contains_key(name) {
                ActionView::Discard { name: token }
            } else {
                ActionView::Promote { from: token, to: name }
            },
        ]
    }

    /// The objects as a durable medium holds them: the committed and the
    /// staging objects in one directory, each under its name.
    pub open spec fn disk(self) -> Map<Seq<char>, Seq<u8>> {
        self.committed.union_prefer_right(self.staged)
    }

    /// Every committed object is named by the digest of its own content.
    pub open spec fn content_addressed(self) -> bool {
        forall|name: Seq<char>| #[trigger]
            self.committed.contains_key(name) ==> name == digest_name(self.committed[name])
                && is_digest_name(name)
    }

    /// Every staging object is named by a token.
    pub open spec fn segregated(self) -> bool {
        forall|token: Seq<char>| #[trigger]
            self.staged.contains_key(token) ==> valid_token(token)
    }

    /// The invariant of the medium.
    pub open spec fn wf(self) -> bool {
        self.content_addressed() && self.segregated()
    }
}

impl Medium {
    /// The two namespaces never collide: no name is that of a committed
    /// object and of a staging object at once.
    pub proof fn lemma_namespaces_disjoint(self, name: Seq<char>)
        requires
            self.wf(),
        ensures
            !(self.committed.contains_key(name) && self.staged.contains_key(name)),
    {
    }

    /// Staging is invisible to readers: allocating a staging object,
    /// writing to it and dropping it leave every committed object as it is.
    pub proof fn lemma_staging_invisible(self, token: Seq<char>, chunk: Seq<u8>)
        ensures
            self.create(token).committed == self.committed,
            self.append(token, chunk).committed == self.committed,
            self.discard(token).committed == self.committed,
    {
    }

    /// The invariant of the medium is kept by every step that does not
    /// commit, and by a commit whose digest has the length of a digest.
    pub proof fn lemma_steps_keep_wf(self, token: Seq<char>, chunk: Seq<u8>)
        requires
            self.wf(),
        ensures
            valid_token(token) ==> self.create(token).wf(),
            self.staged.contains_key(token) ==> self.append(token, chunk).wf(),
            self.discard(token).wf(),
            sha512(self.staged[token]).len() == DIGEST_LEN ==> self.promote(token).wf(),
    {
        if sha512(self.staged[token]).len() == DIGEST_LEN {
            lemma_hex_text_of_digest(sha512(self.staged[token]));
        }
    }

    /// A commit is one step for every reader: after it, a name holds either
    /// nothing, or what was committed under it before, or the complete
    /// content of the staging object, whose digest then has that name.
    pub proof fn lemma_commit_is_atomic(self, token: Seq<char>, name: Seq<char>)
        requires
            self.staged.contains_key(token),
        ensures
            ({
                let after = self.promote(token).committed;
                let content = self.staged[token];
                ||| !after.contains_key(name)
                ||| self.committed.contains_key(name) && after[name] == self.committed[name]
                ||| !self.committed.contains_key(name) && name == digest_name(content)
                    && after[name] == content
            }),
    {
    }

    /// Committing the same content a second time changes no committed
    /// object, and the content is found under the name of its digest. This
    /// holds wherever no other content is committed under that name.
    pub proof fn lemma_commit_twice(self, first: Seq<char>, second: Seq<char>, content: Seq<u8>)
        requires
            first != second,
            self.staged.contains_key(first) && self.staged[first] == content,
            self.staged.contains_key(second) && self.staged[second] == content,
            self.committed.contains_key(digest_name(content)) ==> self.committed[digest_name(
                content,
            )] == content,
        ensures
            ({
                let once = self.promote(first);
                let twice = once.promote(second);
                &&& once.committed.contains_key(digest_name(content))
                &&& once.committed[digest_name(content)] == content
                &&& twice.committed == once.committed
                &&& twice.staged == self.staged.remove(first).remove(second)
            }),
    {
    }

    /// Writers do not disturb each other: steps on different staging
    /// objects can be taken in either order, and the commit of one staging
    /// object leaves the others as they are.
    pub proof fn lemma_writers_independent(
        self,
        a: Seq<char>,
        b: Seq<char>,
        chunk_a: Seq<u8>,
        chunk_b: Seq<u8>,
    )
        requires
            a != b,
        ensures
            self.create(a).create(b) == self.create(b).create(a),
            self.append(a, chunk_a).append(b, chunk_b) == self.append(b, chunk_b).append(
                a,
                chunk_a,
            ),
            self.create(a).append(b, chunk_b) == self.append(b, chunk_b).create(a),
            self.discard(a).append(b, chunk_b) == self.append(b, chunk_b).discard(a),
            self.promote(a).staged.contains_key(b) == self.staged.contains_key(b),
            self.promote(a).staged[b] == self.staged[b],
    {
        assert(self.create(a).create(b).staged =~= self.create(b).create(a).staged);
        assert(self.append(a, chunk_a).append(b, chunk_b).staged =~= self.append(
            b,
            chunk_b,
        ).append(a, chunk_a).staged);
        assert(self.create(a).append(b, chunk_b).staged =~= self.append(b, chunk_b).create(
            a,
        ).staged);
        assert(self.discard(a).append(b, chunk_b).staged =~= self.append(b, chunk_b).discard(
            a,
        ).staged);
    }

    /// An upload is one store: staging content under a free token, writing
    /// it in any number of chunks and committing it stores the content, and
    /// leaves the staging area as it was.
    pub proof fn lemma_upload_is_store(self, token: Seq<char>, first: Seq<u8>, second: Seq<u8>)
        requires
            !self.staged.contains_key(token),
        ensures
            self.create(token).append(token, first).append(token, second).promote(token)
                == self.store(first + second),
    {
        let staged = self.create(token).append(token, first).append(token, second);
        assert(staged.staged[token] =~= first + second);
        assert(staged.promote(token).staged =~= self.staged);
    }

    /// A failed relocation leaves the committed objects as they were before
    /// the upload: where the content was not committed before, taking the
    /// new object back restores the store; where it was, the upload changed
    /// no committed object and nothing is relocated.
    pub proof fn lemma_failed_relocation_restores(self, content: Seq<u8>)
        ensures
            !self.committed.contains_key(digest_name(content)) ==> self.store(content).uncommit(
                digest_name(content),
            ) == self,
            self.committed.contains_key(digest_name(content)) ==> self.store(content) == self,
    {
        let name = digest_name(content);
        if !self.committed.contains_key(name) {
            assert(self.store(content).uncommit(name).committed =~= self.committed);
        }
    }

    /// Storing the same content twice is the same as storing it once.
    pub proof fn lemma_store_idempotent(self, content: Seq<u8>)
        ensures
            self.store(content).store(content) == self.store(content),
            self.store(content).committed.contains_key(digest_name(content)),
    {
    }

    /// Dropping a staging object frees its token, and leaves nothing under
    /// the name of its digest unless something was committed there before.
    pub proof fn lemma_abort_leaves_nothing(self, token: Seq<char>)
        requires
            !self.committed.contains_key(digest_name(self.staged[token])),
        ensures
            !self.discard(token).staged.contains_key(token),
            !self.discard(token).committed.contains_key(digest_name(self.staged[token])),
    {
    }

    /// Each step of the store is carried over to a durable medium by one
    /// action: performing the action on the objects as they were gives the
    /// objects as they are after the step.
    pub proof fn lemma_actions_mirror_steps(self, token: Seq<char>, chunk: Seq<u8>)
        requires
            self.wf(),
        ensures
            perform(self.disk(), ActionView::Create { name: token }) == self.create(token).disk(),
            self.staged.contains_key(token) ==> perform(
                self.disk(),
                ActionView::Append { name: token, bytes: chunk },
            ) == self.append(token, chunk).disk(),
            self.staged.contains_key(token) && is_digest_name(digest_name(self.staged[token]))
                ==> perform(self.disk(), self.commit_action(token)) == self.promote(token).disk(),
            self.staged.contains_key(token) ==> perform(
                self.disk(),
                ActionView::Discard { name: token },
            ) == self.discard(token).disk(),
    {
        assert(perform(self.disk(), ActionView::Create { name: token }) =~= self.create(
            token,
        ).disk());
        if self.staged.contains_key(token) {
            assert(perform(self.disk(), ActionView::Append { name: token, bytes: chunk })
                =~= self.append(token, chunk).disk());
            assert(!self.committed.contains_key(token));
            assert(perform(self.disk(), ActionView::Discard { name: token }) =~= self.discard(
                token,
            ).disk());
            let name = digest_name(self.staged[token]);
            if is_digest_name(name) {
                assert(!self.staged.contains_key(name));
                assert(perform(self.disk(), self.commit_action(token)) =~= self.promote(
                    token,
                ).disk());
            }
        }
    }
}

/// One action on a durable medium that holds objects under their names.
pub enum ActionView {
    /// An empty object appears under `name`.
    Create { name: Seq<char> },
    /// `bytes` are appended to the object under `name`.
    Append { name: Seq<char>, bytes: Seq<u8> },
    /// The object under `from` is renamed to `to`, in one step.
    Promote { from: Seq<char>, to: Seq<char> },
    /// The object under `name` is removed.
    Discard { name: Seq<char> },
}

/// What a durable medium holds after `action`.
pub open spec fn perform(disk: Map<Seq<char>, Seq<u8>>, action: ActionView) -> Map<
    Seq<char>,
    Seq<u8>,
> {
    match action {
        ActionView::Create { name } => disk.insert(name, Seq::empty()),
        ActionView::Append { name, bytes } => disk.insert(name, disk[name] + bytes),
        ActionView::Promote { from, to } => disk.insert(to, disk[from]).remove(from),
        ActionView::Discard { name } => disk.remove(name),
    }
}

/// Whether `action` reads or changes the object under `name`.
pub open spec fn touches(action: ActionView, name: Seq<char>) -> bool {
    match action {
        ActionView::Create { name: n } => n == name,
        ActionView::Append { name: n, bytes } => n == name,
        ActionView::Promote { from, to } => from == name || to == name,
        ActionView::Discard { name: n } => n == name,
    }
}

/// None of the actions reads or changes the object under `name`.
pub open spec fn untouched(actions: Seq<ActionView>, name: Seq<char>) -> bool {
    forall|i: int| 0 <= i < actions.len() ==> !touches(#[trigger] actions[i], name)
}

/// The actions, followed by the removal of the object under `token` unless
/// that is their last action already.
pub open spec fn with_cleanup(actions: Seq<ActionView>, token: Seq<char>) -> Seq<ActionView> {
    if actions.len() > 0 && actions.last() == (ActionView::Discard { name: token }) {
        actions
    } else {
        actions.push(ActionView::Discard { name: token })
    }
}

/// What a durable medium holds after `actions`, performed in order.
pub open spec fn replay(disk: Map<Seq<char>, Seq<u8>>, actions: Seq<ActionView>) -> Map<
    Seq<char>,
    Seq<u8>,
>
    decreases actions.len(),
{
    if actions.len() == 0 {
        disk
    } else {
        perform(replay(disk, actions.drop_last()), actions.last())
    }
}

/// An object that an action does not touch is on the medium after the
/// action as it was before.
pub proof fn lemma_perform_keeps_others(
    disk: Map<Seq<char>, Seq<u8>>,
    action: ActionView,
    name: Seq<char>,
    content: Seq<u8>,
)
    requires
        !touches(action, name),
    ensures
        perform(disk.insert(name, content), action) == perform(disk, action).insert(
            name,
            content,
        ),
{
    assert(perform(disk.insert(name, content), action) =~= perform(disk, action).insert(
        name,
        content,
    ));
}

/// An object that none of the actions touches is on the medium after them
/// as it was before.
pub proof fn lemma_replay_keeps_others(
    disk: Map<Seq<char>, Seq<u8>>,
    actions: Seq<ActionView>,
    name: Seq<char>,
    content: Seq<u8>,
)
    requires
        forall|i: int| 0 <= i < actions.len() ==> !touches(#[trigger] actions[i], name),
    ensures
        replay(disk.insert(name, content), actions) == replay(disk, actions).insert(
            name,
            content,
        ),
    decreases actions.len(),
{
    if actions.len() > 0 {
        lemma_replay_keeps_others(disk, actions.drop_last(), name, content);
        lemma_perform_keeps_others(
            replay(disk, actions.drop_last()),
            actions.last(),
            name,
            content,
        );
    }
}

/// Where no object is under a name and none of the actions touches the
/// name, no object is under it after them.
pub proof fn lemma_replay_forgets_others(
    disk: Map<Seq<char>, Seq<u8>>,
    actions: Seq<ActionView>,
    name: Seq<char>,
)
    requires
        untouched(actions, name),
    ensures
        replay(disk.remove(name), actions) == replay(disk, actions).remove(name),
    decreases actions.len(),
{
    if actions.len() > 0 {
        let before = actions.drop_last();
        let last = actions.last();
        assert(untouched(before, name)) by {
            assert forall|i: int| 0 <= i < before.len() implies !touches(
                #[trigger] before[i],
                name,
            ) by {
                assert(before[i] == actions[i]);
            }
        }
        lemma_replay_forgets_others(disk, before, name);
        assert(!touches(last, name));
        assert(perform(replay(disk, before).remove(name), last) =~= perform(
            replay(disk, before),
            last,
        ).remove(name));
    } else {
        assert(replay(disk.remove(name), actions) =~= replay(disk, actions).remove(name));
    }
}

} // verus!
