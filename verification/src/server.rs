//! The interface that a network front end calls: upload, download, and the
//! store that both work on.
use crate::address::{valid_name, AddressSpace};
use crate::blob::{fresh_token, BlobStore, TOKEN_LEN};
use crate::digest::{digest_name, is_digest_name};
use crate::error::StoreError;
use crate::medium::{joined, valid_token, ActionView, Medium};
use vstd::prelude::*;

verus! {

/// The store that uploads and downloads work on.
pub struct Server {
    pub blobs: BlobStore,
}

/// `dirs::home_dir`: the home directory of the current user, where the
/// platform knows one. `None` also where its path is not valid Unicode.
#[verifier::external_body]
fn home_dir() -> (home: Option<String>) {
    match dirs::home_dir() {
        Some(path) => match path.to_str() {
            Some(text) => Some(text.to_string()),
            None => None,
        },
        None => None,
    }
}

/// What a request asks of the store.
#[derive(Debug, PartialEq, Eq)]
pub enum Route {
    /// The blob named `hash` is asked for.
    Download { hash: String },
    /// The body of the request is a blob to store.
    Upload,
    /// The body of the request is a record to enter in the index of
    /// records.
    Index,
    /// Nothing that the store serves.
    Unknown,
}

/// Whether `path` asks for a blob: it starts with `/store/`.
pub open spec fn is_download_path(path: Seq<char>) -> bool {
    path.len() >= 7 && path.subrange(0, 7) == "/store/"@
}

/// Decides what a request asks for: a `GET` of a path that starts with
/// `/store/` is a download of the blob named by the rest of the path, a
/// `POST` of `/store` is an upload, a `POST` of `/index` submits a record,
/// and nothing else is served.
pub fn route(method: &str, path: &str) -> (r: Route)
    ensures
        match r {
            Route::Download { hash } => method@ == "GET"@ && is_download_path(path@) && hash@
                == path@.subrange(7, path@.len() as int),
            Route::Upload => method@ == "POST"@ && path@ == "/store"@,
            Route::Index => method@ == "POST"@ && path@ == "/index"@,
            Route::Unknown => !(method@ == "GET"@ && is_download_path(path@)) && !(method@
                == "POST"@ && (path@ == "/store"@ || path@ == "/index"@)),
        },
{
    proof {
        reveal_strlit("GET");
        reveal_strlit("POST");
        reveal_strlit("/store/");
        reveal_strlit("/store");
        reveal_strlit("/index");
        assert("GET"@.len() == 3 && "POST"@.len() == 4);
        assert("/store"@[1] == 's' && "/index"@[1] == 'i');
    }
    let method = String::from_str(method);
    let length = path.unicode_len();
    if method == String::from_str("GET") {
        if length >= 7 && String::from_str(path.substring_char(0, 7)) == String::from_str(
            "/store/",
        ) {
            Route::Download { hash: String::from_str(path.substring_char(7, length)) }
        } else {
            Route::Unknown
        }
    } else if method == String::from_str("POST") {
        let path = String::from_str(path);
        if path == String::from_str("/store") {
            Route::Upload
        } else if path == String::from_str("/index") {
            Route::Index
        } else {
            Route::Unknown
        }
    } else {
        Route::Unknown
    }
}

/// The root of the store that belongs to the home directory `home`.
pub open spec fn store_root(home: Seq<char>) -> Seq<char> {
    home + "/.arcjet"@
}

/// The chunks of a body as plain byte strings.
pub open spec fn chunk_views(body: Seq<Vec<u8>>) -> Seq<Seq<u8>> {
    body.map_values(|chunk: Vec<u8>| chunk@)
}

/// An empty store under the current user's home directory, or `None`
/// where no home directory is known.
pub fn new() -> (r: Option<Server>)
    ensures
        match r {
            Some(server) => server.wf() && server.is_empty() && exists|home: Seq<char>|
                server.root() == #[trigger] store_root(home),
            None => true,
        },
{
    Server::for_home(home_dir())
}

impl Server {
    /// The invariant of the server.
    pub open spec fn wf(&self) -> bool {
        self.blobs.wf()
    }

    /// The root directory of the store.
    pub open spec fn root(&self) -> Seq<char> {
        self.blobs.space().root()
    }

    /// Nothing is stored.
    pub open spec fn is_empty(&self) -> bool {
        self.blobs@ == Medium::empty()
    }

    /// An empty store under `root`.
    pub fn at(root: String) -> (server: Server)
        ensures
            server.wf(),
            server.is_empty(),
            server.root() == root@,
    {
        Server { blobs: BlobStore::new(AddressSpace::new(root)) }
    }

    /// An empty store in the directory `.arcjet` of the home directory
    /// `home`.
    pub fn under(home: String) -> (server: Server)
        ensures
            server.wf(),
            server.is_empty(),
            server.root() == store_root(home@),
    {
        let mut root = home;
        root.append("/.arcjet");
        Server::at(root)
    }

    /// The store of a user whose home directory is `home`: an empty store
    /// in the directory `.arcjet` of that directory, and none where no home
    /// directory is known.
    pub fn for_home(home: Option<String>) -> (r: Option<Server>)
        ensures
            home is None ==> r is None,
            home is Some ==> r is Some && r->Some_0.wf() && r->Some_0.is_empty()
                && r->Some_0.root() == store_root(home->Some_0@),
    {
        match home {
            Some(home) => Some(Server::under(home)),
            None => None,
        }
    }

    /// Uploads a body that arrives in chunks, staging it under `token`:
    /// the chunks are staged in order, and the staged object is committed
    /// under the digest of all their bytes. Returns the name of the digest.
    /// A body that is stored already is a success and changes nothing.
    /// `InvalidName` where the token cannot name a staging object and
    /// `StorageIo` where it is in use; the store is then unchanged.
    pub fn set_at(&mut self, token: String, body: &Vec<Vec<u8>>) -> (r: Result<
        String,
        StoreError,
    >)
        requires
            old(self).wf(),
        ensures
            final(self).wf(),
            final(self).root() == old(self).root(),
            final(self).blobs.durable() == old(self).blobs.durable(),
            !valid_token(token@) ==> r is Err && r->Err_0 == StoreError::InvalidName,
            valid_token(token@) && old(self).blobs@.staged.contains_key(token@) ==> r is Err
                && r->Err_0 == StoreError::StorageIo,
            valid_token(token@) && !old(self).blobs@.staged.contains_key(token@) ==> r is Ok,
            match r {
                Ok(name) => {
                    let content = joined(chunk_views(body@));
                    &&& name@ == digest_name(content)
                    &&& is_digest_name(name@)
                    &&& final(self).blobs@ == old(self).blobs@.store(content)
                    &&& final(self).blobs.pending() == old(self).blobs.pending() + old(
                        self).blobs@.upload_actions(token@, chunk_views(body@))
                },
                Err(_) => {
                    &&& final(self).blobs@ == old(self).blobs@
                    &&& final(self).blobs.pending() == old(self).blobs.pending()
                },
            },
    {
        let ghost before = self.blobs@;
        let ghost recorded = self.blobs.pending();
        let ghost chunks = chunk_views(body@);
        let handle = match self.blobs.begin_write_at(token) {
            Ok(handle) => handle,
            Err(e) => {
                return Err(e);
            },
        };
        let mut i: usize = 0;
        proof {
            assert(chunks.subrange(0, 0) =~= Seq::<Seq<u8>>::empty());
            assert(self.blobs.pending() =~= recorded + seq![ActionView::Create { name: token@ }]
                + chunks.subrange(0, 0).map_values(
                |chunk: Seq<u8>| ActionView::Append { name: token@, bytes: chunk },
            ));
        }
        while i < body.len()
            invariant
                i <= body@.len(),
                chunks == chunk_views(body@),
                self.blobs.wf(),
                self.blobs.space() == old(self).blobs.space(),
                self.blobs.durable() == old(self).blobs.durable(),
                handle.token() == token@,
                !before.staged.contains_key(token@),
                self.blobs@.committed == before.committed,
                self.blobs@.staged == before.staged.insert(
                    token@,
                    joined(chunks.subrange(0, i as int)),
                ),
                self.blobs.pending() == recorded + seq![ActionView::Create { name: token@ }]
                    + chunks.subrange(0, i as int).map_values(
                    |chunk: Seq<u8>| ActionView::Append { name: token@, bytes: chunk },
                ),
            decreases body@.len() - i,
        {
            match self.blobs.write(&handle, body[i].as_slice()) {
                Ok(()) => {},
                Err(e) => {
                    self.blobs.abort(handle);
                    return Err(e);
                },
            }
            proof {
                assert(chunks.subrange(0, i + 1).drop_last() =~= chunks.subrange(0, i as int));
                assert(chunks.subrange(0, i + 1).last() == body@[i as int]@);
                assert(chunks.subrange(0, i + 1).map_values(
                    |chunk: Seq<u8>| ActionView::Append { name: token@, bytes: chunk },
                ) =~= chunks.subrange(0, i as int).map_values(
                    |chunk: Seq<u8>| ActionView::Append { name: token@, bytes: chunk },
                ).push(ActionView::Append { name: token@, bytes: body@[i as int]@ }));
            }
            i = i + 1;
        }
        assert(chunks.subrange(0, i as int) =~= chunks);
        match self.blobs.commit(handle) {
            Ok(digest) => {
                proof {
                    assert(self.blobs@.staged =~= before.staged);
                    assert(self.blobs.pending() =~= recorded + before.upload_actions(
                        token@,
                        chunks,
                    ));
                }
                Ok(digest.name())
            },
            Err(e) => Err(e),
        }
    }

    /// Uploads a body that arrives in chunks, staging it under a random
    /// token of 36 characters. Returns the name of the digest of all its
    /// bytes, under which it is then committed. `StorageIo`, with the store
    /// unchanged, where the token drawn is in use; that cannot be where no
    /// staging object has a token of that length.
    pub fn set(&mut self, body: &Vec<Vec<u8>>) -> (r: Result<String, StoreError>)
        requires
            old(self).wf(),
        ensures
            final(self).wf(),
            final(self).root() == old(self).root(),
            final(self).blobs.durable() == old(self).blobs.durable(),
            (forall|token: Seq<char>| #[trigger]
                old(self).blobs@.staged.contains_key(token) ==> token.len() != TOKEN_LEN)
                ==> r is Ok,
            match r {
                Ok(name) => {
                    let content = joined(chunk_views(body@));
                    &&& name@ == digest_name(content)
                    &&& is_digest_name(name@)
                    &&& final(self).blobs@ == old(self).blobs@.store(content)
                    &&& exists|token: Seq<char>|
                        valid_token(token) && token.len() == TOKEN_LEN && final(
                            self).blobs.pending() == old(
                            self).blobs.pending() + #[trigger] old(self).blobs@.upload_actions(
                            token,
                            chunk_views(body@),
                        )
                },
                Err(e) => {
                    &&& e == StoreError::StorageIo
                    &&& final(self).blobs@ == old(self).blobs@
                    &&& final(self).blobs.pending() == old(self).blobs.pending()
                },
            },
    {
        let token = fresh_token();
        let ghost drawn = token@;
        let r = self.set_at(token, body);
        proof {
            if r is Ok {
                assert(valid_token(drawn) && drawn.len() == TOKEN_LEN && self.blobs.pending()
                    == old(self).blobs.pending()
                    + old(self).blobs@.upload_actions(drawn, chunk_views(body@)));
            }
        }
        r
    }

    /// Downloads the blob named `hash`: its complete content where a blob
    /// is committed under that name, and `None` where the name cannot be
    /// resolved or nothing is committed there.
    pub fn get(&self, hash: &str) -> (r: Option<&Vec<u8>>)
        requires
            self.wf(),
        ensures
            r is Some <==> valid_name(hash@) && self.blobs@.committed.contains_key(hash@),
            r is Some ==> r->Some_0@ == self.blobs@.committed[hash@] && digest_name(r->Some_0@)
                == hash@,
    {
        match self.blobs.read(hash) {
            Ok(bytes) => Some(bytes),
            Err(_) => None,
        }
    }
}

} // verus!
