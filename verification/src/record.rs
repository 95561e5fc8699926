//! Signed records: metadata bound to a blob by the digest of the metadata's
//! canonical encoding and by a signature over that digest.
use crate::bytes::{append_bytes, bytes_equal, copy_bytes};
use crate::digest::{sha512, Digest};
use crate::error::VerificationError;
use vstd::bytes::{
    lemma_auto_spec_u64_to_from_le_bytes, spec_u64_from_le_bytes, spec_u64_to_le_bytes,
    u64_to_le_bytes,
};
use vstd::prelude::*;

verus! {

/// The version of the canonical encoding, its first byte.
pub const ENCODING_VERSION: u8 = 1;

/// What a submitter states about a blob. Only the public key is required;
/// the other fields may be empty.
#[derive(Debug, PartialEq, Eq)]
pub struct Metadata {
    pub public_key: Vec<u8>,
    pub user: Vec<u8>,
    pub site: Vec<u8>,
    pub link: Vec<u8>,
    pub tag: Vec<u8>,
    pub time: u8,
    pub kind: Vec<u8>,
    pub version: Vec<u8>,
    pub network: Vec<u8>,
}

/// The metadata as plain values.
pub struct MetadataView {
    pub public_key: Seq<u8>,
    pub user: Seq<u8>,
    pub site: Seq<u8>,
    pub link: Seq<u8>,
    pub tag: Seq<u8>,
    pub time: u8,
    pub kind: Seq<u8>,
    pub version: Seq<u8>,
    pub network: Seq<u8>,
}

impl View for Metadata {
    type V = MetadataView;

    open spec fn view(&self) -> MetadataView {
        MetadataView {
            public_key: self.public_key@,
            user: self.user@,
            site: self.site@,
            link: self.link@,
            tag: self.tag@,
            time: self.time,
            kind: self.kind@,
            version: self.version@,
            network: self.network@,
        }
    }
}

impl Clone for Metadata {
    fn clone(&self) -> (copy: Metadata)
        ensures
            copy@ == self@,
    {
        Metadata {
            public_key: copy_bytes(self.public_key.as_slice()),
            user: copy_bytes(self.user.as_slice()),
            site: copy_bytes(self.site.as_slice()),
            link: copy_bytes(self.link.as_slice()),
            tag: copy_bytes(self.tag.as_slice()),
            time: self.time,
            kind: copy_bytes(self.kind.as_slice()),
            version: copy_bytes(self.version.as_slice()),
            network: copy_bytes(self.network.as_slice()),
        }
    }
}

/// One field of the canonical encoding: the length as eight little-endian
/// bytes, then the bytes themselves.
pub open spec fn field(bytes: Seq<u8>) -> Seq<u8> {
    spec_u64_to_le_bytes(bytes.len() as u64) + bytes
}

/// The canonical encoding of metadata: the encoding version, then the
/// fields in a fixed order, each with its length in front.
pub open spec fn canonical(m: MetadataView) -> Seq<u8> {
    seq![ENCODING_VERSION] + (field(m.public_key) + (field(m.user) + (field(m.site) + (field(
        m.link,
    ) + (field(m.tag) + (seq![m.time] + (field(m.kind) + (field(m.version) + field(
        m.network,
    )))))))))
}

impl MetadataView {
    /// Every field is short enough for its length to fit in eight bytes.
    pub open spec fn bounded(self) -> bool {
        &&& self.public_key.len() <= u64::MAX
        &&& self.user.len() <= u64::MAX
        &&& self.site.len() <= u64::MAX
        &&& self.link.len() <= u64::MAX
        &&& self.tag.len() <= u64::MAX
        &&& self.kind.len() <= u64::MAX
        &&& self.version.len() <= u64::MAX
        &&& self.network.len() <= u64::MAX
    }
}

fn push_field(out: &mut Vec<u8>, bytes: &Vec<u8>)
    ensures
        final(out)@ == old(out)@ + field(bytes@),
{
    let ghost before = out@;
    let length = u64_to_le_bytes(bytes.len() as u64);
    append_bytes(out, length.as_slice());
    append_bytes(out, bytes.as_slice());
    assert(out@ =~= before + field(bytes@));
}

impl Metadata {
    /// The canonical encoding of the metadata.
    pub fn serialize(&self) -> (bytes: Vec<u8>)
        ensures
            bytes@ == canonical(self@),
    {
        let mut out: Vec<u8> = Vec::new();
        out.push(ENCODING_VERSION);
        push_field(&mut out, &self.public_key);
        push_field(&mut out, &self.user);
        push_field(&mut out, &self.site);
        push_field(&mut out, &self.link);
        push_field(&mut out, &self.tag);
        out.push(self.time);
        push_field(&mut out, &self.kind);
        push_field(&mut out, &self.version);
        push_field(&mut out, &self.network);
        proof {
            let m = self@;
            let t8 = field(m.network);
            let t7 = field(m.version) + t8;
            let t6 = field(m.kind) + t7;
            let t5 = seq![m.time] + t6;
            let t4 = field(m.tag) + t5;
            let t3 = field(m.link) + t4;
            let t2 = field(m.site) + t3;
            let t1 = field(m.user) + t2;
            let t0 = field(m.public_key) + t1;
            let h0 = seq![ENCODING_VERSION];
            let h1 = h0 + field(m.public_key);
            let h2 = h1 + field(m.user);
            let h3 = h2 + field(m.site);
            let h4 = h3 + field(m.link);
            let h5 = h4 + field(m.tag);
            let h6 = h5.push(m.time);
            let h7 = h6 + field(m.kind);
            let h8 = h7 + field(m.version);
            assert(Seq::<u8>::empty().push(ENCODING_VERSION) =~= h0);
            assert(h8 + t8 =~= h7 + t7);
            assert(h7 + t7 =~= h6 + t6);
            assert(h6 + t6 =~= h5 + t5);
            assert(h5 + t5 =~= h4 + t4);
            assert(h4 + t4 =~= h3 + t3);
            assert(h3 + t3 =~= h2 + t2);
            assert(h2 + t2 =~= h1 + t1);
            assert(h1 + t1 =~= h0 + t0);
        }
        out
    }

    /// The digest of the canonical encoding.
    pub fn hash(&self) -> (digest: Digest)
        ensures
            digest@ == sha512(canonical(self@)),
    {
        let bytes = self.serialize();
        Digest::of(bytes.as_slice())
    }
}

/// Whether `claimed` is the digest of the canonical encoding of `m`.
pub open spec fn hash_bound(m: MetadataView, claimed: Seq<u8>) -> bool {
    claimed == sha512(canonical(m))
}

/// A leading byte can be read back: two byte strings that start with one
/// byte each are equal only if the bytes and what follows them are.
pub proof fn lemma_byte_prefix(a: u8, after_a: Seq<u8>, b: u8, after_b: Seq<u8>)
    requires
        seq![a] + after_a == seq![b] + after_b,
    ensures
        a == b,
        after_a == after_b,
{
    let whole_a = seq![a] + after_a;
    let whole_b = seq![b] + after_b;
    assert(whole_a[0] == a && whole_b[0] == b);
    assert(whole_a.subrange(1, whole_a.len() as int) =~= after_a);
    assert(whole_b.subrange(1, whole_b.len() as int) =~= after_b);
}

/// A field can be read back from the front of any byte string that starts
/// with it: two such strings are equal only if the fields and what follows
/// them are.
pub proof fn lemma_field_prefix(a: Seq<u8>, after_a: Seq<u8>, b: Seq<u8>, after_b: Seq<u8>)
    requires
        a.len() <= u64::MAX,
        b.len() <= u64::MAX,
        field(a) + after_a == field(b) + after_b,
    ensures
        a == b,
        after_a == after_b,
{
    lemma_auto_spec_u64_to_from_le_bytes();
    let length_a = spec_u64_to_le_bytes(a.len() as u64);
    let length_b = spec_u64_to_le_bytes(b.len() as u64);
    let whole_a = field(a) + after_a;
    let whole_b = field(b) + after_b;
    assert(whole_a.subrange(0, 8) =~= length_a);
    assert(whole_b.subrange(0, 8) =~= length_b);
    assert(spec_u64_from_le_bytes(length_a) == a.len());
    assert(spec_u64_from_le_bytes(length_b) == b.len());
    assert(whole_a.subrange(8, 8 + a.len() as int) =~= a);
    assert(whole_b.subrange(8, 8 + b.len() as int) =~= b);
    assert(whole_a.subrange(8 + a.len() as int, whole_a.len() as int) =~= after_a);
    assert(whole_b.subrange(8 + b.len() as int, whole_b.len() as int) =~= after_b);
}

/// The canonical encoding is injective: metadata that differ in any field
/// have different encodings.
pub proof fn lemma_canonical_injective(a: MetadataView, b: MetadataView)
    requires
        a.bounded(),
        b.bounded(),
        canonical(a) == canonical(b),
    ensures
        a == b,
{
    let a8 = field(a.network);
    let a7 = field(a.version) + a8;
    let a6 = field(a.kind) + a7;
    let a5 = seq![a.time] + a6;
    let a4 = field(a.tag) + a5;
    let a3 = field(a.link) + a4;
    let a2 = field(a.site) + a3;
    let a1 = field(a.user) + a2;
    let a0 = field(a.public_key) + a1;
    let b8 = field(b.network);
    let b7 = field(b.version) + b8;
    let b6 = field(b.kind) + b7;
    let b5 = seq![b.time] + b6;
    let b4 = field(b.tag) + b5;
    let b3 = field(b.link) + b4;
    let b2 = field(b.site) + b3;
    let b1 = field(b.user) + b2;
    let b0 = field(b.public_key) + b1;
    lemma_byte_prefix(ENCODING_VERSION, a0, ENCODING_VERSION, b0);
    lemma_field_prefix(a.public_key, a1, b.public_key, b1);
    lemma_field_prefix(a.user, a2, b.user, b2);
    lemma_field_prefix(a.site, a3, b.site, b3);
    lemma_field_prefix(a.link, a4, b.link, b4);
    lemma_field_prefix(a.tag, a5, b.tag, b5);
    lemma_byte_prefix(a.time, a6, b.time, b6);
    lemma_field_prefix(a.kind, a7, b.kind, b7);
    lemma_field_prefix(a.version, a8, b.version, b8);
    let none = Seq::<u8>::empty();
    assert(a8 + none =~= a8);
    assert(b8 + none =~= b8);
    lemma_field_prefix(a.network, none, b.network, none);
}

/// Metadata that was changed after its hash was taken no longer meets the
/// hash binding: the encodings differ, and so does the digest unless SHA-512
/// collides on the two encodings.
pub proof fn lemma_tampered_metadata_unbound(genuine: MetadataView, tampered: MetadataView)
    requires
        genuine.bounded(),
        tampered.bounded(),
        genuine != tampered,
    ensures
        canonical(genuine) != canonical(tampered),
        sha512(canonical(genuine)) != sha512(canonical(tampered)) ==> !hash_bound(
            tampered,
            sha512(canonical(genuine)),
        ),
{
    if canonical(genuine) == canonical(tampered) {
        lemma_canonical_injective(genuine, tampered);
    }
}

/// What binds metadata to its author: the digest that the submitter claims
/// for the metadata, and a signature over that digest.
#[derive(Debug, PartialEq, Eq)]
pub struct RecordHeader {
    pub metadata_hash: Vec<u8>,
    pub signature: Vec<u8>,
}

/// Signed metadata about a blob. The record refers to the blob by its
/// digest and does not own it.
#[derive(Debug, PartialEq, Eq)]
pub struct Record {
    pub metadata: Metadata,
    pub header: RecordHeader,
    pub blob: Digest,
}

impl Clone for RecordHeader {
    fn clone(&self) -> (copy: RecordHeader)
        ensures
            copy.metadata_hash@ == self.metadata_hash@,
            copy.signature@ == self.signature@,
    {
        RecordHeader {
            metadata_hash: copy_bytes(self.metadata_hash.as_slice()),
            signature: copy_bytes(self.signature.as_slice()),
        }
    }
}

impl Clone for Record {
    fn clone(&self) -> (copy: Record)
        ensures
            copy@ == self@,
    {
        Record {
            metadata: self.metadata.clone(),
            header: self.header.clone(),
            blob: self.blob.clone(),
        }
    }
}

/// A record as plain values.
pub struct RecordView {
    pub metadata: MetadataView,
    pub metadata_hash: Seq<u8>,
    pub signature: Seq<u8>,
    pub blob: Seq<u8>,
}

impl View for Record {
    type V = RecordView;

    open spec fn view(&self) -> RecordView {
        RecordView {
            metadata: self.metadata@,
            metadata_hash: self.header.metadata_hash@,
            signature: self.header.signature@,
            blob: self.blob@,
        }
    }
}

/// The outcome of the two checks: the hash binding is judged first, and a
/// record is accepted only if both hold.
pub open spec fn verdict_of(hash_matches: bool, signature_accepted: bool) -> Result<
    (),
    VerificationError,
> {
    if !hash_matches {
        Err(VerificationError::HashMismatch)
    } else if !signature_accepted {
        Err(VerificationError::SignatureInvalid)
    } else {
        Ok(())
    }
}

/// The outcome of the two checks.
pub fn verdict(hash_matches: bool, signature_accepted: bool) -> (r: Result<
    (),
    VerificationError,
>)
    ensures
        r == verdict_of(hash_matches, signature_accepted),
{
    if !hash_matches {
        Err(VerificationError::HashMismatch)
    } else if !signature_accepted {
        Err(VerificationError::SignatureInvalid)
    } else {
        Ok(())
    }
}

/// The configured signature scheme. It is asked whether a signature over a
/// message was made with the private key paired to a public key; its
/// arguments are the public key, the message and the signature. Whatever
/// makes it fail (a malformed key, a malformed signature, a mismatch) is a
/// `false`.
pub struct RecordVerifier<S> {
    scheme: S,
}

impl<S: Fn(&Vec<u8>, &Vec<u8>, &Vec<u8>) -> bool> RecordVerifier<S> {
    /// The configured signature scheme.
    pub closed spec fn scheme(&self) -> S {
        self.scheme
    }

    /// The scheme can be asked about every key, message and signature.
    pub open spec fn wf(&self) -> bool {
        forall|key: &Vec<u8>, message: &Vec<u8>, signature: &Vec<u8>|
            call_requires(self.scheme(), (key, message, signature))
    }

    /// The scheme may answer `accepted` when asked about the signature of
    /// `header` over its claimed hash under the public key of `metadata`.
    pub open spec fn signature_accepted(
        &self,
        metadata: &Metadata,
        header: &RecordHeader,
        accepted: bool,
    ) -> bool {
        call_ensures(
            self.scheme(),
            (&metadata.public_key, &header.metadata_hash, &header.signature),
            accepted,
        )
    }

    /// Both invariants of a record hold: the claimed hash is the digest of
    /// the canonical encoding of the metadata, and the scheme accepted the
    /// signature over it.
    pub open spec fn authentic(&self, metadata: &Metadata, header: &RecordHeader) -> bool {
        hash_bound(metadata@, header.metadata_hash@) && self.signature_accepted(
            metadata,
            header,
            true,
        )
    }

    /// A verifier that asks `scheme`.
    pub fn new(scheme: S) -> (verifier: RecordVerifier<S>)
        requires
            forall|key: &Vec<u8>, message: &Vec<u8>, signature: &Vec<u8>|
                call_requires(scheme, (key, message, signature)),
        ensures
            verifier.scheme() == scheme,
            verifier.wf(),
    {
        RecordVerifier { scheme }
    }

    /// What `verify` may return for a record: success only where the record
    /// is authentic, `HashMismatch` exactly where the claimed hash is not the
    /// digest of the metadata, and `SignatureInvalid` where the hash matches
    /// and the scheme refused the signature.
    pub open spec fn outcome(
        &self,
        metadata: &Metadata,
        header: &RecordHeader,
        r: Result<(), VerificationError>,
    ) -> bool {
        match r {
            Ok(()) => self.authentic(metadata, header),
            Err(VerificationError::HashMismatch) => !hash_bound(
                metadata@,
                header.metadata_hash@,
            ),
            Err(VerificationError::SignatureInvalid) => hash_bound(
                metadata@,
                header.metadata_hash@,
            ) && self.signature_accepted(metadata, header, false),
        }
    }

    /// Verification succeeds only if the claimed hash is exactly the digest
    /// of the canonical encoding of the metadata, and it fails with
    /// `HashMismatch` wherever it is not.
    pub proof fn lemma_hash_decides(
        &self,
        metadata: &Metadata,
        header: &RecordHeader,
        r: Result<(), VerificationError>,
    )
        requires
            self.outcome(metadata, header, r),
        ensures
            r is Ok ==> header.metadata_hash@ == sha512(canonical(metadata@)),
            header.metadata_hash@ != sha512(canonical(metadata@)) ==> r == Err::<
                (),
                VerificationError,
            >(VerificationError::HashMismatch),
    {
    }

    /// Where the scheme does not accept the signature under the public key
    /// of the metadata, verification fails, and it fails with
    /// `SignatureInvalid` even if the claimed hash matches.
    pub proof fn lemma_signature_decides(
        &self,
        metadata: &Metadata,
        header: &RecordHeader,
        r: Result<(), VerificationError>,
    )
        requires
            self.outcome(metadata, header, r),
            !self.signature_accepted(metadata, header, true),
        ensures
            r is Err,
            hash_bound(metadata@, header.metadata_hash@) ==> r == Err::<(), VerificationError>(
                VerificationError::SignatureInvalid,
            ),
    {
    }

    /// Metadata that was changed in any field after the header was made for
    /// it is refused with `HashMismatch`, unless SHA-512 gives both
    /// encodings the same digest.
    pub proof fn lemma_tampering_is_a_hash_mismatch(
        &self,
        genuine: &Metadata,
        tampered: &Metadata,
        header: &RecordHeader,
        r: Result<(), VerificationError>,
    )
        requires
            genuine@ != tampered@,
            hash_bound(genuine@, header.metadata_hash@),
            sha512(canonical(genuine@)) != sha512(canonical(tampered@)),
            self.outcome(tampered, header, r),
        ensures
            canonical(genuine@) != canonical(tampered@),
            r == Err::<(), VerificationError>(VerificationError::HashMismatch),
    {
    }

    /// Decides whether a record is authentic and consistent. The digest of
    /// the canonical encoding of `metadata` is compared with the claimed hash
    /// first; on a mismatch the result is `HashMismatch` and the signature is
    /// not looked at. Else the scheme is asked, and its refusal is
    /// `SignatureInvalid`.
    pub fn verify(&self, metadata: &Metadata, header: &RecordHeader) -> (r: Result<
        (),
        VerificationError,
    >)
        requires
            self.wf(),
        ensures
            self.outcome(metadata, header, r),
    {
        let digest = metadata.hash();
        if !bytes_equal(digest.as_bytes().as_slice(), header.metadata_hash.as_slice()) {
            return verdict(false, false);
        }
        assert(call_requires(
            self.scheme(),
            (&metadata.public_key, &header.metadata_hash, &header.signature),
        ));
        let accepted = (self.scheme)(
            &metadata.public_key,
            &header.metadata_hash,
            &header.signature,
        );
        verdict(true, accepted)
    }
}

impl Record {
    /// A record for `data`: the blob's digest, the hash of the metadata, and
    /// the signature that `signer` makes over that hash with `secret_key`.
    /// The arguments of `signer` are the key and the message to sign.
    pub fn new<G: Fn(&Vec<u8>, &Vec<u8>) -> Vec<u8>>(
        data: Vec<u8>,
        metadata: Metadata,
        secret_key: Vec<u8>,
        signer: &G,
    ) -> (record: Record)
        requires
            forall|key: &Vec<u8>, message: &Vec<u8>| call_requires(signer, (key, message)),
        ensures
            record.metadata == metadata,
            record.blob@ == sha512(data@),
            hash_bound(metadata@, record.header.metadata_hash@),
            call_ensures(
                signer,
                (&secret_key, &record.header.metadata_hash),
                record.header.signature,
            ),
    {
        let blob = Digest::of(data.as_slice());
        let digest = metadata.hash();
        let metadata_hash = copy_bytes(digest.as_bytes().as_slice());
        let signature = signer(&secret_key, &metadata_hash);
        Record { metadata, header: RecordHeader { metadata_hash, signature }, blob }
    }
}

/// Identifies a record in a store: its place in the order of submission.
pub type RecordId = usize;

/// The records that were accepted, in the order of their submission.
pub struct RecordStore<S> {
    judge: RecordVerifier<S>,
    records: Vec<Record>,
}

/// The records among `all` that refer to `blob`, in their order.
pub open spec fn records_about(all: Seq<Record>, blob: Seq<u8>) -> Seq<Record> {
    all.filter(|record: Record| record.blob@ == blob)
}

impl<S: Fn(&Vec<u8>, &Vec<u8>, &Vec<u8>) -> bool> View for RecordStore<S> {
    type V = Seq<RecordView>;

    open spec fn view(&self) -> Seq<RecordView> {
        self.kept().map_values(|record: Record| record@)
    }
}

impl<S: Fn(&Vec<u8>, &Vec<u8>, &Vec<u8>) -> bool> RecordStore<S> {
    /// The verifier that every submission has to pass.
    pub closed spec fn judge(&self) -> RecordVerifier<S> {
        self.judge
    }

    /// The records that are kept, in the order of their submission.
    pub closed spec fn kept(&self) -> Seq<Record> {
        self.records@
    }

    /// The invariant of the store: every record that is kept is authentic.
    pub open spec fn wf(&self) -> bool {
        &&& self.judge().wf()
        &&& forall|i: int|
            0 <= i < self.kept().len() ==> self.judge().authentic(
                &(#[trigger] self.kept()[i]).metadata,
                &self.kept()[i].header,
            )
    }

    /// A store without records, whose submissions `verifier` judges.
    pub fn new(verifier: RecordVerifier<S>) -> (store: RecordStore<S>)
        requires
            verifier.wf(),
        ensures
            store.wf(),
            store.judge() == verifier,
            store.kept() == Seq::<Record>::empty(),
    {
        RecordStore { judge: verifier, records: Vec::new() }
    }

    /// Number of records accepted so far.
    pub fn len(&self) -> (n: usize)
        ensures
            n == self.kept().len(),
    {
        self.records.len()
    }

    /// The record with identifier `id`, if there is one.
    pub fn get(&self, id: RecordId) -> (r: Option<&Record>)
        ensures
            id < self.kept().len() ==> r == Some(&self.kept()[id as int]),
            id >= self.kept().len() ==> r is None,
    {
        if id < self.records.len() {
            Some(&self.records[id])
        } else {
            None
        }
    }

    /// Verifies the record and, only if it is authentic and consistent,
    /// keeps it after the records accepted before and returns its
    /// identifier. A record that fails is not kept; the error names the
    /// invariant that failed.
    pub fn submit(&mut self, metadata: Metadata, header: RecordHeader, blob: Digest) -> (r:
        Result<RecordId, VerificationError>)
        requires
            old(self).wf(),
        ensures
            final(self).wf(),
            final(self).judge() == old(self).judge(),
            match r {
                Ok(id) => {
                    &&& old(self).judge().authentic(&metadata, &header)
                    &&& id == old(self).kept().len()
                    &&& final(self).kept() == old(self).kept().push(
                        (Record { metadata, header, blob }),
                    )
                    &&& final(self)@ == old(self)@.push((Record { metadata, header, blob })@)
                },
                Err(VerificationError::HashMismatch) => {
                    &&& !hash_bound(metadata@, header.metadata_hash@)
                    &&& final(self).kept() == old(self).kept()
                },
                Err(VerificationError::SignatureInvalid) => {
                    &&& hash_bound(metadata@, header.metadata_hash@)
                    &&& old(self).judge().signature_accepted(&metadata, &header, false)
                    &&& final(self).kept() == old(self).kept()
                },
            },
    {
        match self.judge.verify(&metadata, &header) {
            Err(e) => Err(e),
            Ok(()) => {
                let id = self.records.len();
                self.records.push(Record { metadata, header, blob });
                assert(self@ =~= old(self)@.push((Record { metadata, header, blob })@));
                Ok(id)
            },
        }
    }

    /// All records that refer to `blob`, in the order of their submission.
    /// The result is empty where none does.
    pub fn lookup(&self, blob: &Digest) -> (found: Vec<&Record>)
        ensures
            found@.len() == records_about(self.kept(), blob@).len(),
            forall|i: int|
                0 <= i < found@.len() ==> *(#[trigger] found@[i]) == records_about(
                    self.kept(),
                    blob@,
                )[i],
    {
        let mut found: Vec<&Record> = Vec::new();
        let mut i: usize = 0;
        let ghost wanted = |record: Record| record.blob@ == blob@;
        proof {
            reveal(Seq::filter);
            assert(self.kept().subrange(0, 0) =~= Seq::<Record>::empty());
        }
        while i < self.records.len()
            invariant
                i <= self.records@.len(),
                self.kept() == self.records@,
                wanted == |record: Record| record.blob@ == blob@,
                found@.len() == self.kept().subrange(0, i as int).filter(wanted).len(),
                forall|k: int|
                    0 <= k < found@.len() ==> *(#[trigger] found@[k]) == self.kept().subrange(
                        0,
                        i as int,
                    ).filter(wanted)[k],
            decreases self.records@.len() - i,
        {
            let record = &self.records[i];
            proof {
                reveal(Seq::filter);
                assert(self.kept().subrange(0, i + 1).drop_last() =~= self.kept().subrange(
                    0,
                    i as int,
                ));
                assert(self.kept().subrange(0, i + 1).last() == *record);
            }
            if record.blob.same(blob) {
                found.push(record);
            }
            i = i + 1;
        }
        assert(self.kept().subrange(0, i as int) =~= self.kept());
        found
    }
}

} // verus!
