//! Signed plugin publication.
use std::collections::hash_map::DefaultHasher;
use std::hash::{Hash, Hasher};
use vstd::std_specs::hash::DefaultHasherAdditionalSpecFns;
use vstd::prelude::*;
use crate::numfmt::{lower_hex, push_lower_hex};
use crate::text::{chars_of, push_str, str_eq, string_of};

verus! {

/// A published plugin: its name, version, manifest text and signature.
#[derive(Debug, Clone)]
pub struct PublishedPlugin {
    pub name: String,
    pub version: String,
    pub manifest: String,
    pub signature: String,
}

/// The writes that `<str as Hash>::hash` makes into a hasher for the
/// string `s`; they depend on the string alone.
pub uninterp spec fn str_hash_writes(s: Seq<char>) -> Seq<Seq<u8>>;

/// Hashes `s` into the hasher by `<str as Hash>::hash`; the contract
/// claims that the writes it adds depend on the string alone and only
/// names them (`str_hash_writes`); which bytes are written is not stated.
#[verifier::external_body]
fn hash_str(s: &str, hasher: &mut DefaultHasher)
    ensures
        final(hasher)@ == old(hasher)@ + str_hash_writes(s@),
{
    s.hash(hasher)
}

/// The digest a fresh `DefaultHasher` gives after hashing the secret and
/// then the manifest.
pub open spec fn keyed_digest(secret: Seq<char>, manifest: Seq<char>) -> u64 {
    DefaultHasher::spec_finish(str_hash_writes(secret) + str_hash_writes(manifest))
}

/// The signature of a manifest under a secret: the keyed digest in
/// lower-case hexadecimal.
pub open spec fn signature_of(secret: Seq<char>, manifest: Seq<char>) -> Seq<char> {
    lower_hex(keyed_digest(secret, manifest) as nat)
}

/// Whether `signature` is the signature of `manifest` under `secret`.
pub open spec fn verifies(secret: Seq<char>, manifest: Seq<char>, signature: Seq<char>) -> bool {
    signature_of(secret, manifest) == signature
}

/// The file stem under which a plugin version is stored: `name-version`.
pub open spec fn artifact_stem_of(name: Seq<char>, version: Seq<char>) -> Seq<char> {
    name + "-"@ + version
}

/// A registry that signs the manifests it publishes with a secret.
#[derive(Debug)]
pub struct PluginRegistryService {
    root: String,
    secret: String,
}

impl PluginRegistryService {
    pub closed spec fn root_view(&self) -> Seq<char> {
        self.root@
    }

    pub closed spec fn secret_view(&self) -> Seq<char> {
        self.secret@
    }

    pub fn new(root: &str, secret: &str) -> (r: Self)
        ensures
            r.root_view() == root@,
            r.secret_view() == secret@,
    {
        PluginRegistryService { root: String::from_str(root), secret: String::from_str(secret) }
    }

    /// The directory the registry stores its files in.
    pub fn root(&self) -> (r: &str)
        ensures
            r@ == self.root_view(),
    {
        self.root.as_str()
    }

    fn sign(&self, manifest: &str) -> (r: String)
        ensures
            r@ == signature_of(self.secret_view(), manifest@),
    {
        let mut hasher = DefaultHasher::new();
        hash_str(self.secret.as_str(), &mut hasher);
        hash_str(manifest, &mut hasher);
        assert(hasher@ =~= str_hash_writes(self.secret_view()) + str_hash_writes(manifest@));
        let digest = hasher.finish();
        let mut out: Vec<char> = Vec::new();
        push_lower_hex(&mut out, digest);
        assert(out@ == lower_hex(digest as nat));
        string_of(out.as_slice())
    }

    /// Whether `signature` is this registry's signature of `manifest`.
    pub fn verify(&self, manifest: &str, signature: &str) -> (r: bool)
        ensures
            r == verifies(self.secret_view(), manifest@, signature@),
    {
        let expected = self.sign(manifest);
        str_eq(expected.as_str(), signature)
    }

    /// The record that publishing the manifest gives: the manifest with
    /// its signature.
    pub fn published_record(&self, name: &str, version: &str, manifest: &str) -> (r: PublishedPlugin)
        ensures
            r.name@ == name@,
            r.version@ == version@,
            r.manifest@ == manifest@,
            r.signature@ == signature_of(self.secret_view(), manifest@),
    {
        PublishedPlugin {
            name: String::from_str(name),
            version: String::from_str(version),
            manifest: String::from_str(manifest),
            signature: self.sign(manifest),
        }
    }
}

/// The file stem of a plugin version.
pub fn artifact_stem(name: &str, version: &str) -> (r: String)
    ensures
        r@ == artifact_stem_of(name@, version@),
{
    let mut out = chars_of(name);
    push_str(&mut out, "-");
    push_str(&mut out, version);
    string_of(out.as_slice())
}

/// A record signed with a secret verifies under that secret: the
/// signature `published_record` attaches to a manifest is one that
/// `verify` accepts for that manifest, and it is the only one.
pub proof fn lemma_published_record_verifies(secret: Seq<char>, manifest: Seq<char>, signature: Seq<char>)
    ensures
        verifies(secret, manifest, signature_of(secret, manifest)),
        verifies(secret, manifest, signature) <==> signature == signature_of(secret, manifest),
{
}

} // verus!
