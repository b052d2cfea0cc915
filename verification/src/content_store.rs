//! Content-addressed local storage for durable artifact bytes.
//!
//! Artifact metadata records a `sha256:<hex>` reference instead of embedding
//! bytes in the control-plane snapshot. The store verifies the digest on reads
//! so accidental corruption cannot be mistaken for the referenced artifact.

use sha2::Digest;
use sha2::Sha256;
use vstd::prelude::*;

#[allow(unused_imports)]
use crate::hex::{all_lower_hex, hex, law_hex_is_lower_case, law_hex_tells_bytes_apart, lower_hex};
use crate::hex::hex_text;
use crate::runtime_error::labelled;
#[allow(unused_imports)]
use crate::skills::below;
use crate::skills::path_below;
#[allow(unused_imports)]
use crate::text::begins;
use crate::text::{chars_of, same_text, strip_prefix};

verus! {

pub const DIGEST_HEX_LEN: usize = 64;

/// The digest that SHA-256 gives.
pub uninterp spec fn sha256(bytes: Seq<u8>) -> Seq<u8>;

/// `Sha256::digest`: thirty-two bytes that depend on the input alone. Which bytes they are is
/// left to the name.
#[verifier::external_body]
pub(crate) fn sha256_digest(bytes: &[u8]) -> (r: Vec<u8>)
    ensures
        r@ == sha256(bytes@),
        r@.len() == 32,
{
    Sha256::digest(bytes).to_vec()
}

/// The digest of bytes as text.
pub open spec fn digest_hex(bytes: Seq<u8>) -> Seq<char> {
    hex(sha256(bytes))
}

fn digest_text(bytes: &[u8]) -> (r: String)
    ensures
        r@ == digest_hex(bytes@),
        r@.len() == DIGEST_HEX_LEN,
        all_lower_hex(r@),
{
    let digest = sha256_digest(bytes);
    proof {
        law_hex_is_lower_case(digest@);
    }
    hex_text(digest.as_slice())
}

/// The reference of content with a digest.
pub open spec fn reference_to(digest: Seq<char>) -> Seq<char> {
    "sha256:"@ + digest
}

/// The digest in a reference, if it is one.
pub open spec fn digest_in(reference: Seq<char>) -> Option<Seq<char>> {
    let prefix = "sha256:"@;
    if begins(reference, prefix) && reference.skip(prefix.len() as int).len() == DIGEST_HEX_LEN
        && all_lower_hex(reference.skip(prefix.len() as int)) {
        Some(reference.skip(prefix.len() as int))
    } else {
        None
    }
}

/// Whether a text can be a digest.
fn is_digest(digest: &str) -> (r: bool)
    ensures
        r == (digest@.len() == DIGEST_HEX_LEN && all_lower_hex(digest@)),
{
    let chars = chars_of(digest);
    if chars.len() != DIGEST_HEX_LEN {
        return false;
    }
    let mut i: usize = 0;
    while i < chars.len()
        invariant
            i <= chars@.len(),
            chars@ == digest@,
            forall|j: int| 0 <= j < i ==> lower_hex(#[trigger] digest@[j]),
        decreases chars@.len() - i,
    {
        let c = chars[i];
        if !(('0' <= c && c <= '9') || ('a' <= c && c <= 'f')) {
            assert(!lower_hex(digest@[i as int]));
            return false;
        }
        i += 1;
    }
    true
}

/// The digest in a reference.
pub fn parse_reference(reference: &str) -> (r: Result<String, ContentStoreError>)
    ensures
        match r {
            Ok(digest) => digest_in(reference@) == Some(digest@),
            Err(error) => digest_in(reference@) is None && error
                == ContentStoreError::InvalidReference,
        },
{
    match strip_prefix(reference, "sha256:") {
        None => Err(ContentStoreError::InvalidReference),
        Some(digest) => {
            if !is_digest(digest.as_str()) {
                return Err(ContentStoreError::InvalidReference);
            }
            Ok(digest)
        },
    }
}

#[derive(Debug, PartialEq, Eq)]
pub struct StoredContent {
    pub reference: String,
    pub byte_len: u64,
}

impl View for StoredContent {
    type V = (Seq<char>, u64);

    open spec fn view(&self) -> (Seq<char>, u64) {
        (self.reference@, self.byte_len)
    }
}

#[derive(Debug, PartialEq, Eq)]
pub enum ContentStoreError {
    InvalidReference,
    CorruptContent { reference: String },
    HashCollision { reference: String },
    Io { operation: &'static str, path: String, message: String },
}

/// What a [`ContentStoreError`] says.
#[verifier::ext_equal]
pub enum ContentTrouble {
    InvalidReference,
    CorruptContent(Seq<char>),
    HashCollision(Seq<char>),
    Io { operation: Seq<char>, path: Seq<char>, message: Seq<char> },
}

impl View for ContentStoreError {
    type V = ContentTrouble;

    open spec fn view(&self) -> ContentTrouble {
        match self {
            ContentStoreError::InvalidReference => ContentTrouble::InvalidReference,
            ContentStoreError::CorruptContent { reference } => ContentTrouble::CorruptContent(
                reference@,
            ),
            ContentStoreError::HashCollision { reference } => ContentTrouble::HashCollision(
                reference@,
            ),
            ContentStoreError::Io { operation, path, message } => ContentTrouble::Io {
                operation: operation@,
                path: path@,
                message: message@,
            },
        }
    }
}

pub open spec fn content_trouble_text(trouble: ContentTrouble) -> Seq<char> {
    match trouble {
        ContentTrouble::InvalidReference => "invalid content reference"@,
        ContentTrouble::CorruptContent(reference) => "content does not match reference: "@
            + reference,
        ContentTrouble::HashCollision(reference) => "content hash collision: "@ + reference,
        ContentTrouble::Io { operation, path, message } => "cannot "@ + operation + " '"@ + path
            + "': "@ + message,
    }
}

impl ContentStoreError {
    pub fn to_text(&self) -> (r: String)
        ensures
            r@ == content_trouble_text(self@),
    {
        match self {
            ContentStoreError::InvalidReference => "invalid content reference".to_owned(),
            ContentStoreError::CorruptContent { reference } => labelled(
                "content does not match reference: ",
                reference.as_str(),
            ),
            ContentStoreError::HashCollision { reference } => labelled(
                "content hash collision: ",
                reference.as_str(),
            ),
            ContentStoreError::Io { operation, path, message } => {
                let mut r = "cannot ".to_owned();
                r.push_str(operation);
                r.push_str(" '");
                r.push_str(path.as_str());
                r.push_str("': ");
                r.push_str(message.as_str());
                r
            },
        }
    }
}

#[derive(Debug, PartialEq, Eq)]
pub struct ContentStore {
    root: String,
}

impl View for ContentStore {
    type V = Seq<char>;

    closed spec fn view(&self) -> Seq<char> {
        self.root@
    }
}

/// The directory below the root that holds the contents.
pub open spec fn content_directory(root: Seq<char>) -> Seq<char> {
    below(root, "sha256"@)
}

/// The file of content with a digest.
pub open spec fn content_path(root: Seq<char>, digest: Seq<char>) -> Seq<char> {
    below(content_directory(root), digest)
}

/// What reading the file of a digest gives, where reading gave `found`.
pub open spec fn checked_content(
    root: Seq<char>,
    digest: Seq<char>,
    found: Result<Seq<u8>, Seq<char>>,
) -> Result<Seq<u8>, ContentTrouble> {
    match found {
        Err(message) => Err(
            ContentTrouble::Io {
                operation: "read content"@,
                path: content_path(root, digest),
                message,
            },
        ),
        Ok(bytes) => if digest_hex(bytes) != digest {
            Err(ContentTrouble::CorruptContent(reference_to(digest)))
        } else {
            Ok(bytes)
        },
    }
}

/// What is read for a reference, where reading its file gave `found`.
pub open spec fn content_read(
    root: Seq<char>,
    reference: Seq<char>,
    found: Result<Seq<u8>, Seq<char>>,
) -> Result<Seq<u8>, ContentTrouble> {
    match digest_in(reference) {
        None => Err(ContentTrouble::InvalidReference),
        Some(digest) => checked_content(root, digest, found),
    }
}

/// What storing bytes gives, where the file was absent or reading it gave something.
pub open spec fn content_put(
    root: Seq<char>,
    bytes: Seq<u8>,
    existing: Option<Result<Seq<u8>, Seq<char>>>,
) -> Result<(Seq<char>, u64), ContentTrouble> {
    let digest = digest_hex(bytes);
    let stored = (reference_to(digest), bytes.len() as u64);
    match existing {
        None => Ok(stored),
        Some(found) => match checked_content(root, digest, found) {
            Err(trouble) => Err(trouble),
            Ok(present) => if present != bytes {
                Err(ContentTrouble::HashCollision(reference_to(digest)))
            } else {
                Ok(stored)
            },
        },
    }
}

/// What reading a file gave.
pub open spec fn bytes_found(found: Result<Vec<u8>, String>) -> Result<Seq<u8>, Seq<char>> {
    match found {
        Ok(bytes) => Ok(bytes@),
        Err(message) => Err(message@),
    }
}

/// Whether two byte strings are the same.
fn same_bytes(a: &[u8], b: &[u8]) -> (r: bool)
    ensures
        r == (a@ == b@),
{
    if a.len() != b.len() {
        return false;
    }
    let mut i: usize = 0;
    while i < a.len()
        invariant
            i <= a@.len(),
            a@.len() == b@.len(),
            forall|j: int| 0 <= j < i ==> a@[j] == b@[j],
        decreases a@.len() - i,
    {
        if a[i] != b[i] {
            return false;
        }
        i += 1;
    }
    assert(a@ =~= b@);
    true
}

impl ContentStore {
    pub fn new(root: &str) -> (r: Self)
        ensures
            r@ == root@,
    {
        ContentStore { root: root.to_owned() }
    }

    pub fn root(&self) -> (r: &str)
        ensures
            r@ == self@,
    {
        self.root.as_str()
    }

    /// The directory that holds the contents.
    pub fn directory(&self) -> (r: String)
        ensures
            r@ == content_directory(self@),
    {
        path_below(self.root.as_str(), "sha256")
    }

    fn path_for_digest(&self, digest: &str) -> (r: String)
        ensures
            r@ == content_path(self@, digest@),
    {
        path_below(self.directory().as_str(), digest)
    }

    /// The file of the content that a reference names.
    pub fn path(&self, reference: &str) -> (r: Result<String, ContentStoreError>)
        ensures
            match r {
                Ok(path) => digest_in(reference@) is Some && path@ == content_path(
                    self@,
                    digest_in(reference@)->0,
                ),
                Err(error) => digest_in(reference@) is None && error
                    == ContentStoreError::InvalidReference,
            },
    {
        match parse_reference(reference) {
            Err(error) => Err(error),
            Ok(digest) => Ok(self.path_for_digest(digest.as_str())),
        }
    }

    /// The stable SHA-256 content reference of bytes.
    pub fn reference(&self, bytes: &[u8]) -> (r: String)
        ensures
            r@ == reference_to(digest_hex(bytes@)),
            digest_in(r@) == Some(digest_hex(bytes@)),
    {
        let digest = digest_text(bytes);
        let r = labelled("sha256:", digest.as_str());
        proof {
            assert(r@.skip("sha256:"@.len() as int) =~= digest@);
            assert(r@.take("sha256:"@.len() as int) =~= "sha256:"@);
        }
        r
    }

    /// Store bytes once and return their stable SHA-256 content reference. `existing` is what
    /// reading their file gave, where there is one; where there is none, they are to be written.
    /// What is stored reads back under its reference.
    pub fn put(&self, bytes: &[u8], existing: Option<Result<Vec<u8>, String>>) -> (r: Result<
        StoredContent,
        ContentStoreError,
    >)
        ensures
            ({
                let was = match existing {
                    Some(found) => Some(bytes_found(found)),
                    None => None,
                };
                match r {
                    Ok(stored) => content_put(self@, bytes@, was) == Ok::<
                        (Seq<char>, u64),
                        ContentTrouble,
                    >(stored@),
                    Err(error) => content_put(self@, bytes@, was) == Err::<
                        (Seq<char>, u64),
                        ContentTrouble,
                    >(error@),
                }
            }),
            r matches Ok(stored) ==> content_read(self@, stored@.0, Ok(bytes@)) == Ok::<
                Seq<u8>,
                ContentTrouble,
            >(bytes@),
    {
        let digest = digest_text(bytes);
        proof {
            lemma_stored_content_reads_back(self@, bytes@);
        }
        let reference = labelled("sha256:", digest.as_str());
        match existing {
            None => {},
            Some(found) => {
                match self.read_digest(digest.as_str(), found) {
                    Err(error) => return Err(error),
                    Ok(present) => {
                        if !same_bytes(present.as_slice(), bytes) {
                            return Err(ContentStoreError::HashCollision { reference });
                        }
                    },
                }
            },
        }
        Ok(StoredContent { reference, byte_len: bytes.len() as u64 })
    }

    /// Read bytes for a validated content reference and verify their digest. `found` is what
    /// reading the file gave.
    pub fn get(&self, reference: &str, found: Result<Vec<u8>, String>) -> (r: Result<
        Vec<u8>,
        ContentStoreError,
    >)
        ensures
            match r {
                Ok(bytes) => content_read(self@, reference@, bytes_found(found)) == Ok::<
                    Seq<u8>,
                    ContentTrouble,
                >(bytes@),
                Err(error) => content_read(self@, reference@, bytes_found(found)) == Err::<
                    Seq<u8>,
                    ContentTrouble,
                >(error@),
            },
    {
        match parse_reference(reference) {
            Err(error) => Err(error),
            Ok(digest) => self.read_digest(digest.as_str(), found),
        }
    }

    /// Whether there is content for a reference; `is_file` says whether its file exists.
    pub fn contains(&self, reference: &str, is_file: bool) -> (r: Result<bool, ContentStoreError>)
        ensures
            match r {
                Ok(present) => digest_in(reference@) is Some && present == is_file,
                Err(error) => digest_in(reference@) is None && error
                    == ContentStoreError::InvalidReference,
            },
    {
        match parse_reference(reference) {
            Err(error) => Err(error),
            Ok(_) => Ok(is_file),
        }
    }

    fn read_digest(&self, digest: &str, found: Result<Vec<u8>, String>) -> (r: Result<
        Vec<u8>,
        ContentStoreError,
    >)
        ensures
            match r {
                Ok(bytes) => checked_content(self@, digest@, bytes_found(found)) == Ok::<
                    Seq<u8>,
                    ContentTrouble,
                >(bytes@),
                Err(error) => checked_content(self@, digest@, bytes_found(found)) == Err::<
                    Seq<u8>,
                    ContentTrouble,
                >(error@),
            },
    {
        match found {
            Err(message) => Err(
                ContentStoreError::Io {
                    operation: "read content",
                    path: self.path_for_digest(digest),
                    message,
                },
            ),
            Ok(bytes) => {
                if !same_text(digest_text(bytes.as_slice()).as_str(), digest) {
                    return Err(
                        ContentStoreError::CorruptContent {
                            reference: labelled("sha256:", digest),
                        },
                    );
                }
                Ok(bytes)
            },
        }
    }
}

proof fn lemma_stored_content_reads_back(root: Seq<char>, bytes: Seq<u8>)
    requires
        digest_hex(bytes).len() == DIGEST_HEX_LEN,
        all_lower_hex(digest_hex(bytes)),
    ensures
        content_put(root, bytes, None) matches Ok((reference, _)) && content_read(
            root,
            reference,
            Ok(bytes),
        ) == Ok::<Seq<u8>, ContentTrouble>(bytes),
{
    let digest = digest_hex(bytes);
    let reference = reference_to(digest);
    assert(reference.skip("sha256:"@.len() as int) =~= digest);
    assert(reference.take("sha256:"@.len() as int) =~= "sha256:"@);
}

/// Storing the same bytes again gives the same reference.
pub proof fn law_content_is_stored_once(root: Seq<char>, bytes: Seq<u8>)
    ensures
        content_put(root, bytes, Some(Ok(bytes))) == content_put(root, bytes, None),
{
}

/// What is read under a reference has the digest that the reference names, whatever the file
/// held.
pub proof fn law_read_content_matches_its_reference(
    root: Seq<char>,
    reference: Seq<char>,
    found: Result<Seq<u8>, Seq<char>>,
)
    requires
        content_read(root, reference, found) is Ok,
    ensures
        digest_in(reference) == Some(digest_hex(content_read(root, reference, found)->Ok_0)),
{
}

/// Contents with different digests have different references.
pub proof fn law_references_tell_digests_apart(a: Seq<u8>, b: Seq<u8>)
    requires
        reference_to(digest_hex(a)) == reference_to(digest_hex(b)),
    ensures
        sha256(a) == sha256(b),
{
    let n = "sha256:"@.len() as int;
    assert(reference_to(digest_hex(a)).skip(n) =~= digest_hex(a));
    assert(reference_to(digest_hex(b)).skip(n) =~= digest_hex(b));
    law_hex_tells_bytes_apart(sha256(a), sha256(b));
}

/// Content is read back under its reference, which tells its length; other bytes found there are
/// refused unless they have the same digest, and so is content that could not be read.
pub proof fn law_content_is_read_back(
    root: Seq<char>,
    bytes: Seq<u8>,
    other: Seq<u8>,
    message: Seq<char>,
)
    requires
        bytes.len() <= u64::MAX,
        sha256(bytes).len() == 32,
    ensures
        content_put(root, bytes, None) matches Ok(stored) && stored.1 == bytes.len() && content_read(
            root,
            stored.0,
            Ok(bytes),
        ) == Ok::<Seq<u8>, ContentTrouble>(bytes) && (sha256(other) != sha256(bytes)
            ==> content_read(root, stored.0, Ok(other)) is Err) && content_read(
            root,
            stored.0,
            Err(message),
        ) is Err,
        other != bytes ==> content_put(root, bytes, Some(Ok(other))) is Err,
        content_put(root, bytes, Some(Err(message))) is Err,
{
    law_hex_is_lower_case(sha256(bytes));
    reveal_strlit("sha256:");
    let prefix = "sha256:"@;
    let reference = reference_to(digest_hex(bytes));
    assert(reference.take(7) =~= prefix);
    assert(reference.skip(7) =~= digest_hex(bytes));
    if digest_hex(other) == digest_hex(bytes) {
        law_hex_tells_bytes_apart(sha256(other), sha256(bytes));
    }
}

/// A reference is the word `sha256:` and sixty-four digits in small letters, and nothing else.
pub proof fn law_references_name_a_digest(digest: Seq<char>, reference: Seq<char>, i: int)
    ensures
        digest.len() == 64 && (forall|k: int|
            0 <= k < 64 ==> '0' <= #[trigger] digest[k] <= '9' || 'a' <= digest[k] <= 'f')
            ==> digest_in("sha256:"@ + digest) == Some(digest),
        digest_in(reference) matches Some(found) ==> reference == "sha256:"@ + found && found.len()
            == 64 && (0 <= i < 64 ==> '0' <= found[i] <= '9' || 'a' <= found[i] <= 'f'),
{
    reveal_strlit("sha256:");
    let whole = "sha256:"@ + digest;
    assert(whole.take(7) =~= "sha256:"@);
    assert(whole.skip(7) =~= digest);
    if digest.len() == 64 && (forall|k: int|
        0 <= k < 64 ==> '0' <= #[trigger] digest[k] <= '9' || 'a' <= digest[k] <= 'f') {
        assert forall|k: int| 0 <= k < digest.len() implies lower_hex(#[trigger] digest[k]) by {
            assert('0' <= digest[k] <= '9' || 'a' <= digest[k] <= 'f');
        }
    }
    if let Some(found) = digest_in(reference) {
        assert(reference =~= reference.take(7) + reference.skip(7));
        if 0 <= i < 64 {
            assert(lower_hex(found[i]));
        }
    }
}

} // verus!
