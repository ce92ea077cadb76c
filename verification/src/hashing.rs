//! BLAKE3 digests of file contents.

use vstd::prelude::*;

verus! {

/// How much of a file the quick digest covers.
pub const PREFIX_LEN: usize = 4096;

/// The state of an incremental BLAKE3 computation.
#[verifier::external_type_specification]
#[verifier::external_body]
pub struct ExHasher(blake3::Hasher);

/// The bytes that a hasher has been given so far, in order.
pub uninterp spec fn hasher_input(hasher: blake3::Hasher) -> Seq<u8>;

/// Whether a hasher computes the regular hash function from the start of its input, as opposed
/// to the keyed one, the key derivation or a part of a tree.
pub uninterp spec fn is_regular(hasher: blake3::Hasher) -> bool;

/// The BLAKE3 digest of a sequence of bytes.
pub uninterp spec fn blake3_digest(input: Seq<u8>) -> Seq<u8>;

/// `blake3::Hasher::new`: a hasher for the regular hash function that has been given nothing.
#[verifier::external_body]
fn new_hasher() -> (hasher: blake3::Hasher)
    ensures
        is_regular(hasher),
        hasher_input(hasher) == Seq::<u8>::empty(),
{
    blake3::Hasher::new()
}

/// `blake3::Hasher::update`: adds the bytes at the end of what the hasher has been given.
/// BLAKE3 is defined for inputs of fewer than 2^64 bytes. A regular hasher stays regular.
#[verifier::external_body]
fn update_hasher(hasher: &mut blake3::Hasher, input: &[u8])
    requires
        is_regular(*old(hasher)),
        hasher_input(*old(hasher)).len() + input@.len() <= u64::MAX,
    ensures
        is_regular(*final(hasher)),
        hasher_input(*final(hasher)) == hasher_input(*old(hasher)) + input@,
{
    hasher.update(input);
}

/// `blake3::Hasher::finalize`: of a regular hasher, the digest of what it has been given, which
/// is a function of those bytes alone.
#[verifier::external_body]
fn finalize_hasher(hasher: &blake3::Hasher) -> (digest: [u8; 32])
    requires
        is_regular(*hasher),
    ensures
        digest@ == blake3_digest(hasher_input(*hasher)),
{
    *hasher.finalize().as_bytes()
}

/// The part of a content that the quick digest covers.
pub open spec fn quick_part(content: Seq<u8>) -> Seq<u8> {
    if content.len() <= PREFIX_LEN {
        content
    } else {
        content.take(PREFIX_LEN as int)
    }
}

/// The quick digest of a file, from the bytes that it starts with.
pub fn hash_prefix(start: &[u8]) -> (digest: [u8; 32])
    ensures
        digest@ == blake3_digest(quick_part(start@)),
{
    let mut hasher = new_hasher();
    if start.len() <= PREFIX_LEN {
        update_hasher(&mut hasher, start);
    } else {
        update_hasher(&mut hasher, vstd::slice::slice_subrange(start, 0, PREFIX_LEN));
    }
    assert(hasher_input(hasher) =~= quick_part(start@));
    finalize_hasher(&hasher)
}

/// What follows from one more read of a file.
#[derive(Debug)]
pub enum HashProgress {
    /// There is more to read.
    More,
    /// The file has been read to its end; this is its digest.
    Finished([u8; 32]),
    /// The file could not be read.
    Failed,
}

/// The digest of a file that is read piece by piece.
pub struct ContentHasher {
    hasher: blake3::Hasher,
}

impl View for ContentHasher {
    type V = Seq<u8>;

    /// The bytes read so far.
    closed spec fn view(&self) -> Seq<u8> {
        hasher_input(self.hasher)
    }
}

impl ContentHasher {
    /// The hasher computes the regular hash function.
    pub closed spec fn wf(&self) -> bool {
        is_regular(self.hasher)
    }

    /// Before the first read.
    pub fn new() -> (hasher: ContentHasher)
        ensures
            hasher.wf(),
            hasher@ == Seq::<u8>::empty(),
    {
        ContentHasher { hasher: new_hasher() }
    }

    /// Takes in the outcome of one read: the bytes that came, none of them at the end of the
    /// file, or `None` where the read failed.
    pub fn on_read(&mut self, read: Option<&[u8]>) -> (progress: HashProgress)
        requires
            old(self).wf(),
            read is Some ==> old(self)@.len() + read->0@.len() <= u64::MAX,
        ensures
            final(self).wf(),
            match read {
                None => progress is Failed && final(self)@ == old(self)@,
                Some(chunk) => final(self)@ == old(self)@ + chunk@ && (if chunk@.len() == 0 {
                    progress is Finished && progress->0@ == blake3_digest(old(self)@)
                } else {
                    progress is More
                }),
            },
    {
        match read {
            None => HashProgress::Failed,
            Some(chunk) => {
                if chunk.len() == 0 {
                    assert(self@ + chunk@ =~= self@);
                    HashProgress::Finished(finalize_hasher(&self.hasher))
                } else {
                    update_hasher(&mut self.hasher, chunk);
                    HashProgress::More
                }
            },
        }
    }
}

} // verus!
