//! The hash of a file's contents, taken while the file is read piece by piece.

use vstd::prelude::*;
use xxhash_rust::xxh3::Xxh3Default;

verus! {

/// `xxhash_rust::xxh3::Xxh3Default`, a hasher that is fed piece by piece.
#[verifier::external_type_specification]
#[verifier::external_body]
pub struct ExXxh3Default(Xxh3Default);

/// The bytes that a hasher was fed with so far.
pub uninterp spec fn fed_bytes(hasher: Xxh3Default) -> Seq<u8>;

/// The 64 bit XXH3 hash of these bytes, with seed 0 and the default secret.
pub uninterp spec fn xxh3_hash(bytes: Seq<u8>) -> u64;

/// `Xxh3Default::new`: a hasher that was fed with nothing.
pub assume_specification[ Xxh3Default::new ]() -> (res: Xxh3Default)
    ensures
        fed_bytes(res) == Seq::<u8>::empty(),
;

/// `Xxh3Default::update`: feeds the hasher with one piece more.
pub assume_specification[ Xxh3Default::update ](hasher: &mut Xxh3Default, input: &[u8])
    ensures
        fed_bytes(*final(hasher)) == fed_bytes(*old(hasher)) + input@,
;

/// `Xxh3Default::digest`: the hash of everything that the hasher was fed with, wherever one piece
/// ended and the next began.
pub assume_specification[ Xxh3Default::digest ](hasher: &Xxh3Default) -> (res: u64)
    ensures
        res == xxh3_hash(fed_bytes(*hasher)),
;

/// What one attempt to read from a file brought.
#[derive(Debug)]
pub enum ReadEvent<'a> {
    /// These bytes. None are left where there are none.
    Chunk(&'a [u8]),
    /// Nothing: the attempt was interrupted.
    Interrupted,
    /// Nothing: the attempt failed.
    Failed(std::io::Error),
}

/// What follows an attempt to read.
#[derive(Debug)]
pub enum ReadStep {
    /// Another attempt.
    ReadOn,
    /// The file has been read, and this is the hash of its contents.
    Done(u64),
    /// The file cannot be read.
    GiveUp(std::io::Error),
}

/// Takes the hash of a file's contents while the file is read.
pub struct ContentHasher {
    hasher: Xxh3Default,
}

impl ContentHasher {
    /// What was read so far.
    pub closed spec fn bytes(self) -> Seq<u8> {
        fed_bytes(self.hasher)
    }

    /// Nothing was read yet.
    pub fn new() -> (res: Self)
        ensures
            res.bytes() == Seq::<u8>::empty(),
    {
        ContentHasher { hasher: Xxh3Default::new() }
    }

    /// Takes in what an attempt to read brought, and says what follows. An interrupted attempt is
    /// made again; any other failure ends the reading.
    pub fn take_in(&mut self, event: ReadEvent) -> (res: ReadStep)
        ensures
            match event {
                ReadEvent::Chunk(chunk) => {
                    &&& final(self).bytes() == old(self).bytes() + chunk@
                    &&& res == if chunk@.len() == 0 {
                        ReadStep::Done(xxh3_hash(old(self).bytes()))
                    } else {
                        ReadStep::ReadOn
                    }
                },
                ReadEvent::Interrupted => {
                    *final(self) == *old(self) && res == ReadStep::ReadOn
                },
                ReadEvent::Failed(e) => {
                    *final(self) == *old(self) && res == ReadStep::GiveUp(e)
                },
            },
    {
        match event {
            ReadEvent::Chunk(chunk) => {
                if chunk.len() == 0 {
                    assert(self.bytes() + chunk@ =~= self.bytes());
                    ReadStep::Done(self.hasher.digest())
                } else {
                    self.hasher.update(chunk);
                    ReadStep::ReadOn
                }
            },
            ReadEvent::Interrupted => ReadStep::ReadOn,
            ReadEvent::Failed(e) => ReadStep::GiveUp(e),
        }
    }
}

} // verus!
