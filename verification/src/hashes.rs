//! The piece hashes of a torrent, and how they lie in the `pieces` field: one
//! after the other, 20 bytes each.

use crate::bytes::read_array;
use crate::error::{Error, FormatError};
use vstd::prelude::*;

verus! {

/// The SHA-1 digests of the pieces of a torrent, by piece index.
#[derive(Debug, Clone, PartialEq, Eq)]
pub struct Hashes(pub Vec<[u8; 20]>);

impl View for Hashes {
    type V = Seq<Seq<u8>>;

    open spec fn view(&self) -> Seq<Seq<u8>> {
        Seq::new(self.0@.len(), |i: int| self.0@[i]@)
    }
}

/// Every hash is 20 bytes long.
pub open spec fn all_hash_sized(hashes: Seq<Seq<u8>>) -> bool {
    forall|i: int| 0 <= i < hashes.len() ==> (#[trigger] hashes[i]).len() == 20
}

/// The hashes that a `pieces` field holds: its bytes in chunks of 20.
pub open spec fn split_hashes(bytes: Seq<u8>) -> Seq<Seq<u8>> {
    Seq::new((bytes.len() / 20) as nat, |i: int| bytes.subrange(20 * i, 20 * i + 20))
}

/// The `pieces` field that holds `hashes`: all of them, one after the other.
pub open spec fn join_hashes(hashes: Seq<Seq<u8>>) -> Seq<u8> {
    Seq::new(20 * hashes.len(), |j: int| hashes[j / 20][j % 20])
}

/// Joining hashes gives a multiple of 20 bytes, and splitting those gives the
/// hashes back.
pub proof fn lemma_split_join(hashes: Seq<Seq<u8>>)
    requires
        all_hash_sized(hashes),
    ensures
        join_hashes(hashes).len() % 20 == 0,
        join_hashes(hashes).len() == 20 * hashes.len(),
        split_hashes(join_hashes(hashes)) == hashes,
{
    let joined = join_hashes(hashes);
    let split = split_hashes(joined);
    assert(split.len() == hashes.len());
    assert forall|i: int| 0 <= i < hashes.len() implies split[i] == hashes[i] by {
        let chunk = joined.subrange(20 * i, 20 * i + 20);
        assert(hashes[i].len() == 20);
        assert forall|k: int| 0 <= k < 20 implies chunk[k] == hashes[i][k] by {
            let j = 20 * i + k;
            assert(j / 20 == i && j % 20 == k);
        }
        assert(chunk =~= hashes[i]);
    }
    assert(split =~= hashes);
}

/// Splitting a multiple of 20 bytes gives hashes of 20 bytes each, and
/// joining those gives the bytes back.
pub proof fn lemma_join_split(bytes: Seq<u8>)
    requires
        bytes.len() % 20 == 0,
    ensures
        all_hash_sized(split_hashes(bytes)),
        join_hashes(split_hashes(bytes)) == bytes,
{
    let split = split_hashes(bytes);
    let joined = join_hashes(split);
    assert(joined.len() == bytes.len());
    assert forall|j: int| 0 <= j < bytes.len() implies joined[j] == bytes[j] by {
        let i = j / 20;
        assert(0 <= i < split.len());
        assert(split[i][j % 20] == bytes[20 * i + j % 20]);
    }
    assert(joined =~= bytes);
}

/// Writing the piece hashes of a torrent gives a multiple of 20 bytes, and
/// reading those gives the same hashes back.
pub proof fn lemma_pieces_round_trip(hashes: Hashes)
    ensures
        all_hash_sized(hashes@),
        join_hashes(hashes@).len() % 20 == 0,
        split_hashes(join_hashes(hashes@)) == hashes@,
{
    assert forall|i: int| 0 <= i < hashes@.len() implies (#[trigger] hashes@[i]).len() == 20 by {
        assert(hashes@[i] == hashes.0@[i]@);
    }
    lemma_split_join(hashes@);
}

impl Hashes {
    /// Reads the hashes out of a `pieces` field.
    ///
    /// Fails, and says how long the field is, exactly when its length is no
    /// multiple of 20.
    pub fn from_bytes(bytes: &[u8]) -> (r: Result<Hashes, Error>)
        ensures
            match r {
                Ok(hashes) => bytes@.len() % 20 == 0 && hashes.0@.len() == bytes@.len() / 20
                    && hashes@ == split_hashes(bytes@),
                Err(e) => bytes@.len() % 20 != 0 && e == Error::Format(
                    FormatError::PiecesLength { len: bytes.len() },
                ),
            },
    {
        if bytes.len() % 20 != 0 {
            return Err(Error::Format(FormatError::PiecesLength { len: bytes.len() }));
        }
        let count = bytes.len() / 20;
        let mut hashes: Vec<[u8; 20]> = Vec::new();
        let mut i: usize = 0;
        while i < count
            invariant
                i <= count,
                count == bytes.len() / 20,
                bytes.len() % 20 == 0,
                hashes.len() == i,
                forall|k: int|
                    0 <= k < i ==> (#[trigger] hashes@[k])@ == bytes@.subrange(20 * k, 20 * k + 20),
            decreases count - i,
        {
            let chunk = read_array::<20>(bytes, 20 * i);
            hashes.push(chunk);
            i = i + 1;
        }
        let out = Hashes(hashes);
        proof {
            assert(out@ =~= split_hashes(bytes@));
        }
        Ok(out)
    }

    /// Writes the hashes as a `pieces` field holds them.
    pub fn to_bytes(&self) -> (bytes: Vec<u8>)
        ensures
            bytes@ == join_hashes(self@),
            bytes@.len() == 20 * self.0.len(),
    {
        let mut out: Vec<u8> = Vec::new();
        let mut i: usize = 0;
        while i < self.0.len()
            invariant
                i <= self.0.len(),
                out@.len() == 20 * i,
                forall|j: int| 0 <= j < 20 * i ==> out@[j] == self@[j / 20][j % 20],
            decreases self.0.len() - i,
        {
            let ghost before = out@;
            out.extend_from_slice(self.0[i].as_slice());
            proof {
                assert forall|j: int| 0 <= j < 20 * (i + 1) implies out@[j] == self@[j / 20][j
                    % 20] by {
                    if j < 20 * i {
                        assert(out@[j] == before[j]);
                    } else {
                        let k = j - 20 * i;
                        assert(j / 20 == i && j % 20 == k);
                        assert(out@[j] == self.0@[i as int]@[k]);
                    }
                }
            }
            i = i + 1;
        }
        proof {
            assert(out@ =~= join_hashes(self@));
        }
        out
    }
}

} // verus!
