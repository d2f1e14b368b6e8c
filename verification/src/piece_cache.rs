//! A fixed-capacity, offset-addressed cache of archived pieces.
//!
//! The cache holds `capacity` slots; each slot is empty or holds one piece
//! tagged with its piece index. Its persistent form is a flat image of
//! fixed-size records, one per slot: eight bytes of little-endian piece index
//! followed by the piece bytes, with an all-ones index marking an empty slot.
//! [`PieceCache::into_image`] and [`PieceCache::from_image`] convert between
//! the two; reading and writing the image file itself is the host's business.

use vstd::bytes::{spec_u64_from_le_bytes, spec_u64_to_le_bytes, u64_from_le_bytes, u64_to_le_bytes};
use vstd::prelude::*;
use vstd::slice::{slice_subrange, slice_to_vec};

verus! {

/// Bytes in one piece.
pub const PIECE_SIZE: usize = 4096;

/// Bytes in one on-disk record: the piece index tag, then the piece.
pub const RECORD_SIZE: usize = PIECE_SIZE + 8;

/// The piece-index value that marks an empty slot on disk; no stored piece
/// may use it.
pub const EMPTY_PIECE_INDEX: u64 = u64::MAX;

/// Typed failures of the cache.
#[derive(Clone, Copy, Debug, PartialEq, Eq, Structural)]
pub enum PieceCacheError {
    /// The offset lies at or beyond the capacity the cache was opened with.
    OffsetOutsideOfRange { provided: u32, max: u32 },
    /// The persistent image does not have `capacity` whole records.
    Corrupted,
}

/// The slot a record image denotes: empty on the all-ones index, else the
/// index and the piece bytes.
pub open spec fn spec_slot_of_bytes(image: Seq<u8>, j: int) -> Option<(u64, Seq<u8>)> {
    let index = spec_u64_from_le_bytes(image.subrange(j * RECORD_SIZE, j * RECORD_SIZE + 8));
    if index == EMPTY_PIECE_INDEX {
        Option::None
    } else {
        Option::Some(
            (index, image.subrange(j * RECORD_SIZE + 8, j * RECORD_SIZE + RECORD_SIZE)),
        )
    }
}

/// All `capacity` slots a persistent image denotes.
pub open spec fn spec_slots_of_bytes(image: Seq<u8>, capacity: u32) -> Seq<
    Option<(u64, Seq<u8>)>,
> {
    Seq::new(capacity as nat, |j: int| spec_slot_of_bytes(image, j))
}

/// Writing a piece and then reading the same offset yields that piece and its
/// index, whatever the cache held before.
pub proof fn lemma_write_then_read(
    slots: Seq<Option<(u64, Seq<u8>)>>,
    offset: int,
    index: u64,
    piece: Seq<u8>,
)
    requires
        0 <= offset < slots.len(),
    ensures
        slots.update(offset, Option::Some((index, piece)))[offset] == Option::Some(
            (index, piece),
        ),
        slots.update(offset, Option::Some((index, piece))).len() == slots.len(),
{
}

fn zero_piece() -> (r: Vec<u8>)
    ensures
        r@.len() == PIECE_SIZE,
{
    let mut out: Vec<u8> = Vec::new();
    let mut i: usize = 0;
    while i < PIECE_SIZE
        invariant
            i <= PIECE_SIZE,
            out@.len() == i as int,
        decreases PIECE_SIZE - i,
    {
        out.push(0);
        i = i + 1;
    }
    out
}

/// The in-memory state of the cache: one slot per offset.
pub struct PieceCache {
    slots: Vec<Option<(u64, Vec<u8>)>>,
}

impl View for PieceCache {
    type V = Seq<Option<(u64, Seq<u8>)>>;

    closed spec fn view(&self) -> Seq<Option<(u64, Seq<u8>)>> {
        Seq::new(
            self.slots@.len(),
            |j: int|
                match self.slots@[j] {
                    Option::Some((index, piece)) => Option::Some((index, piece@)),
                    Option::None => Option::None,
                },
        )
    }
}

impl PieceCache {
    /// Every held piece is exactly one piece long and never tagged with the
    /// empty-slot sentinel, so the persistent image stays well-formed.
    #[verifier::type_invariant]
    spec fn inv(&self) -> bool {
        self.slots@.len() <= u32::MAX && forall|j: int|
            0 <= j < self.slots@.len() ==> match #[trigger] self.slots@[j] {
                Option::Some((index, piece)) => index != EMPTY_PIECE_INDEX && piece@.len()
                    == PIECE_SIZE,
                Option::None => true,
            }
    }

    pub closed spec fn capacity_spec(&self) -> u32 {
        self.slots@.len() as u32
    }

    /// Opens a fresh cache of `capacity` empty slots.
    pub fn open(capacity: u32) -> (r: Self)
        requires
            capacity as int * RECORD_SIZE as int <= usize::MAX as int,
        ensures
            r@ =~= Seq::new(capacity as nat, |j: int| Option::<(u64, Seq<u8>)>::None),
            r.capacity_spec() == capacity,
    {
        let mut slots: Vec<Option<(u64, Vec<u8>)>> = Vec::new();
        let mut i: u32 = 0;
        while i < capacity
            invariant
                i <= capacity,
                slots@.len() == i as int,
                forall|j: int| 0 <= j < i ==> slots@[j] is None,
            decreases capacity - i,
        {
            slots.push(Option::None);
            i = i + 1;
        }
        PieceCache { slots }
    }

    pub fn capacity(&self) -> (r: u32)
        ensures
            r == self.capacity_spec(),
            r == self@.len(),
    {
        proof {
            use_type_invariant(self);
        }
        self.slots.len() as u32
    }

    /// Stores `piece` under `piece_index` at `offset`, overwriting whatever
    /// the slot held; fails if and only if the offset lies beyond capacity.
    pub fn write_piece(&mut self, offset: u32, piece_index: u64, piece: &Vec<u8>) -> (r: Result<
        (),
        PieceCacheError,
    >)
        requires
            piece@.len() == PIECE_SIZE,
            piece_index != EMPTY_PIECE_INDEX,
        ensures
            match r {
                Ok(()) => offset < old(self)@.len() && final(self)@ == old(self)@.update(
                    offset as int,
                    Option::Some((piece_index, piece@)),
                ),
                Err(e) => offset >= old(self)@.len() && e == (PieceCacheError::OffsetOutsideOfRange {
                    provided: offset,
                    max: old(self).capacity_spec(),
                }) && *final(self) == *old(self),
            },
            final(self).capacity_spec() == old(self).capacity_spec(),
    {
        proof {
            use_type_invariant(&*self);
        }
        let capacity = self.slots.len() as u32;
        if offset >= capacity {
            return Err(PieceCacheError::OffsetOutsideOfRange { provided: offset, max: capacity });
        }
        let bytes = slice_to_vec(piece.as_slice());
        let mut slots: Vec<Option<(u64, Vec<u8>)>> = Vec::new();
        core::mem::swap(&mut slots, &mut self.slots);
        slots[offset as usize] = Option::Some((piece_index, bytes));
        core::mem::swap(&mut slots, &mut self.slots);
        proof {
            assert(self@ =~= old(self)@.update(
                offset as int,
                Option::Some((piece_index, piece@)),
            ));
        }
        Ok(())
    }

    /// The piece stored at `offset`, none for an empty or out-of-range slot.
    pub fn read_piece(&self, offset: u32) -> (r: Option<Vec<u8>>)
        ensures
            match r {
                Option::Some(piece) => offset < self@.len() && self@[offset as int] is Some
                    && piece@ == self@[offset as int]->Some_0.1,
                Option::None => offset >= self@.len() || self@[offset as int] is None,
            },
    {
        proof {
            use_type_invariant(self);
        }
        if offset as usize >= self.slots.len() {
            return Option::None;
        }
        match &self.slots[offset as usize] {
            Option::Some((_, piece)) => Option::Some(slice_to_vec(piece.as_slice())),
            Option::None => Option::None,
        }
    }

    /// The piece index stored at `offset`, none for an empty or out-of-range
    /// slot.
    pub fn read_piece_index(&self, offset: u32) -> (r: Option<u64>)
        ensures
            match r {
                Option::Some(index) => offset < self@.len() && self@[offset as int] is Some
                    && index == self@[offset as int]->Some_0.0,
                Option::None => offset >= self@.len() || self@[offset as int] is None,
            },
    {
        proof {
            use_type_invariant(self);
        }
        if offset as usize >= self.slots.len() {
            return Option::None;
        }
        match &self.slots[offset as usize] {
            Option::Some((index, _)) => Option::Some(*index),
            Option::None => Option::None,
        }
    }

    /// Every offset with the piece index its slot holds, in increasing offset
    /// order.
    pub fn contents(&self) -> (r: Vec<(u32, Option<u64>)>)
        ensures
            r@.len() == self@.len(),
            forall|j: int|
                0 <= j < r@.len() ==> #[trigger] r@[j] == (
                j as u32,
                match self@[j] {
                    Option::Some((index, _)) => Option::Some(index),
                    Option::None => Option::<u64>::None,
                },
            ),
    {
        proof {
            use_type_invariant(self);
        }
        let n = self.slots.len();
        let mut out: Vec<(u32, Option<u64>)> = Vec::new();
        let mut i: usize = 0;
        while i < n
            invariant
                i <= n,
                n == self.slots@.len(),
                n == self@.len(),
                n <= u32::MAX,
                out@.len() == i as int,
                forall|j: int|
                    0 <= j < i ==> #[trigger] out@[j] == (
                    j as u32,
                    match self@[j] {
                        Option::Some((index, _)) => Option::Some(index),
                        Option::None => Option::<u64>::None,
                    },
                ),
            decreases n - i,
        {
            let index = match &self.slots[i] {
                Option::Some((index, _)) => Option::Some(*index),
                Option::None => Option::None,
            };
            out.push((i as u32, index));
            i = i + 1;
        }
        out
    }

    /// Serialises the cache into its persistent image: `capacity` records of
    /// tag and piece bytes, with the all-ones tag on every empty slot.
    pub fn into_image(&self) -> (r: Vec<u8>)
        requires
            self@.len() * RECORD_SIZE as int <= usize::MAX as int,
        ensures
            r@.len() == self@.len() * RECORD_SIZE as int,
            spec_slots_of_bytes(r@, self.capacity_spec()) == self@,
    {
        proof {
            use_type_invariant(self);
            vstd::bytes::lemma_auto_spec_u64_to_from_le_bytes();
            assert(RECORD_SIZE == 4104);
        }
        let n = self.slots.len();
        let mut image: Vec<u8> = Vec::new();
        let mut i: usize = 0;
        while i < n
            invariant
                i <= n,
                n == self.slots@.len(),
                n == self@.len(),
                n * RECORD_SIZE as int <= usize::MAX as int,
                image@.len() == i * RECORD_SIZE as int,
                forall|j: int| 0 <= j < i ==> spec_slot_of_bytes(image@, j) == self@[j],
                forall|j: int|
                    0 <= j < n ==> match #[trigger] self.slots@[j] {
                        Option::Some((index, piece)) => index != EMPTY_PIECE_INDEX && piece@.len()
                            == PIECE_SIZE,
                        Option::None => true,
                    },
            decreases n - i,
        {
            let ghost pre = image@;
            match &self.slots[i] {
                Option::Some((index, piece)) => {
                    let mut tag = u64_to_le_bytes(*index);
                    image.append(&mut tag);
                    let mut body = slice_to_vec(piece.as_slice());
                    image.append(&mut body);
                },
                Option::None => {
                    let mut tag = u64_to_le_bytes(EMPTY_PIECE_INDEX);
                    image.append(&mut tag);
                    let mut body = zero_piece();
                    image.append(&mut body);
                },
            }
            proof {
                vstd::bytes::lemma_auto_spec_u64_to_from_le_bytes();
                assert(RECORD_SIZE == 4104);
                assert(forall|t: int| 0 <= t < pre.len() ==> image@[t] == pre[t]);
                assert forall|j: int| 0 <= j < i implies spec_slot_of_bytes(image@, j)
                    == self@[j] by {
                    assert(image@.subrange(j * RECORD_SIZE, j * RECORD_SIZE + 8) =~= pre.subrange(
                        j * RECORD_SIZE,
                        j * RECORD_SIZE + 8,
                    ));
                    assert(image@.subrange(j * RECORD_SIZE + 8, j * RECORD_SIZE + RECORD_SIZE)
                        =~= pre.subrange(j * RECORD_SIZE + 8, j * RECORD_SIZE + RECORD_SIZE));
                }
                let ti = i as int;
                match self.slots@[ti] {
                    Option::Some((index, piece)) => {
                        assert(image@.subrange(ti * RECORD_SIZE, ti * RECORD_SIZE + 8)
                            =~= spec_u64_to_le_bytes(index));
                        assert(image@.subrange(ti * RECORD_SIZE + 8, ti * RECORD_SIZE + RECORD_SIZE)
                            =~= piece@);
                    },
                    Option::None => {
                        assert(image@.subrange(ti * RECORD_SIZE, ti * RECORD_SIZE + 8)
                            =~= spec_u64_to_le_bytes(EMPTY_PIECE_INDEX));
                    },
                }
            }
            i = i + 1;
        }
        proof {
            assert(spec_slots_of_bytes(image@, self.capacity_spec()) =~= self@);
        }
        image
    }

    /// Rebuilds a cache from its persistent image, as reopening the backing
    /// file does. An image that does not hold exactly `capacity` whole
    /// records is corrupt.
    pub fn from_image(image: &Vec<u8>, capacity: u32) -> (r: Result<Self, PieceCacheError>)
        ensures
            match r {
                Ok(c) => image@.len() == capacity as int * RECORD_SIZE as int && c@
                    == spec_slots_of_bytes(image@, capacity) && c.capacity_spec() == capacity,
                Err(e) => e == PieceCacheError::Corrupted && image@.len() != capacity as int
                    * RECORD_SIZE as int,
            },
    {
        let image_len = image.len();
        let expected = match (capacity as usize).checked_mul(RECORD_SIZE) {
            Option::Some(v) => v,
            Option::None => {
                proof {
                    assert(image@.len() <= usize::MAX as int);
                }
                return Err(PieceCacheError::Corrupted);
            },
        };
        if image_len != expected {
            return Err(PieceCacheError::Corrupted);
        }
        let mut slots: Vec<Option<(u64, Vec<u8>)>> = Vec::new();
        let n = capacity as usize;
        let mut i: usize = 0;
        while i < n
            invariant
                i <= n,
                n == capacity as int,
                image@.len() == n * RECORD_SIZE as int,
                n * RECORD_SIZE as int <= usize::MAX as int,
                slots@.len() == i as int,
                forall|j: int|
                    0 <= j < i ==> match #[trigger] slots@[j] {
                        Option::Some((index, piece)) => index != EMPTY_PIECE_INDEX && piece@.len()
                            == PIECE_SIZE,
                        Option::None => true,
                    },
                forall|j: int|
                    0 <= j < i ==> spec_slot_of_bytes(image@, j) == match #[trigger] slots@[j] {
                        Option::Some((index, piece)) => Option::Some((index, piece@)),
                        Option::None => Option::<(u64, Seq<u8>)>::None,
                    },
            decreases n - i,
        {
            proof {
                assert(RECORD_SIZE == 4104);
                assert(i as int * 4104 + 4104 <= n as int * 4104);
            }
            let pos = i * RECORD_SIZE;
            let tag = slice_subrange(image.as_slice(), pos, pos + 8);
            let index = u64_from_le_bytes(tag);
            if index == EMPTY_PIECE_INDEX {
                slots.push(Option::None);
            } else {
                let body = slice_to_vec(slice_subrange(image.as_slice(), pos + 8, pos + RECORD_SIZE));
                slots.push(Option::Some((index, body)));
            }
            i = i + 1;
        }
        let cache = PieceCache { slots };
        proof {
            assert(cache@ =~= spec_slots_of_bytes(image@, capacity));
        }
        Ok(cache)
    }

    /// Empties every slot; the capacity stays.
    pub fn wipe(&mut self)
        ensures
            final(self)@ =~= Seq::new(
                old(self)@.len(),
                |j: int| Option::<(u64, Seq<u8>)>::None,
            ),
            final(self).capacity_spec() == old(self).capacity_spec(),
    {
        proof {
            use_type_invariant(&*self);
        }
        let n = self.slots.len();
        let mut slots: Vec<Option<(u64, Vec<u8>)>> = Vec::new();
        let mut i: usize = 0;
        while i < n
            invariant
                i <= n,
                slots@.len() == i as int,
                forall|j: int| 0 <= j < i ==> slots@[j] is None,
            decreases n - i,
        {
            slots.push(Option::None);
            i = i + 1;
        }
        core::mem::swap(&mut slots, &mut self.slots);
    }
}

} // verus!
