use vstd::multiset::Multiset;
use vstd::prelude::*;

use rand::seq::SliceRandom;

use crate::board::BOARD_WIDTH;

verus! {

/// Number of distinct rotations per piece kind.
pub const ORIENTATIONS: usize = 4;

/// Number of piece kinds.
pub const PIECES: usize = 7;

/// Side length of the square bounding box every piece lives in.
pub const PIECE_SIZE: usize = 4;

/// Occupancy bitmap of the 4x4 bounding box for one (kind, orientation) pair,
/// packed into a `u16`: bit `4 * i + j` is set when the cell in box row `i`,
/// box column `j` holds a block. Kinds, in palette order: L, J, T, I, Z, S, O.
pub open spec fn shape_bits(shape: int, orientation: int) -> u16 {
    if shape == 0 {
        // L
        if orientation == 0 {
            0x0074u16
        } else if orientation == 1 {
            0x0223u16
        } else if orientation == 2 {
            0x0017u16
        } else {
            0x0311u16
        }
    } else if shape == 1 {
        // J
        if orientation == 0 {
            0x0071u16
        } else if orientation == 1 {
            0x0322u16
        } else if orientation == 2 {
            0x0047u16
        } else {
            0x0113u16
        }
    } else if shape == 2 {
        // T
        if orientation == 0 {
            0x0072u16
        } else if orientation == 1 {
            0x0232u16
        } else if orientation == 2 {
            0x0027u16
        } else {
            0x0131u16
        }
    } else if shape == 3 {
        // I
        if orientation == 0 || orientation == 2 {
            0x000fu16
        } else {
            0x1111u16
        }
    } else if shape == 4 {
        // Z
        if orientation == 0 || orientation == 2 {
            0x0063u16
        } else {
            0x0132u16
        }
    } else if shape == 5 {
        // S
        if orientation == 0 || orientation == 2 {
            0x0036u16
        } else {
            0x0231u16
        }
    } else {
        // O
        0x0033u16
    }
}

/// True when box cell (i, j) of the given (kind, orientation) holds a block.
pub open spec fn shape_occupies(shape: int, orientation: int, i: int, j: int) -> bool {
    &&& 0 <= i < 4
    &&& 0 <= j < 4
    &&& (shape_bits(shape, orientation) >> ((4 * i + j) as u16)) & 1u16 == 1u16
}

/// Exec lookup of the packed occupancy bitmap.
fn bits_for(shape: u8, orientation: u8) -> (r: u16)
    requires
        shape < 7,
        orientation < 4,
    ensures
        r == shape_bits(shape as int, orientation as int),
{
    if shape == 0 {
        if orientation == 0 {
            0x0074
        } else if orientation == 1 {
            0x0223
        } else if orientation == 2 {
            0x0017
        } else {
            0x0311
        }
    } else if shape == 1 {
        if orientation == 0 {
            0x0071
        } else if orientation == 1 {
            0x0322
        } else if orientation == 2 {
            0x0047
        } else {
            0x0113
        }
    } else if shape == 2 {
        if orientation == 0 {
            0x0072
        } else if orientation == 1 {
            0x0232
        } else if orientation == 2 {
            0x0027
        } else {
            0x0131
        }
    } else if shape == 3 {
        if orientation == 0 || orientation == 2 {
            0x000f
        } else {
            0x1111
        }
    } else if shape == 4 {
        if orientation == 0 || orientation == 2 {
            0x0063
        } else {
            0x0132
        }
    } else if shape == 5 {
        if orientation == 0 || orientation == 2 {
            0x0036
        } else {
            0x0231
        }
    } else {
        0x0033
    }
}

/// Every kind has, in every orientation, at least one block in box row 0
/// (the bitmaps are anchored to the top-left corner of the box).
pub proof fn lemma_shape_top_row(shape: int, orientation: int)
    requires
        0 <= shape < 7,
        0 <= orientation < 4,
    ensures
        exists|j: int| 0 <= j < 4 && shape_occupies(shape, orientation, 0, j),
{
    let bits = shape_bits(shape, orientation);
    assert(bits == 0x0074u16 || bits == 0x0223u16 || bits == 0x0017u16 || bits == 0x0311u16
        || bits == 0x0071u16 || bits == 0x0322u16 || bits == 0x0047u16 || bits == 0x0113u16
        || bits == 0x0072u16 || bits == 0x0232u16 || bits == 0x0027u16 || bits == 0x0131u16
        || bits == 0x000fu16 || bits == 0x1111u16 || bits == 0x0063u16 || bits == 0x0132u16
        || bits == 0x0036u16 || bits == 0x0231u16 || bits == 0x0033u16);
    assert((bits & 0x000fu16 != 0u16) ==> ((bits >> 0u16) & 1u16 == 1u16 || (bits >> 1u16) & 1u16
        == 1u16 || (bits >> 2u16) & 1u16 == 1u16 || (bits >> 3u16) & 1u16 == 1u16))
        by (bit_vector);
    assert(bits & 0x000fu16 != 0u16) by (bit_vector)
        requires
            bits == 0x0074u16 || bits == 0x0223u16 || bits == 0x0017u16 || bits == 0x0311u16
                || bits == 0x0071u16 || bits == 0x0322u16 || bits == 0x0047u16 || bits
                == 0x0113u16 || bits == 0x0072u16 || bits == 0x0232u16 || bits == 0x0027u16
                || bits == 0x0131u16 || bits == 0x000fu16 || bits == 0x1111u16 || bits
                == 0x0063u16 || bits == 0x0132u16 || bits == 0x0036u16 || bits == 0x0231u16
                || bits == 0x0033u16,
    ;
    if (bits >> 0u16) & 1u16 == 1u16 {
        assert(shape_occupies(shape, orientation, 0, 0));
    } else if (bits >> 1u16) & 1u16 == 1u16 {
        assert(shape_occupies(shape, orientation, 0, 1));
    } else if (bits >> 2u16) & 1u16 == 1u16 {
        assert(shape_occupies(shape, orientation, 0, 2));
    } else {
        assert(shape_occupies(shape, orientation, 0, 3));
    }
}

/// A tetromino instance: a kind and orientation (indices into the shape
/// table) plus the board position of the top-left corner of its 4x4 bounding
/// box. `row` may be negative: a freshly spawned piece starts above the
/// visible board. `color` is a palette index; `translucent` marks the derived
/// ghost projection that the renderer draws with reduced opacity.
#[derive(Clone, Copy, Debug, PartialEq, Eq, Structural)]
pub struct Piece {
    pub row: i32,
    pub column: i32,
    pub shape: u8,
    pub orientation: u8,
    pub color: u8,
    pub translucent: bool,
}

impl Piece {
    /// Valid indices into the shape table and the color palette.
    pub open spec fn wf(self) -> bool {
        &&& self.shape < 7
        &&& self.orientation < 4
        &&& self.color < 7
    }

    /// A new piece of the given kind at the table origin, in its default
    /// orientation, colored by its kind.
    pub fn new(shape: u8) -> (p: Piece)
        requires
            shape < 7,
        ensures
            p == (Piece {
                row: 0,
                column: 0,
                shape,
                orientation: 0,
                color: shape,
                translucent: false,
            }),
            p.wf(),
    {
        Piece { row: 0, column: 0, shape, orientation: 0, color: shape, translucent: false }
    }

    /// True when box cell (row, column) of this piece holds a block.
    pub fn has_block(&self, row: usize, column: usize) -> (r: bool)
        requires
            self.wf(),
            row < 4,
            column < 4,
        ensures
            r == shape_occupies(
                self.shape as int,
                self.orientation as int,
                row as int,
                column as int,
            ),
    {
        let bits = bits_for(self.shape, self.orientation);
        let idx: u16 = (4 * row + column) as u16;
        (bits >> idx) & 1 == 1
    }

    /// A copy of this piece moved `amt` columns to the right (left for
    /// negative `amt`).
    pub fn shift(self, amt: i32) -> (p: Piece)
        requires
            i32::MIN <= self.column + amt <= i32::MAX,
        ensures
            p == (Piece { column: (self.column + amt) as i32, ..self }),
    {
        Piece { column: self.column + amt, ..self }
    }

    /// Turn the piece `amt` quarter-turns clockwise, normalizing the
    /// orientation into `[0, 4)`; negative amounts turn counterclockwise.
    pub fn rotate(&mut self, amt: i32)
        requires
            old(self).wf(),
            -4 <= amt <= i32::MAX - 4,
        ensures
            final(self).orientation as int == (old(self).orientation as int + amt as int) % 4,
            *final(self) == (Piece { orientation: final(self).orientation, ..*old(self) }),
            final(self).wf(),
    {
        let new_orientation: i32 = self.orientation as i32 + amt;
        if new_orientation < 0 {
            self.orientation = (4 + new_orientation) as u8;
        } else {
            self.orientation = (new_orientation % 4) as u8;
        }
    }

    /// The occupied cells of this piece's 4x4 bounding box, as (box row,
    /// box column) pairs in strict row-major order. Callers iterate the
    /// returned list to visit every block of the piece.
    pub fn for_each_block(&self) -> (r: Vec<(usize, usize)>)
        requires
            self.wf(),
        ensures
            forall|k: int|
                0 <= k < r@.len() ==> (#[trigger] r@[k]).0 < 4 && r@[k].1 < 4 && shape_occupies(
                    self.shape as int,
                    self.orientation as int,
                    r@[k].0 as int,
                    r@[k].1 as int,
                ),
            forall|a: usize, b: usize|
                a < 4 && b < 4 && shape_occupies(
                    self.shape as int,
                    self.orientation as int,
                    a as int,
                    b as int,
                ) ==> #[trigger] r@.contains((a, b)),
            forall|k1: int, k2: int|
                0 <= k1 < k2 < r@.len() ==> 4 * (#[trigger] r@[k1]).0 + r@[k1].1 < 4 * (
                #[trigger] r@[k2]).0 + r@[k2].1,
    {
        let mut r: Vec<(usize, usize)> = Vec::new();
        let mut i: usize = 0;
        while i < 4
            invariant
                self.wf(),
                i <= 4,
                forall|k: int|
                    0 <= k < r@.len() ==> (#[trigger] r@[k]).0 < 4 && r@[k].1 < 4
                        && shape_occupies(
                        self.shape as int,
                        self.orientation as int,
                        r@[k].0 as int,
                        r@[k].1 as int,
                    ),
                forall|a: usize, b: usize|
                    a < 4 && b < 4 && 4 * a + b < 4 * i && shape_occupies(
                        self.shape as int,
                        self.orientation as int,
                        a as int,
                        b as int,
                    ) ==> #[trigger] r@.contains((a, b)),
                forall|k: int|
                    0 <= k < r@.len() ==> 4 * (#[trigger] r@[k]).0 + r@[k].1 < 4 * i,
                forall|k1: int, k2: int|
                    0 <= k1 < k2 < r@.len() ==> 4 * (#[trigger] r@[k1]).0 + r@[k1].1 < 4 * (
                    #[trigger] r@[k2]).0 + r@[k2].1,
            decreases 4 - i,
        {
            let mut j: usize = 0;
            while j < 4
                invariant
                    self.wf(),
                    i < 4,
                    j <= 4,
                    forall|k: int|
                        0 <= k < r@.len() ==> (#[trigger] r@[k]).0 < 4 && r@[k].1 < 4
                            && shape_occupies(
                            self.shape as int,
                            self.orientation as int,
                            r@[k].0 as int,
                            r@[k].1 as int,
                        ),
                    forall|a: usize, b: usize|
                        a < 4 && b < 4 && 4 * a + b < 4 * i + j && shape_occupies(
                            self.shape as int,
                            self.orientation as int,
                            a as int,
                            b as int,
                        ) ==> #[trigger] r@.contains((a, b)),
                    forall|k: int|
                        0 <= k < r@.len() ==> 4 * (#[trigger] r@[k]).0 + r@[k].1 < 4 * i + j,
                    forall|k1: int, k2: int|
                        0 <= k1 < k2 < r@.len() ==> 4 * (#[trigger] r@[k1]).0 + r@[k1].1 < 4 * (
                        #[trigger] r@[k2]).0 + r@[k2].1,
                decreases 4 - j,
            {
                if self.has_block(i, j) {
                    let ghost prev = r@;
                    r.push((i, j));
                    proof {
                        assert(r@ == prev.push((i, j)));
                        assert(r@[r@.len() - 1] == (i, j));
                        assert forall|a: usize, b: usize|
                            a < 4 && b < 4 && 4 * a + b < 4 * i + j + 1 && shape_occupies(
                                self.shape as int,
                                self.orientation as int,
                                a as int,
                                b as int,
                            ) implies #[trigger] r@.contains((a, b)) by {
                            if 4 * a + b < 4 * i + j {
                                assert(prev.contains((a, b)));
                                let n = choose|n: int| 0 <= n < prev.len() && prev[n] == (a, b);
                                assert(r@[n] == (a, b));
                            } else {
                                assert(a == i && b == j);
                                assert(r@[r@.len() - 1] == (a, b));
                            }
                        }
                    }
                }
                j += 1;
            }
            i += 1;
        }
        r
    }

    /// Move the piece to its spawn position: two rows above the visible
    /// board, with its bounding box centered horizontally.
    pub fn prepare(self) -> (p: Piece)
        ensures
            p == (Piece { row: -2i32, column: (BOARD_WIDTH / 2 - PIECE_SIZE / 2) as i32, ..self }),
            p.column == 3,
    {
        Piece { row: -2, column: (BOARD_WIDTH / 2 - PIECE_SIZE / 2) as i32, ..self }
    }
}

/// Rotating any piece one quarter-turn one way and then one quarter-turn the
/// other way restores its original orientation: `rotate(1)` then `rotate(-1)`
/// (or the reverse order) is the identity on the orientation, by the mod-4
/// round trip stated here over `rotate`'s postcondition.
pub proof fn lemma_rotate_round_trip(p: Piece)
    requires
        p.wf(),
    ensures
        ((p.orientation as int + 1) % 4 + -1) % 4 == p.orientation as int,
        ((p.orientation as int + -1) % 4 + 1) % 4 == p.orientation as int,
{
}

/// A ghost projection of a piece: the same cells, marked translucent so the
/// renderer draws it with reduced opacity.
pub fn make_ghost(p: &Piece) -> (g: Piece)
    ensures
        g == (Piece { translucent: true, ..*p }),
{
    Piece { translucent: true, ..*p }
}

/// The seven piece kinds, one of each.
pub open spec fn all_kinds() -> Seq<u8> {
    seq![0u8, 1u8, 2u8, 3u8, 4u8, 5u8, 6u8]
}

/// A piece as `Piece::new` creates it: at the table origin, default
/// orientation, colored by its kind.
pub open spec fn is_fresh_piece(p: Piece) -> bool {
    &&& p.wf()
    &&& p.row == 0
    &&& p.column == 0
    &&& p.orientation == 0
    &&& p.color == p.shape
    &&& !p.translucent
}

/// Relies on `rand::seq::SliceRandom::shuffle` (driven by
/// `rand::thread_rng`): it permutes the slice in place by element swaps, so
/// the multiset of elements is unchanged. Which permutation comes out is
/// random; nothing is assumed about it.
#[verifier::external_body]
fn shuffle_kinds(v: &mut Vec<u8>)
    ensures
        final(v)@.to_multiset() == old(v)@.to_multiset(),
        final(v)@.len() == old(v)@.len(),
{
    v.shuffle(&mut rand::thread_rng());
}

/// A fresh bag: one piece of each of the 7 kinds, in a random order.
pub fn generate_pieces() -> (v: Vec<Piece>)
    ensures
        v@.len() == 7,
        forall|k: int| 0 <= k < 7 ==> is_fresh_piece(#[trigger] v@[k]),
        v@.map_values(|p: Piece| p.shape).to_multiset() == all_kinds().to_multiset(),
{
    let mut kinds: Vec<u8> = Vec::new();
    let mut k: u8 = 0;
    while k < 7
        invariant
            k <= 7,
            kinds@.len() == k,
            forall|n: int| 0 <= n < k ==> kinds@[n] == n as u8,
        decreases 7 - k,
    {
        kinds.push(k);
        k += 1;
    }
    proof {
        assert(kinds@ =~= all_kinds());
    }
    shuffle_kinds(&mut kinds);
    proof {
        lemma_kind_multiset_members(kinds@);
    }
    let mut v: Vec<Piece> = Vec::new();
    let mut idx: usize = 0;
    while idx < 7
        invariant
            kinds@.len() == 7,
            forall|n: int| 0 <= n < 7 ==> #[trigger] kinds@[n] < 7,
            idx <= 7,
            v@.len() == idx,
            forall|n: int| 0 <= n < idx ==> is_fresh_piece(#[trigger] v@[n]),
            forall|n: int| 0 <= n < idx ==> (#[trigger] v@[n]).shape == kinds@[n],
        decreases 7 - idx,
    {
        let kind = kinds[idx];
        v.push(Piece::new(kind));
        idx += 1;
    }
    proof {
        assert(v@.map_values(|p: Piece| p.shape) =~= kinds@);
    }
    v
}

/// Every element of a sequence whose element multiset is that of `all_kinds`
/// is a valid kind index.
proof fn lemma_kind_multiset_members(kinds: Seq<u8>)
    requires
        kinds.to_multiset() == all_kinds().to_multiset(),
    ensures
        forall|n: int| 0 <= n < kinds.len() ==> #[trigger] kinds[n] < 7,
{
    broadcast use vstd::seq_lib::group_to_multiset_ensures;

    assert forall|n: int| 0 <= n < kinds.len() implies #[trigger] kinds[n] < 7 by {
        let x = kinds[n];
        assert(kinds.contains(x));
        assert(kinds.to_multiset().count(x) > 0);
        assert(all_kinds().contains(x));
        let m = choose|m: int| 0 <= m < all_kinds().len() && all_kinds()[m] == x;
        assert(x < 7);
    }
}

/// Law: within one bag, every one of the 7 kinds appears exactly once.
pub proof fn lemma_bag_each_kind_once(kinds: Seq<u8>)
    requires
        kinds.to_multiset() == all_kinds().to_multiset(),
    ensures
        kinds.len() == 7,
        forall|k: u8| k < 7 ==> kinds.to_multiset().count(k) == 1,
{
    broadcast use vstd::seq_lib::group_to_multiset_ensures;
    broadcast use vstd::multiset::group_multiset_axioms;

    let s0 = Seq::<u8>::empty();
    let s1 = s0.push(0);
    let s2 = s1.push(1);
    let s3 = s2.push(2);
    let s4 = s3.push(3);
    let s5 = s4.push(4);
    let s6 = s5.push(5);
    let s7 = s6.push(6);
    assert(all_kinds() =~= s7);
    assert(s7.to_multiset() =~= s6.to_multiset().insert(6));
    assert(s6.to_multiset() =~= s5.to_multiset().insert(5));
    assert(s5.to_multiset() =~= s4.to_multiset().insert(4));
    assert(s4.to_multiset() =~= s3.to_multiset().insert(3));
    assert(s3.to_multiset() =~= s2.to_multiset().insert(2));
    assert(s2.to_multiset() =~= s1.to_multiset().insert(1));
    assert(s1.to_multiset() =~= s0.to_multiset().insert(0));
    assert(s0.to_multiset() =~= Multiset::<u8>::empty());
    assert(kinds.len() == kinds.to_multiset().len());
    assert(all_kinds().len() == all_kinds().to_multiset().len());
    assert forall|k: u8| k < 7 implies kinds.to_multiset().count(k) == 1 by {
        assert(s0.to_multiset().count(k) == 0);
    }
}

} // verus!
