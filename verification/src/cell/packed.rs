//! The packed cell byte and its transitions.
//!
//! Bit 0 is the alive flag, bits 1 to 4 hold the number of live neighbors
//! (0 to 8), bits 5 to 7 are unused and zero in every valid byte.

use vstd::prelude::*;
use vstd::string::StringExecFns;

verus! {

/// Why a cell refused a transition.
#[derive(Clone, Copy, Debug, PartialEq, Eq, Structural)]
pub enum CellError {
    /// The neighbor count was already 8 (or more) when an increment was asked for.
    NeighborCountOverflow,
    /// The neighbor count was already 0 when a decrement was asked for.
    NeighborCountUnderflow,
}

/// The largest neighbor count a cell on a torus can have.
pub const MAX_NEIGHBORS: u8 = 8;

/// Whether the alive flag of `b` is set.
pub open spec fn alive_of(b: u8) -> bool {
    b & 1 == 1
}

/// The neighbor count stored in `b`.
pub open spec fn count_of(b: u8) -> nat {
    ((b >> 1) & 0b1111) as nat
}

/// A byte is valid when its unused bits are zero and its count is at most 8.
pub open spec fn is_valid(b: u8) -> bool {
    b & 0b1110_0000 == 0 && count_of(b) <= 8
}

/// The byte that holds exactly this flag and this count.
pub open spec fn encode(alive: bool, count: nat) -> u8 {
    (if alive { 1u8 } else { 0u8 }) | ((count as u8) << 1)
}

/// `b` with the alive flag set.
pub open spec fn spawned(b: u8) -> u8 {
    b | 1
}

/// `b` with the alive flag cleared.
pub open spec fn killed(b: u8) -> u8 {
    b & 0b1111_1110
}

/// `b` with its count replaced by `n`; the unused bits come out zero.
pub open spec fn recounted(b: u8, n: nat) -> u8 {
    encode(alive_of(b), n)
}

/// The facts about the bits of a byte that the lemmas below are made of.
proof fn lemma_bits(b: u8, n: u8)
    by (bit_vector)
    ensures
        (b >> 1) & 0b1111 <= 15,
        (b | 1) & 1 == 1,
        ((b | 1) >> 1) & 0b1111 == (b >> 1) & 0b1111,
        (b | 1) & 0b1110_0000 == b & 0b1110_0000,
        (b & 0b1111_1110) & 1 == 0,
        ((b & 0b1111_1110) >> 1) & 0b1111 == (b >> 1) & 0b1111,
        (b & 0b1111_1110) & 0b1110_0000 == b & 0b1110_0000,
        b & 1 == 0 || b & 1 == 1,
        n <= 15 ==> ((1u8 | (n << 1)) >> 1) & 0b1111 == n,
        n <= 15 ==> ((0u8 | (n << 1)) >> 1) & 0b1111 == n,
        n <= 15 ==> (1u8 | (n << 1)) & 1 == 1,
        n <= 15 ==> (0u8 | (n << 1)) & 1 == 0,
        n <= 15 ==> (1u8 | (n << 1)) == 2 * n + 1,
        n <= 15 ==> (0u8 | (n << 1)) == 2 * n,
        n <= 15 ==> (1u8 | (n << 1)) & 0b1110_0000 == 0,
        n <= 15 ==> (0u8 | (n << 1)) & 0b1110_0000 == 0,
        n <= 15 ==> (b & 1) | (n << 1) == (if b & 1 == 1 { 1u8 } else { 0u8 }) | (n << 1),
        b & 0b1110_0000 == 0 ==> (b & 1) | (((b >> 1) & 0b1111) << 1) == b,
        b & 0b1110_0000 == 0 <==> b < 32,
        b & 0b1110_0000 == 0 ==> b == 2 * ((b >> 1) & 0b1111) + (b & 1),
        b == 0 ==> b & 1 == 0 && (b >> 1) & 0b1111 == 0,
        (b & 1 == 0 && (b >> 1) & 0b1111 == 0 && b & 0b1110_0000 == 0) ==> b == 0,
{
}

/// What `encode` stores can be read back, and the result is valid for counts up to 8.
pub proof fn lemma_encode(alive: bool, n: nat)
    requires
        n <= 15,
    ensures
        alive_of(encode(alive, n)) == alive,
        count_of(encode(alive, n)) == n,
        encode(alive, n) & 0b1110_0000 == 0,
        encode(alive, n) == 2 * n + if alive {
            1int
        } else {
            0int
        },
        n <= 8 ==> is_valid(encode(alive, n)),
{
    lemma_bits(0, n as u8);
}

/// A byte without stray bits is the encoding of its own flag and count.
pub proof fn lemma_decode(b: u8)
    ensures
        count_of(b) <= 15,
        b & 0b1110_0000 == 0 ==> encode(alive_of(b), count_of(b)) == b,
        is_valid(b) ==> b <= 17,
        b == 0 ==> !alive_of(b) && count_of(b) == 0 && is_valid(b),
        !alive_of(b) && count_of(b) == 0 && is_valid(b) ==> b == 0,
{
    lemma_bits(b, 0);
    let n: u8 = (b >> 1) & 0b1111;
    lemma_bits(b, n);
}

/// Setting or clearing the alive flag leaves the count and the unused bits alone.
pub proof fn lemma_flag_transitions(b: u8)
    ensures
        alive_of(spawned(b)),
        count_of(spawned(b)) == count_of(b),
        is_valid(b) ==> is_valid(spawned(b)),
        !alive_of(killed(b)),
        count_of(killed(b)) == count_of(b),
        is_valid(b) ==> is_valid(killed(b)),
        alive_of(b) ==> spawned(b) == b,
        !alive_of(b) ==> killed(b) == b,
{
    lemma_bits(b, 0);
    assert(b & 1 == 1 ==> b | 1 == b) by (bit_vector);
    assert(b & 1 != 1 ==> b & 0b1111_1110 == b) by (bit_vector);
}

/// Changing the count keeps the flag, and yields a valid byte for counts up to 8.
pub proof fn lemma_recounted(b: u8, n: nat)
    requires
        n <= 15,
    ensures
        alive_of(recounted(b, n)) == alive_of(b),
        count_of(recounted(b, n)) == n,
        n <= 8 ==> is_valid(recounted(b, n)),
        is_valid(b) && n == count_of(b) ==> recounted(b, n) == b,
{
    lemma_encode(alive_of(b), n);
    lemma_decode(b);
}

/// Every transition of a valid byte that is not refused ends in a valid byte:
/// the neighbor count never leaves the range from 0 to 8.
pub proof fn lemma_transitions_keep_valid(b: u8)
    requires
        is_valid(b),
    ensures
        count_of(b) <= 8,
        is_valid(spawned(b)),
        is_valid(killed(b)),
        count_of(b) < 8 ==> is_valid(recounted(b, count_of(b) + 1)),
        count_of(b) > 0 ==> is_valid(recounted(b, (count_of(b) - 1) as nat)),
{
    lemma_flag_transitions(b);
    if count_of(b) < 8 {
        lemma_recounted(b, count_of(b) + 1);
    }
    if count_of(b) > 0 {
        lemma_recounted(b, (count_of(b) - 1) as nat);
    }
}

/// Reads the alive flag.
pub fn byte_alive(b: u8) -> (r: bool)
    ensures
        r == alive_of(b),
{
    b & 1 == 1
}

/// Reads the neighbor count.
pub fn byte_neighbors(b: u8) -> (r: u8)
    ensures
        r == count_of(b),
        r <= 15,
        is_valid(b) ==> r <= MAX_NEIGHBORS,
{
    proof {
        lemma_bits(b, 0);
    }
    (b >> 1) & 0b0000_1111
}

/// Sets the alive flag.
pub fn byte_spawn(b: u8) -> (r: u8)
    ensures
        r == spawned(b),
        is_valid(b) ==> is_valid(r),
{
    proof {
        lemma_flag_transitions(b);
    }
    b | 1
}

/// Clears the alive flag.
pub fn byte_kill(b: u8) -> (r: u8)
    ensures
        r == killed(b),
        is_valid(b) ==> is_valid(r),
{
    proof {
        lemma_flag_transitions(b);
    }
    b & 0b1111_1110
}

/// Raises the neighbor count by one, unless it is already 8 or more.
pub fn byte_add_neighbor(b: u8) -> (r: Result<u8, CellError>)
    ensures
        match r {
            Ok(v) => count_of(b) < 8 && v == recounted(b, count_of(b) + 1) && (is_valid(b)
                ==> is_valid(v)),
            Err(e) => count_of(b) >= 8 && e == CellError::NeighborCountOverflow,
        },
{
    let count: u8 = byte_neighbors(b);
    if count + 1 <= MAX_NEIGHBORS {
        proof {
            lemma_bits(b, (count + 1) as u8);
            lemma_recounted(b, count_of(b) + 1);
        }
        Ok((b & 0b0000_0001) | ((count + 1) << 1))
    } else {
        Err(CellError::NeighborCountOverflow)
    }
}

/// Lowers the neighbor count by one, unless it is already 0.
pub fn byte_remove_neighbor(b: u8) -> (r: Result<u8, CellError>)
    ensures
        match r {
            Ok(v) => count_of(b) > 0 && v == recounted(b, (count_of(b) - 1) as nat) && (is_valid(
                b,
            ) ==> is_valid(v)),
            Err(e) => count_of(b) == 0 && e == CellError::NeighborCountUnderflow,
        },
{
    let count: u8 = byte_neighbors(b);
    if count > 0 {
        proof {
            lemma_bits(b, (count - 1) as u8);
            lemma_recounted(b, (count_of(b) - 1) as nat);
        }
        Ok((b & 0b0000_0001) | ((count - 1) << 1))
    } else {
        Err(CellError::NeighborCountUnderflow)
    }
}

/// The eight binary digits of `b`, most significant first.
pub open spec fn bits_text(b: u8) -> Seq<char> {
    Seq::new(8, |i: int| if (b >> ((7 - i) as u8)) & 1 == 1 { '1' } else { '0' })
}

/// Writes `b` as eight binary digits, most significant first.
pub fn byte_to_string(b: u8) -> (r: String)
    ensures
        r@ == bits_text(b),
{
    let mut text: String = String::new();
    let mut i: u8 = 0;
    while i < 8
        invariant
            i <= 8,
            text@.len() == i,
            forall|j: int| 0 <= j < i ==> text@[j] == bits_text(b)[j],
        decreases 8 - i,
    {
        proof {
            reveal_strlit("1");
            reveal_strlit("0");
        }
        if (b >> (7 - i)) & 1 == 1 {
            text.append("1");
        } else {
            text.append("0");
        }
        i += 1;
    }
    assert(text@ =~= bits_text(b));
    text
}

} // verus!
