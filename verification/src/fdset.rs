//! The descriptor sets of `select`: arrays of words, one bit per descriptor.
use vstd::prelude::*;
use bit_field::BitArray;

verus! {

/// The number of bits in a word.
pub open spec fn word_bits() -> int {
    usize::BITS as int
}

/// Whether bit `b` of a word array is set: bit `b % W` of word `b / W`,
/// where `W` is the number of bits in a word.
pub open spec fn bit_set(s: Seq<usize>, b: int) -> bool {
    s[b / word_bits()] & (1usize << ((b % word_bits()) as usize)) != 0
}

/// Reads bit `bit` of `set`, through `bit_field`'s `BitArray::get_bit`:
/// bit `bit % W` of word `bit / W`. That function panics past the last
/// word, which `requires` leaves out.
#[verifier::external_body]
fn fd_get(set: &[usize], bit: usize) -> (res: bool)
    requires
        bit < set@.len() * word_bits(),
    ensures
        res == bit_set(set@, bit as int),
{
    BitArray::get_bit(set, bit)
}

/// Sets bit `bit` of `set` to `value`, through `bit_field`'s
/// `BitArray::set_bit`, which ors in or masks out that one bit of word
/// `bit / W` and leaves every other bit as it was. It panics past the last
/// word, which `requires` leaves out.
#[verifier::external_body]
fn fd_put(set: &mut [usize], bit: usize, value: bool)
    requires
        bit < old(set)@.len() * word_bits(),
    ensures
        final(set)@.len() == old(set)@.len(),
        forall|b: int|
            0 <= b < old(set)@.len() * word_bits() ==> #[trigger] bit_set(final(set)@, b) == (if b
                == bit {
                value
            } else {
                bit_set(old(set)@, b)
            }),
{
    BitArray::set_bit(set, bit, value)
}

/// The number of descriptors below `n` that are asked for, open, and ready.
pub open spec fn ready_count(
    requested: Seq<usize>,
    open: Seq<bool>,
    ready: Seq<Option<bool>>,
    n: int,
) -> int
    decreases n,
{
    if n <= 0 {
        0
    } else {
        ready_count(requested, open, ready, n - 1) + if bit_set(requested, n - 1) && open[n - 1]
            && ready[n - 1] == Some(true) {
            1int
        } else {
            0int
        }
    }
}

/// The bit that `select` reports for descriptor `b`: not asked for, it is
/// cleared or left as it was (`clear_unrequested`); asked for, it is set
/// exactly when the descriptor is open and its poll said ready.
pub open spec fn select_bit(
    requested: Seq<usize>,
    old_result: Seq<usize>,
    open: Seq<bool>,
    ready: Seq<Option<bool>>,
    clear_unrequested: bool,
    b: int,
) -> bool {
    if !bit_set(requested, b) {
        if clear_unrequested {
            false
        } else {
            bit_set(old_result, b)
        }
    } else {
        open[b] && ready[b] == Some(true)
    }
}

/// The largest descriptor count `select` looks at.
pub const SELECT_MAX: usize = 255;

/// One pass of `select` over one set: for each descriptor below
/// `min(max_fdp1, 255)` sets its bit of `result` as `select_bit` says and
/// returns how many are ready. `open[i]` says whether descriptor `i` is
/// open; `ready[i]` is what polling it gave (`None` for an error), and is
/// only looked at for open descriptors that are asked for. Bits at and past
/// the limit are left as they were.
pub fn select_scan(
    requested: &[usize],
    result: &mut [usize],
    max_fdp1: usize,
    open: &[bool],
    ready: &[Option<bool>],
    clear_unrequested: bool,
) -> (res: usize)
    requires
        requested@.len() * word_bits() >= SELECT_MAX,
        old(result)@.len() * word_bits() >= SELECT_MAX,
        open@.len() >= SELECT_MAX,
        ready@.len() >= SELECT_MAX,
    ensures
        ({
            let max: int = if max_fdp1 < SELECT_MAX {
                max_fdp1 as int
            } else {
                SELECT_MAX as int
            };
            &&& res == ready_count(requested@, open@, ready@, max)
            &&& final(result)@.len() == old(result)@.len()
            &&& forall|b: int|
                0 <= b < old(result)@.len() * word_bits() ==> #[trigger] bit_set(final(result)@, b)
                    == if b < max {
                    select_bit(requested@, old(result)@, open@, ready@, clear_unrequested, b)
                } else {
                    bit_set(old(result)@, b)
                }
        }),
{
    let max = if max_fdp1 < SELECT_MAX {
        max_fdp1
    } else {
        SELECT_MAX
    };
    let mut num: usize = 0;
    let mut i: usize = 0;
    while i < max
        invariant
            max <= SELECT_MAX,
            i <= max,
            requested@.len() * word_bits() >= SELECT_MAX,
            result@.len() == old(result)@.len(),
            old(result)@.len() * word_bits() >= SELECT_MAX,
            open@.len() >= SELECT_MAX,
            ready@.len() >= SELECT_MAX,
            num == ready_count(requested@, open@, ready@, i as int),
            num <= i,
            forall|b: int|
                0 <= b < old(result)@.len() * word_bits() ==> #[trigger] bit_set(result@, b) == if b
                    < i {
                    select_bit(requested@, old(result)@, open@, ready@, clear_unrequested, b)
                } else {
                    bit_set(old(result)@, b)
                },
        decreases max - i,
    {
        if !fd_get(requested, i) {
            if clear_unrequested {
                fd_put(result, i, false);
            }
        } else if !open[i] {
            fd_put(result, i, false);
        } else {
            match ready[i] {
                Some(true) => {
                    num = num + 1;
                    fd_put(result, i, true);
                },
                _ => {
                    fd_put(result, i, false);
                },
            }
        }
        i = i + 1;
    }
    num
}

} // verus!
