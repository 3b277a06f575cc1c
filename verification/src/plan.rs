//! How a file is cut into parts.

use vstd::arithmetic::div_mod::{
    lemma_div_is_ordered_by_denominator, lemma_div_minus_one, lemma_fundamental_div_mod,
    lemma_fundamental_div_mod_converse, lemma_mod_sub_multiples_vanish, lemma_small_mod,
};
use vstd::prelude::*;

verus! {

/// The smallest part that the service takes before the last one: 1 MB.
pub const PART_MIN_SIZE: usize = 1024 * 1024;

/// The largest part that the service takes: 1 GB.
pub const PART_MAX_SIZE: usize = 1024 * 1024 * 1024;

/// The number of upload threads where the caller names none.
pub const DEFAULT_THREADS: u8 = 5;

/// The size asked for: the caller's, or an equal share for each thread.
pub open spec fn wanted_part_size(
    file_size: int,
    part_size: Option<usize>,
    threads: Option<u8>,
) -> int {
    match part_size {
        Some(size) => size as int,
        None => match threads {
            Some(count) => file_size / (count as int),
            None => file_size / (DEFAULT_THREADS as int),
        },
    }
}

/// `size`, moved into the range that the service takes.
pub open spec fn clamped_part_size(size: int) -> int {
    if size < PART_MIN_SIZE {
        PART_MIN_SIZE as int
    } else if size > PART_MAX_SIZE {
        PART_MAX_SIZE as int
    } else {
        size
    }
}

/// The size of every part but the last of a file of `file_size` bytes.
pub open spec fn part_size_of(
    file_size: int,
    part_size: Option<usize>,
    threads: Option<u8>,
) -> int {
    clamped_part_size(wanted_part_size(file_size, part_size, threads))
}

/// Whether `size` lies in the range that the service takes.
pub open spec fn valid_part_size(size: int) -> bool {
    PART_MIN_SIZE <= size <= PART_MAX_SIZE
}

/// The size of the next part where `left` bytes are still to be sent: all of
/// them where less than 1 MB would stay behind and they fit into one part.
pub open spec fn next_part_size(part_size: int, left: int) -> int {
    if left < part_size + PART_MIN_SIZE && left <= PART_MAX_SIZE {
        left
    } else {
        part_size
    }
}

/// The sizes of the parts of the last `left` bytes of a file, in order.
pub open spec fn part_sizes(part_size: int, left: int) -> Seq<int>
    decreases left,
{
    if left <= 0 || !valid_part_size(part_size) {
        seq![]
    } else {
        let size = next_part_size(part_size, left);
        seq![size] + part_sizes(part_size, left - size)
    }
}

/// The fewest bytes that do not go out as one part.
pub open spec fn least_cut(part_size: int) -> int {
    if part_size + PART_MIN_SIZE <= PART_MAX_SIZE {
        part_size + PART_MIN_SIZE
    } else {
        PART_MAX_SIZE + 1
    }
}

/// The number of parts of `left` bytes.
pub open spec fn part_count_of(part_size: int, left: int) -> int {
    let whole = least_cut(part_size);
    if left <= 0 {
        0
    } else if left < whole {
        1
    } else {
        (left - whole) / part_size + 2
    }
}

/// The sum of the sizes.
pub open spec fn total(sizes: Seq<int>) -> int
    decreases sizes.len(),
{
    if sizes.len() == 0 {
        0
    } else {
        sizes[0] + total(sizes.skip(1))
    }
}

/// Computes the part size of an upload.
///
/// A `part_size` given by the caller is used before `threads` is looked at.
pub fn compute_part_size(
    file_size: usize,
    part_size: Option<usize>,
    threads: Option<u8>,
) -> (size: usize)
    requires
        part_size is Some || threads != Some(0u8),
    ensures
        size == part_size_of(file_size as int, part_size, threads),
        valid_part_size(size as int),
{
    let wanted: usize = match part_size {
        Some(size) => size,
        None => {
            let count: u8 = match threads {
                Some(count) => count,
                None => DEFAULT_THREADS,
            };
            file_size / (count as usize)
        },
    };
    if wanted < PART_MIN_SIZE {
        PART_MIN_SIZE
    } else if wanted > PART_MAX_SIZE {
        PART_MAX_SIZE
    } else {
        wanted
    }
}

/// Computes the size of the next part where `left` bytes are still to be sent.
pub fn compute_next_part_size(part_size: usize, left: usize) -> (size: usize)
    requires
        valid_part_size(part_size as int),
    ensures
        size == next_part_size(part_size as int, left as int),
        size <= left,
        left > 0 ==> size > 0,
{
    if left < part_size + PART_MIN_SIZE && left <= PART_MAX_SIZE {
        left
    } else {
        part_size
    }
}

/// Computes into how many parts a file is cut.
pub fn part_count(file_size: usize, part_size: usize) -> (count: usize)
    requires
        valid_part_size(part_size as int),
    ensures
        count == part_sizes(part_size as int, file_size as int).len(),
        count == part_count_of(part_size as int, file_size as int),
{
    proof {
        lemma_part_count(part_size as int, file_size as int);
    }
    let whole: usize = if part_size + PART_MIN_SIZE <= PART_MAX_SIZE {
        part_size + PART_MIN_SIZE
    } else {
        PART_MAX_SIZE + 1
    };
    if file_size == 0 {
        0
    } else if file_size < whole {
        1
    } else {
        proof {
            lemma_div_is_ordered_by_denominator(file_size - whole, 1, part_size as int);
        }
        (file_size - whole) / part_size + 2
    }
}

/// The parts number as many as the closed form says, every part but the last
/// has exactly the part size, and the last has what is left.
pub proof fn lemma_part_count(part_size: int, left: int)
    requires
        valid_part_size(part_size),
        left >= 0,
    ensures
        part_sizes(part_size, left).len() == part_count_of(part_size, left),
        forall|i: int|
            0 <= i < part_count_of(part_size, left) - 1 ==> #[trigger] part_sizes(
                part_size,
                left,
            )[i] == part_size,
        left > 0 ==> part_sizes(part_size, left).last() == left - (part_count_of(part_size, left)
            - 1) * part_size,
    decreases left,
{
    let sizes = part_sizes(part_size, left);
    if left > 0 {
        let size = next_part_size(part_size, left);
        let rest = part_sizes(part_size, left - size);
        assert(sizes == seq![size] + rest);
        if size == left {
            assert(rest.len() == 0);
            assert(part_count_of(part_size, left) == 1);
            assert((1 - 1) * part_size == 0);
        } else {
            lemma_part_count(part_size, left - part_size);
            let whole = least_cut(part_size);
            if left - part_size < whole {
                assert((left - whole) / part_size == 0) by (nonlinear_arith)
                    requires
                        0 <= left - whole < part_size,
                ;
            } else {
                lemma_div_minus_one(left - whole, part_size);
            }
            let n = part_count_of(part_size, left);
            assert(n == 1 + part_count_of(part_size, left - part_size));
            assert((n - 1) * part_size == (n - 2) * part_size + part_size) by (nonlinear_arith);
            assert forall|i: int| 0 <= i < n - 1 implies #[trigger] sizes[i] == part_size by {
                if i > 0 {
                    assert(sizes[i] == rest[i - 1]);
                }
            }
            assert(sizes.last() == rest.last());
        }
    }
}

/// The parts of a file hold all of its bytes and no others.
pub proof fn lemma_parts_cover_file(part_size: int, left: int)
    requires
        valid_part_size(part_size),
        left >= 0,
    ensures
        total(part_sizes(part_size, left)) == left,
    decreases left,
{
    if left > 0 {
        let size = next_part_size(part_size, left);
        let sizes = part_sizes(part_size, left);
        assert(sizes.skip(1) == part_sizes(part_size, left - size));
        lemma_parts_cover_file(part_size, left - size);
    }
}

/// No part is empty and none is larger than 1 GB.
pub proof fn lemma_parts_bounded(part_size: int, left: int)
    requires
        valid_part_size(part_size),
        left >= 0,
    ensures
        forall|i: int|
            0 <= i < part_sizes(part_size, left).len() ==> 0 < #[trigger] part_sizes(
                part_size,
                left,
            )[i] <= PART_MAX_SIZE,
    decreases left,
{
    if left > 0 {
        let size = next_part_size(part_size, left);
        let sizes = part_sizes(part_size, left);
        let rest = part_sizes(part_size, left - size);
        lemma_parts_bounded(part_size, left - size);
        assert forall|i: int| 0 <= i < sizes.len() implies 0 < #[trigger] sizes[i]
            <= PART_MAX_SIZE by {
            if i > 0 {
                assert(sizes[i] == rest[i - 1]);
            }
        }
    }
}

/// Whether cutting `left` bytes leaves a part of less than 1 MB: where there is
/// less than that to send, or where the tail of less than 1 MB cannot be joined
/// to the part before it because the two together would pass 1 GB.
pub open spec fn leaves_small_part(part_size: int, left: int) -> bool {
    ||| 0 < left < PART_MIN_SIZE
    ||| {
        &&& left >= part_size
        &&& left % part_size < PART_MIN_SIZE
        &&& left % part_size + part_size > PART_MAX_SIZE
    }
}

/// Every part holds at least 1 MB, except where the file itself is smaller or
/// its short tail cannot be joined to the part before it.
pub proof fn lemma_parts_reach_minimum(part_size: int, left: int)
    requires
        valid_part_size(part_size),
        left >= 0,
    ensures
        (forall|i: int|
            0 <= i < part_sizes(part_size, left).len() ==> #[trigger] part_sizes(part_size, left)[i]
                >= PART_MIN_SIZE) <==> !leaves_small_part(part_size, left),
    decreases left,
{
    let sizes = part_sizes(part_size, left);
    if left == 0 {
        assert(sizes.len() == 0);
    } else {
        let size = next_part_size(part_size, left);
        let rest = part_sizes(part_size, left - size);
        assert(sizes == seq![size] + rest);
        assert(sizes[0] == size);
        if size == left {
            assert(rest.len() == 0);
            if left >= part_size && left < 2 * part_size {
                assert(left % part_size == left - part_size) by {
                    lemma_fundamental_div_mod_converse(left, part_size, 1, left - part_size);
                }
            }
        } else {
            lemma_parts_reach_minimum(part_size, left - part_size);
            lemma_mod_sub_multiples_vanish(left, part_size);
            if left - part_size < part_size {
                lemma_small_mod((left - part_size) as nat, part_size as nat);
            }
            assert forall|i: int| 0 <= i < rest.len() implies #[trigger] rest[i] == sizes[i
                + 1] by {}
            assert forall|i: int| 1 <= i < sizes.len() implies #[trigger] sizes[i] == rest[i
                - 1] by {}
        }
    }
}

/// Where the caller names a number of threads and no part size, and an equal
/// share per thread is a size that the service takes, the file is cut into
/// exactly one part per thread; where no number is named, it is cut as for five.
/// The exception is a share so large that the bytes left over by the division
/// would make the last part pass 1 GB.
pub proof fn lemma_one_part_per_thread(file_size: int, threads: u8)
    requires
        threads > 0,
        file_size >= 0,
        valid_part_size(file_size / (threads as int)),
        file_size / (threads as int) + file_size % (threads as int) <= PART_MAX_SIZE,
    ensures
        part_size_of(file_size, None, Some(threads)) == file_size / (threads as int),
        part_sizes(part_size_of(file_size, None, Some(threads)), file_size).len() == threads,
        threads == DEFAULT_THREADS ==> part_size_of(file_size, None, None) == part_size_of(
            file_size,
            None,
            Some(threads),
        ),
{
    let count = threads as int;
    let share = file_size / count;
    let over = file_size % count;
    lemma_fundamental_div_mod(file_size, count);
    lemma_part_count(share, file_size);
    assert(count * share == share * count) by (nonlinear_arith);
    lemma_share_count(share, count, over);
}

proof fn lemma_share_count(share: int, count: int, over: int)
    requires
        valid_part_size(share),
        1 <= count,
        0 <= over < PART_MIN_SIZE,
        share + over <= PART_MAX_SIZE,
    ensures
        part_sizes(share, share * count + over).len() == count,
    decreases count,
{
    let left = share * count + over;
    assert(left >= share) by (nonlinear_arith)
        requires
            left == share * count + over,
            count >= 1,
            share >= 0,
            over >= 0,
    ;
    let size = next_part_size(share, left);
    assert(part_sizes(share, left) == seq![size] + part_sizes(share, left - size));
    if count == 1 {
        assert(share * count == share) by (nonlinear_arith)
            requires
                count == 1,
        ;
        assert(size == left);
        assert(part_sizes(share, left - size).len() == 0);
    } else {
        assert(share * count == share * (count - 1) + share) by (nonlinear_arith);
        assert(share * (count - 1) >= share) by (nonlinear_arith)
            requires
                count >= 2,
                share >= 0,
        ;
        assert(size == share);
        lemma_share_count(share, count - 1, over);
    }
}

/// A part size in range given by the caller is used as it is, whatever the
/// number of threads.
pub proof fn lemma_part_size_before_threads(
    file_size: int,
    size: usize,
    threads: Option<u8>,
    other: Option<u8>,
)
    ensures
        part_size_of(file_size, Some(size), threads) == part_size_of(file_size, Some(size), other),
        valid_part_size(size as int) ==> part_size_of(file_size, Some(size), threads) == size,
{
}

/// Where the caller names neither a part size nor threads, the file is cut as
/// for five threads.
pub proof fn lemma_default_threads(file_size: int)
    ensures
        part_size_of(file_size, None, None) == part_size_of(file_size, None, Some(5u8)),
{
}

/// The part size is the wanted size where that lies from 1 MB to 1 GB, and else
/// the nearer of the two: a size that the caller names, or the share of a thread.
pub proof fn lemma_part_size_is_nearest(
    file_size: int,
    part_size: Option<usize>,
    threads: Option<u8>,
)
    requires
        file_size >= 0,
        part_size is Some || threads != Some(0u8),
    ensures
        ({
            let size = part_size_of(file_size, part_size, threads);
            let wanted = match (part_size, threads) {
                (Some(named), _) => named as int,
                (None, Some(count)) => file_size / (count as int),
                (None, None) => file_size / 5,
            };
            &&& 1048576 <= size <= 1073741824
            &&& 1048576 <= wanted <= 1073741824 ==> size == wanted
            &&& wanted < 1048576 ==> size == 1048576
            &&& wanted > 1073741824 ==> size == 1073741824
        }),
{
}

/// How a file is cut: every part but the last has the part size; the last is not
/// empty, has at most 1 GB and is less than 1 MB larger than the part size; all
/// together they hold the file; and a last part of less than 1 MB is only left
/// where it and the part before it would pass 1 GB.
pub proof fn lemma_cut(part_size: int, file_size: int)
    requires
        1048576 <= part_size <= 1073741824,
        file_size > 0,
    ensures
        ({
            let sizes = part_sizes(part_size, file_size);
            let n = sizes.len();
            &&& n > 0
            &&& forall|i: int| 0 <= i < n - 1 ==> #[trigger] sizes[i] == part_size
            &&& 0 < sizes[n - 1] <= 1073741824
            &&& sizes[n - 1] < part_size + 1048576
            &&& (n - 1) * part_size + sizes[n - 1] == file_size
            &&& n > 1 && sizes[n - 1] < 1048576 ==> sizes[n - 1] + part_size > 1073741824
        }),
{
    let sizes = part_sizes(part_size, file_size);
    lemma_part_count(part_size, file_size);
    lemma_parts_bounded(part_size, file_size);
    lemma_last_part(part_size, file_size);
    assert(sizes[sizes.len() - 1] == sizes.last());
}

proof fn lemma_last_part(part_size: int, left: int)
    requires
        valid_part_size(part_size),
        left > 0,
    ensures
        ({
            let sizes = part_sizes(part_size, left);
            &&& sizes.len() > 0
            &&& sizes.last() < part_size + PART_MIN_SIZE
            &&& sizes.len() > 1 && sizes.last() < PART_MIN_SIZE ==> sizes.last() + part_size
                > PART_MAX_SIZE
        }),
    decreases left,
{
    let sizes = part_sizes(part_size, left);
    let size = next_part_size(part_size, left);
    let rest = part_sizes(part_size, left - size);
    assert(sizes == seq![size] + rest);
    if size == left {
        assert(rest.len() == 0);
    } else {
        lemma_last_part(part_size, left - size);
        assert(sizes.last() == rest.last());
        if rest.len() == 1 {
            let next = next_part_size(part_size, left - size);
            let further = part_sizes(part_size, left - size - next);
            assert(rest == seq![next] + further);
            assert(further.len() == 0);
            assert(left - size - next == 0) by {
                if left - size - next > 0 {
                    lemma_last_part(part_size, left - size - next);
                }
            }
        }
    }
}

} // verus!
