//! How a run of images is cut into batches, and how far a run has come.

use vstd::prelude::*;

verus! {

/// The number of batches of at most `size` that hold `total` images: the
/// quotient of the two, rounded up.
pub open spec fn batch_count(total: nat, size: nat) -> nat
    recommends
        size > 0,
{
    if total % size == 0 {
        total / size
    } else {
        total / size + 1
    }
}

/// The position in the run of the first image of batch `index`.
pub open spec fn batch_start(index: nat, size: nat) -> nat {
    index * size
}

/// The position in the run behind the last image of batch `index`.
pub open spec fn batch_end(total: nat, size: nat, index: nat) -> nat {
    if batch_start(index + 1, size) <= total {
        batch_start(index + 1, size)
    } else {
        total
    }
}

/// The number of images in batch `index`: `size`, but for the last batch,
/// which holds what is left.
pub open spec fn batch_len(total: nat, size: nat, index: nat) -> nat {
    if batch_start(index, size) < total {
        (batch_end(total, size, index) - batch_start(index, size)) as nat
    } else {
        0
    }
}

/// The share of the run that is done after `completed` of `total` batches, in
/// whole percent.
pub open spec fn percent_done(completed: nat, total: nat) -> nat
    recommends
        total > 0,
{
    completed * 100 / total
}

/// Each batch starts `size` images after the one before it.
pub proof fn lemma_batch_start_step(index: nat, size: nat)
    ensures
        batch_start(0, size) == 0,
        batch_start(index + 1, size) == batch_start(index, size) + size,
{
    assert((index + 1) * size == index * size + size) by (nonlinear_arith);
}

/// The starts of the batches grow with their index.
pub proof fn lemma_batch_start_grows(i: nat, j: nat, size: nat)
    requires
        i <= j,
    ensures
        batch_start(i, size) <= batch_start(j, size),
        i < j ==> batch_start(i, size) + size <= batch_start(j, size),
{
    assert(i * size <= j * size) by (nonlinear_arith)
        requires
            i <= j,
    ;
    if i < j {
        assert((i + 1) * size <= j * size) by (nonlinear_arith)
            requires
                i + 1 <= j,
        ;
        lemma_batch_start_step(i, size);
    }
}

/// The batch count is the number of batches that are not empty: batch `index`
/// starts inside the run exactly when `index` is below the count.
pub proof fn lemma_batch_count_is_least(total: nat, size: nat, index: nat)
    requires
        size > 0,
    ensures
        batch_start(index, size) < total <==> index < batch_count(total, size),
        batch_start(batch_count(total, size), size) >= total,
{
    let q = total / size;
    let r = total % size;
    assert(total == q * size + r && 0 <= r < size) by (nonlinear_arith)
        requires
            q == total / size,
            r == total % size,
            size > 0,
    ;
    let count = batch_count(total, size);
    if index < count {
        lemma_batch_start_grows(index, q, size);
        if r == 0 {
            lemma_batch_start_grows(index, (q - 1) as nat, size);
            lemma_batch_start_step((q - 1) as nat, size);
        }
    } else {
        lemma_batch_start_grows(count, index, size);
    }
    lemma_batch_start_step(q, size);
}

/// No batch holds more than `size` images, and the batches below the count
/// hold at least one.
pub proof fn lemma_batch_len_bounds(total: nat, size: nat, index: nat)
    requires
        size > 0,
    ensures
        batch_len(total, size, index) <= size,
        index < batch_count(total, size) <==> batch_len(total, size, index) > 0,
        batch_start(index, size) + batch_len(total, size, index) == if batch_start(index, size)
            < total {
            batch_end(total, size, index)
        } else {
            batch_start(index, size)
        },
{
    lemma_batch_start_step(index, size);
    lemma_batch_count_is_least(total, size, index);
}

/// The number of images in the first `n` batches together.
pub open spec fn images_in_first(total: nat, size: nat, n: nat) -> nat
    decreases n,
{
    if n == 0 {
        0
    } else {
        images_in_first(total, size, (n - 1) as nat) + batch_len(total, size, (n - 1) as nat)
    }
}

/// The first `n` batches hold the first `n * size` images, or all of them.
pub proof fn lemma_images_in_first(total: nat, size: nat, n: nat)
    requires
        size > 0,
    ensures
        images_in_first(total, size, n) == if batch_start(n, size) <= total {
            batch_start(n, size)
        } else {
            total
        },
    decreases n,
{
    lemma_batch_start_step(0, size);
    if n > 0 {
        let k = (n - 1) as nat;
        lemma_images_in_first(total, size, k);
        lemma_batch_start_step(k, size);
        assert(k + 1 == n);
    }
}

/// The batches hold every image once: the sizes of all batches add up to the
/// number of images.
pub proof fn lemma_batches_hold_all(total: nat, size: nat)
    requires
        size > 0,
    ensures
        images_in_first(total, size, batch_count(total, size)) == total,
{
    let count = batch_count(total, size);
    lemma_images_in_first(total, size, count);
    lemma_batch_count_is_least(total, size, count);
}

/// Progress never falls, and it is 100 percent exactly when every batch is
/// done.
pub proof fn lemma_percent_grows(earlier: nat, later: nat, total: nat)
    requires
        total > 0,
        earlier <= later <= total,
    ensures
        percent_done(earlier, total) <= percent_done(later, total) <= 100,
        percent_done(total, total) == 100,
        later < total ==> percent_done(later, total) < 100,
{
    assert(earlier * 100 / total <= later * 100 / total) by (nonlinear_arith)
        requires
            total > 0,
            earlier <= later,
    ;
    assert(later * 100 / total <= 100) by (nonlinear_arith)
        requires
            total > 0,
            later <= total,
    ;
    assert(total * 100 / total == 100) by (nonlinear_arith)
        requires
            total > 0,
    ;
    if later < total {
        assert(later * 100 / total < 100) by (nonlinear_arith)
            requires
                total > 0,
                later < total,
        ;
    }
}

/// The number of batches for `total` images in batches of `size`.
pub fn count_batches(total: usize, size: usize) -> (count: usize)
    requires
        size > 0,
    ensures
        count == batch_count(total as nat, size as nat),
{
    if total % size == 0 {
        total / size
    } else {
        proof {
            assert(total / size < total) by (nonlinear_arith)
                requires
                    size > 0,
                    total % size != 0,
                    total >= 0,
            ;
        }
        total / size + 1
    }
}

/// The whole percent of the run that is done after `completed` of `total`
/// batches.
pub fn percent_of(completed: usize, total: usize) -> (percent: u8)
    requires
        0 < total,
        completed <= total,
    ensures
        percent == percent_done(completed as nat, total as nat),
{
    proof {
        lemma_percent_grows(completed as nat, completed as nat, total as nat);
    }
    ((completed as u128 * 100) / (total as u128)) as u8
}

} // verus!
