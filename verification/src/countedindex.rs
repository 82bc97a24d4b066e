//! Sequence numbers that wrap around, and optimistic updates of them.
//!
//! A queue numbers its slots with counts that grow by one and wrap at half the range of a
//! machine word. The top bit of a word is left free: it tags a slot that was never written.
use vstd::prelude::*;

verus! {

/// The type in which capacities and slot numbers are given.
pub type Index = usize;

/// The largest distance that two counts can be apart and still be compared.
pub const MAX_WRAP: Index = usize::MAX / 4;

/// The tag bit, which is also the number of distinct counts.
pub const MASK_IND: usize = usize::MAX / 2 + 1;

/// All bits but the tag bit.
pub const MASK_TAG: usize = usize::MAX / 2;

/// The flag of a slot that was never written; no count ever has this value.
pub const INITIAL_QUEUE_FLAG: usize = usize::MAX;

/// `n` is a power of two.
pub open spec fn is_power(n: int) -> bool {
    exists|k: nat| n == vstd::arithmetic::power2::pow2(k)
}

/// `wrap` can be the size of a queue.
pub open spec fn valid_wrap(wrap: Index) -> bool {
    &&& is_power(wrap as int)
    &&& wrap <= MAX_WRAP
}

/// `size` is the smallest power of two that is not below `val`.
pub open spec fn rounds_up(val: Index, size: Index) -> bool {
    &&& is_power(size as int)
    &&& val <= size
    &&& forall|p: int| #[trigger] is_power(p) && p >= val ==> p >= size
}

/// How far `check` is ahead of `seq`, in the arithmetic of a machine word.
pub open spec fn distance(check: usize, seq: usize) -> int {
    if check >= seq {
        check - seq
    } else {
        check - seq + usize::MAX + 1
    }
}

/// How far the count `check` is ahead of the count `seq`, when counts start again after a lap.
pub open spec fn lead(check: usize, seq: usize) -> int {
    (check - seq) % (MASK_IND as int)
}

/// The count that a number stands for, with the tag taken off.
pub open spec fn untagged(val: int) -> usize {
    (val % (MASK_IND as int)) as usize
}

/// Why a size was refused.
#[derive(Clone, Copy, Debug, PartialEq, Eq, Structural)]
pub enum WrapError {
    /// The size is no power of two.
    NotPowerOfTwo,
    /// The size is a power of two, but above `MAX_WRAP`.
    TooLarge,
}

/// Powers of two are positive, start at one, and are ordered by their exponents.
pub proof fn lemma_power_basics(n: int)
    requires
        is_power(n),
    ensures
        n >= 1,
        is_power(1),
        is_power(2 * n),
{
    let k = choose|k: nat| n == vstd::arithmetic::power2::pow2(k);
    vstd::arithmetic::power2::lemma_pow2_pos(k);
    vstd::arithmetic::power2::lemma_pow2_unfold(k + 1);
    assert(2 * n == vstd::arithmetic::power2::pow2(k + 1));
    vstd::arithmetic::power2::lemma2_to64();
    assert(1 == vstd::arithmetic::power2::pow2(0));
}

/// No power of two lies strictly between `n` and `2 * n`, if `n` is one.
pub proof fn lemma_power_gap(n: int, m: int)
    requires
        is_power(n),
        is_power(m),
        n < m,
    ensures
        2 * n <= m,
{
    let k = choose|k: nat| n == vstd::arithmetic::power2::pow2(k);
    let j = choose|j: nat| m == vstd::arithmetic::power2::pow2(j);
    if j <= k {
        if j < k {
            vstd::arithmetic::power2::lemma_pow2_strictly_increases(j, k);
        }
        assert(false);
    }
    vstd::arithmetic::power2::lemma_pow2_unfold(k + 1);
    if k + 1 < j {
        vstd::arithmetic::power2::lemma_pow2_strictly_increases(k + 1, j);
    }
}

/// The number of distinct counts is a power of two, twice `MAX_WRAP + 1`.
pub proof fn lemma_lap()
    ensures
        is_power(MASK_IND as int),
        MASK_IND == 2 * (MAX_WRAP + 1),
        MASK_TAG == MASK_IND - 1,
        usize::MAX + 1 == 2 * MASK_IND,
{
    vstd::arithmetic::power2::lemma2_to64();
    vstd::arithmetic::power2::lemma2_to64_rest();
    if usize::BITS == 64 {
        assert(MASK_IND as int == vstd::arithmetic::power2::pow2(63));
    } else {
        assert(MASK_IND as int == vstd::arithmetic::power2::pow2(31));
    }
}

/// Keeping the bits below a power of two is taking the remainder by it.
pub proof fn lemma_mask_is_mod(x: usize, wrap: usize)
    requires
        is_power(wrap as int),
    ensures
        wrap >= 1,
        x & ((wrap - 1) as usize) == x as int % wrap as int,
{
    lemma_power_basics(wrap as int);
    let k = choose|k: nat| wrap as int == vstd::arithmetic::power2::pow2(k);
    vstd::arithmetic::power2::lemma2_to64();
    vstd::arithmetic::power2::lemma2_to64_rest();
    if k >= usize::BITS {
        if usize::BITS == 64 {
            if k > 64 {
                vstd::arithmetic::power2::lemma_pow2_strictly_increases(64, k);
            }
        } else {
            if k > 32 {
                vstd::arithmetic::power2::lemma_pow2_strictly_increases(32, k);
            }
        }
        assert(false);
    }
    vstd::bits::lemma_usize_low_bits_mask_is_mod(x, k);
    assert(vstd::bits::low_bits_mask(k) == wrap - 1);
}

/// The size of a queue divides the number of distinct counts: a count and its wrapped value
/// name the same slot.
pub proof fn lemma_slot_of_count(n: int, wrap: usize)
    requires
        valid_wrap(wrap),
    ensures
        wrap >= 1,
        4 * wrap <= 2 * MASK_IND,
        (n % (MASK_IND as int)) % (wrap as int) == n % (wrap as int),
{
    lemma_lap();
    lemma_power_basics(wrap as int);
    let k = choose|k: nat| wrap as int == vstd::arithmetic::power2::pow2(k);
    let j = choose|j: nat| MASK_IND as int == vstd::arithmetic::power2::pow2(j);
    if k > j {
        vstd::arithmetic::power2::lemma_pow2_strictly_increases(j, k);
    }
    vstd::arithmetic::power2::lemma_pow2_adds(k, (j - k) as nat);
    vstd::arithmetic::power2::lemma_pow2_pos((j - k) as nat);
    vstd::arithmetic::div_mod::lemma_mod_mod(n, wrap as int, vstd::arithmetic::power2::pow2((j - k) as nat) as int);
}

/// Two numbers less than a lap apart stand for the same count only if they are equal.
pub proof fn lemma_counts_differ(a: int, b: int)
    requires
        a != b,
        a - b < MASK_IND,
        b - a < MASK_IND,
    ensures
        a % (MASK_IND as int) != b % (MASK_IND as int),
{
    let m = MASK_IND as int;
    vstd::arithmetic::div_mod::lemma_fundamental_div_mod(a, m);
    vstd::arithmetic::div_mod::lemma_fundamental_div_mod(b, m);
    if a % m == b % m {
        assert(a - b == m * (a / m - b / m)) by (nonlinear_arith)
            requires
                a == m * (a / m) + a % m,
                b == m * (b / m) + b % m,
                a % m == b % m,
        ;
        let q = a / m - b / m;
        assert(q == 0) by (nonlinear_arith)
            requires
                -m < m * q < m,
                m > 0,
        ;
    }
}

/// Two numbers less than a queue apart fall into the same slot only if they are equal.
pub proof fn lemma_slots_differ(a: int, b: int, wrap: int)
    requires
        wrap > 0,
        a != b,
        a - b < wrap,
        b - a < wrap,
    ensures
        a % wrap != b % wrap,
{
    vstd::arithmetic::div_mod::lemma_fundamental_div_mod(a, wrap);
    vstd::arithmetic::div_mod::lemma_fundamental_div_mod(b, wrap);
    if a % wrap == b % wrap {
        assert(a - b == wrap * (a / wrap - b / wrap)) by (nonlinear_arith)
            requires
                a == wrap * (a / wrap) + a % wrap,
                b == wrap * (b / wrap) + b % wrap,
                a % wrap == b % wrap,
        ;
        let q = a / wrap - b / wrap;
        assert(q == 0) by (nonlinear_arith)
            requires
                -wrap < wrap * q < wrap,
                wrap > 0,
        ;
    }
}

/// How far a count is ahead of another is how far the numbers are apart that they stand for, up to
/// whole laps.
pub proof fn lemma_lead(a: int, b: int)
    ensures
        lead(untagged(a), untagged(b)) == (a - b) % (MASK_IND as int),
        0 <= a - b < MASK_IND ==> lead(untagged(a), untagged(b)) == a - b,
        0 < b - a <= MASK_IND ==> lead(untagged(a), untagged(b)) == MASK_IND - (b - a),
{
    let m = MASK_IND as int;
    vstd::arithmetic::div_mod::lemma_sub_mod_noop(a, b, m);
    if 0 <= a - b < m {
        vstd::arithmetic::div_mod::lemma_small_mod((a - b) as nat, m as nat);
    }
    if 0 < b - a <= m {
        vstd::arithmetic::div_mod::lemma_mod_multiples_vanish(1, a - b, m);
        vstd::arithmetic::div_mod::lemma_small_mod((m - (b - a)) as nat, m as nat);
    }
}

/// Adding to a number before or after its tag is taken off gives the same count.
pub proof fn lemma_untagged_step(n: int, by: int)
    ensures
        untagged(untagged(n) as int + by) == untagged(n + by),
{
    vstd::arithmetic::div_mod::lemma_add_mod_noop(n, by, MASK_IND as int);
    vstd::arithmetic::div_mod::lemma_mod_twice(n, MASK_IND as int);
    vstd::arithmetic::div_mod::lemma_add_mod_noop(n % (MASK_IND as int), by, MASK_IND as int);
}

/// How far `check` is past `seq`, and whether the distance is too large to be one: then `seq`
/// is ahead of `check` instead.
pub fn past(check: usize, seq: usize) -> (res: (usize, bool))
    ensures
        res.0 == distance(check, seq),
        res.1 == (distance(check, seq) > MAX_WRAP),
{
    let diff: usize = check.wrapping_sub(seq);
    (diff, diff > MAX_WRAP)
}

/// How far the count `check` is ahead of the count `seq`, and whether this is too far: then `seq`
/// is ahead of `check` instead. One of them may have begun a lap that the other has not.
pub fn past_by(check: usize, seq: usize) -> (res: (usize, bool))
    ensures
        res.0 == lead(check, seq),
        res.1 == (lead(check, seq) > MAX_WRAP),
{
    let (word, _) = past(check, seq);
    proof {
        lemma_wrapped_word(check - seq, word);
    }
    let diff: usize = rm_tag(word);
    (diff, diff > MAX_WRAP)
}

/// Whether the tag bit is set.
pub fn is_tagged(val: usize) -> (res: bool)
    ensures
        res == (val >= MASK_IND),
{
    proof {
        if usize::BITS == 64 {
            let v = val as u64;
            assert(((v & 0x8000_0000_0000_0000u64) != 0) == (v >= 0x8000_0000_0000_0000u64)) by (bit_vector);
        } else {
            let v = val as u32;
            assert(((v & 0x8000_0000u32) != 0) == (v >= 0x8000_0000u32)) by (bit_vector);
        }
    }
    (val & MASK_IND) != 0
}

/// The number without the tag bit.
pub fn rm_tag(val: usize) -> (res: usize)
    ensures
        res == untagged(val as int),
        res <= MASK_TAG,
        val <= MASK_TAG ==> res == val,
{
    proof {
        lemma_lap();
        lemma_mask_is_mod(val, MASK_IND);
    }
    val & MASK_TAG
}

/// The size that is used for a queue when `val` is asked for: the next power of two, at least
/// one. Requests from `MAX_WRAP` up get `MAX_WRAP`, which is no valid size.
pub fn get_valid_wrap(val: Index) -> (res: Index)
    ensures
        val >= MAX_WRAP ==> res == MAX_WRAP,
        val == 0 ==> res == 1,
        val < MAX_WRAP ==> rounds_up(val, res),
        val <= MAX_WRAP / 2 + 1 ==> valid_wrap(res),
{
    if val >= MAX_WRAP {
        MAX_WRAP
    } else if val == 0 {
        proof {
            lemma_lap();
            lemma_power_basics(MASK_IND as int);
            assert forall|p: int| #[trigger] is_power(p) implies p >= 1 by {
                lemma_power_basics(p);
            }
        }
        1
    } else {
        next_power_of_two(val)
    }
}

/// The smallest power of two that is not below `val`.
fn next_power_of_two(val: Index) -> (res: Index)
    requires
        0 < val < MAX_WRAP,
    ensures
        is_power(res as int),
        val <= res,
        forall|p: int| #[trigger] is_power(p) && p >= val ==> p >= res,
        val <= MAX_WRAP / 2 + 1 ==> res <= MAX_WRAP,
{
    let mut res: Index = 1;
    proof {
        lemma_lap();
        lemma_power_basics(MASK_IND as int);
        assert forall|p: int| #[trigger] is_power(p) implies p >= 1 by {
            lemma_power_basics(p);
        }
    }
    while res < val
        invariant
            val < MAX_WRAP,
            1 <= res < 2 * val,
            is_power(res as int),
            forall|p: int| #[trigger] is_power(p) && p >= val ==> p >= res,
        decreases 2 * val - res,
    {
        proof {
            lemma_power_basics(res as int);
            assert forall|p: int| #[trigger] is_power(p) && p >= val implies p >= 2 * res by {
                lemma_power_gap(res as int, p);
            }
        }
        res = 2 * res;
    }
    proof {
        if val <= MAX_WRAP / 2 + 1 {
            assert(is_power(MAX_WRAP / 2 + 1)) by {
                lemma_quarter();
            }
        }
    }
    res
}

/// The largest valid size is `MAX_WRAP / 2 + 1`.
pub proof fn lemma_quarter()
    ensures
        is_power(MAX_WRAP / 2 + 1),
{
    vstd::arithmetic::power2::lemma2_to64();
    vstd::arithmetic::power2::lemma2_to64_rest();
    if usize::BITS == 64 {
        assert(MAX_WRAP / 2 + 1 == vstd::arithmetic::power2::pow2(61));
    } else {
        assert(MAX_WRAP / 2 + 1 == vstd::arithmetic::power2::pow2(29));
    }
}

/// Tests whether `val` can be the size of a queue.
pub fn validate_wrap(val: Index) -> (res: Result<(), WrapError>)
    ensures
        res == if !is_power(val as int) {
            Err::<(), WrapError>(WrapError::NotPowerOfTwo)
        } else if val > MAX_WRAP {
            Err(WrapError::TooLarge)
        } else {
            Ok(())
        },
        res is Ok <==> valid_wrap(val),
{
    let mut power: usize = 1;
    proof {
        lemma_lap();
        lemma_power_basics(MASK_IND as int);
        if is_power(val as int) {
            lemma_power_basics(val as int);
        }
    }
    while power < val && power < MASK_IND
        invariant
            1 <= power <= MASK_IND,
            is_power(power as int),
            is_power(MASK_IND as int),
            is_power(val as int) ==> val >= power,
        decreases MASK_IND - power,
    {
        proof {
            lemma_power_basics(power as int);
            lemma_power_gap(power as int, MASK_IND as int);
            if is_power(val as int) {
                lemma_power_gap(power as int, val as int);
            }
        }
        power = 2 * power;
    }
    proof {
        if is_power(val as int) && val > power {
            lemma_lap();
            lemma_power_gap(MASK_IND as int, val as int);
        }
    }
    if power != val {
        Err(WrapError::NotPowerOfTwo)
    } else if val > MAX_WRAP {
        Err(WrapError::TooLarge)
    } else {
        Ok(())
    }
}

/// A count that grows, and the size of the ring that it runs around.
pub struct CountedIndex {
    /// The count, which the constructors and updates keep free of the tag if it was.
    pub val: usize,
    /// One less than the size of the ring.
    pub mask: usize,
}

/// A count that was read, to be replaced only if nobody else has replaced it since.
pub struct Transaction {
    /// The count that was read.
    pub loaded_vals: usize,
    /// One less than the size of the ring.
    pub mask: usize,
}

impl CountedIndex {
    /// The ring has a valid size.
    pub open spec fn wf(&self) -> bool {
        &&& self.mask < MAX_WRAP
        &&& valid_wrap((self.mask + 1) as usize)
    }

    /// The size of the ring.
    pub open spec fn wrap(&self) -> Index {
        (self.mask + 1) as usize
    }

    /// A count of zero on a ring of `wrap` slots.
    pub fn new(wrap: Index) -> (res: CountedIndex)
        requires
            valid_wrap(wrap),
        ensures
            res.wf(),
            res.val == 0,
            res.wrap() == wrap,
    {
        CountedIndex::from_usize(0, wrap)
    }

    /// A count of `val` on a ring of `wrap` slots.
    pub fn from_usize(val: usize, wrap: Index) -> (res: CountedIndex)
        requires
            valid_wrap(wrap),
        ensures
            res.wf(),
            res.val == val,
            res.wrap() == wrap,
    {
        proof {
            lemma_power_basics(wrap as int);
        }
        CountedIndex { val, mask: wrap - 1 }
    }

    /// The size of the ring.
    pub fn wrap_at(&self) -> (res: Index)
        requires
            self.wf(),
        ensures
            res == self.wrap(),
    {
        self.mask + 1
    }

    /// The slot that the count names.
    pub fn load(&self) -> (res: Index)
        requires
            self.wf(),
        ensures
            res == self.val as int % self.wrap() as int,
            res < self.wrap(),
    {
        proof {
            lemma_mask_is_mod(self.val, self.wrap());
        }
        self.val & self.mask
    }

    /// The number as it is stored.
    pub fn load_raw(&self) -> (res: usize)
        ensures
            res == self.val,
    {
        self.val
    }

    /// The count.
    pub fn load_count(&self) -> (res: usize)
        ensures
            res == self.val,
    {
        self.load_raw()
    }

    /// Reads the count in order to replace it.
    pub fn load_transaction(&self) -> (res: Transaction)
        ensures
            res.loaded_vals == self.val,
            res.mask == self.mask,
    {
        Transaction { loaded_vals: self.val, mask: self.mask }
    }

    /// The number `by` before `start`, in the arithmetic of a machine word.
    pub fn get_previous(start: usize, by: Index) -> (res: usize)
        ensures
            res == distance(start, by),
    {
        start.wrapping_sub(by)
    }
}

impl Transaction {
    /// The ring has a valid size.
    pub open spec fn wf(&self) -> bool {
        &&& self.mask < MAX_WRAP
        &&& valid_wrap((self.mask + 1) as usize)
    }

    /// The size of the ring.
    pub open spec fn wrap(&self) -> Index {
        (self.mask + 1) as usize
    }

    /// The count that takes the place of the one that was read, `by` steps further.
    pub open spec fn successor(&self, by: Index) -> usize {
        untagged(self.loaded_vals + by)
    }

    /// The count one turn of the ring before the one that was read.
    pub open spec fn previous(&self) -> usize {
        untagged(self.loaded_vals - self.wrap())
    }

    /// The slot that the count names, and the count itself.
    pub fn get(&self) -> (res: (usize, usize))
        requires
            self.wf(),
        ensures
            res.0 == self.loaded_vals as int % self.wrap() as int,
            res.0 < self.wrap(),
            res.1 == self.loaded_vals,
    {
        proof {
            lemma_mask_is_mod(self.loaded_vals, self.wrap());
        }
        (self.loaded_vals & self.mask, self.loaded_vals)
    }

    /// Whether `val` is the count one turn of the ring before the one that was read.
    pub fn matches_previous(&self, val: usize) -> (res: bool)
        requires
            self.wf(),
        ensures
            res == (val == self.previous()),
    {
        let wrap: usize = self.mask.wrapping_add(1);
        let before: usize = self.loaded_vals.wrapping_sub(wrap);
        proof {
            lemma_wrapped_word(self.loaded_vals - wrap, before);
        }
        rm_tag(before) == val
    }

    /// Moves the count `by` steps forward, if `index` still holds the count that was read. Else
    /// leaves it alone and reads it again.
    pub fn commit(self, index: &mut CountedIndex, by: Index) -> (res: Option<Transaction>)
        ensures
            final(index).mask == old(index).mask,
            old(index).val == self.loaded_vals ==> {
                &&& res is None
                &&& final(index).val == self.successor(by)
            },
            old(index).val != self.loaded_vals ==> {
                &&& res == Some(Transaction { loaded_vals: old(index).val, mask: self.mask })
                &&& final(index).val == old(index).val
            },
    {
        if index.val == self.loaded_vals {
            self.commit_direct(index, by);
            None
        } else {
            Some(Transaction { loaded_vals: index.val, mask: self.mask })
        }
    }

    /// Moves the count `by` steps forward from the one that was read, whatever `index` holds.
    pub fn commit_direct(self, index: &mut CountedIndex, by: Index)
        ensures
            final(index).mask == old(index).mask,
            final(index).val == self.successor(by),
    {
        let sum: usize = self.loaded_vals.wrapping_add(by);
        proof {
            lemma_wrapped_word(self.loaded_vals + by, sum);
        }
        let store_val: usize = rm_tag(sum);
        index.val = store_val;
    }
}

/// A sum or difference and its value in a machine word stand for the same count.
pub proof fn lemma_wrapped_word(exact: int, word: usize)
    requires
        word == exact || word == exact - usize::MAX - 1 || word == exact + usize::MAX + 1,
    ensures
        untagged(exact) == untagged(word as int),
{
    lemma_lap();
    let m = MASK_IND as int;
    if word == exact - usize::MAX - 1 {
        vstd::arithmetic::div_mod::lemma_mod_multiples_vanish(-2, exact, m);
    } else if word == exact + usize::MAX + 1 {
        vstd::arithmetic::div_mod::lemma_mod_multiples_vanish(2, exact, m);
    }
}

/// What the arithmetic of counts means. In a machine word, `seq` and the distance add up to `check`,
/// up to one overflow. Among counts, `seq` and the lead add up to `check`, up to whole laps; so do a
/// number and its count, a count and its successor, and a count and the one a turn before.
pub proof fn lemma_arithmetic(check: usize, seq: usize, n: int, at: Transaction, by: Index)
    requires
        at.mask < usize::MAX,
    ensures
        0 <= distance(check, seq) <= usize::MAX,
        seq + distance(check, seq) == check || seq + distance(check, seq) == check + usize::MAX + 1,
        0 <= lead(check, seq) < MASK_IND,
        (check - seq - lead(check, seq)) % (MASK_IND as int) == 0,
        0 <= untagged(n) < MASK_IND,
        (n - untagged(n)) % (MASK_IND as int) == 0,
        0 <= n < MASK_IND ==> untagged(n) == n,
        at.wrap() == at.mask + 1,
        at.successor(by) < MASK_IND,
        (at.loaded_vals + by - at.successor(by)) % (MASK_IND as int) == 0,
        at.previous() < MASK_IND,
        (at.loaded_vals - at.mask - 1 - at.previous()) % (MASK_IND as int) == 0,
{
    lemma_less_remainder(check - seq);
    lemma_less_remainder(n);
    lemma_less_remainder(at.loaded_vals + by);
    lemma_less_remainder(at.loaded_vals - at.mask - 1);
    if 0 <= n < MASK_IND {
        vstd::arithmetic::div_mod::lemma_small_mod(n as nat, MASK_IND as nat);
    }
}

/// A number less its remainder is a number of whole laps.
proof fn lemma_less_remainder(n: int)
    ensures
        0 <= n % (MASK_IND as int) < MASK_IND,
        (n - n % (MASK_IND as int)) % (MASK_IND as int) == 0,
{
    let m = MASK_IND as int;
    vstd::arithmetic::div_mod::lemma_mod_bound(n, m);
    vstd::arithmetic::div_mod::lemma_fundamental_div_mod(n, m);
    vstd::arithmetic::div_mod::lemma_mod_multiples_basic(n / m, m);
    vstd::arithmetic::mul::lemma_mul_is_commutative(n / m, m);
}

/// Of two that have read the same count, the second to move it finds that it has moved.
pub proof fn lemma_second_fails(at: Transaction, by: Index)
    requires
        at.loaded_vals < MASK_IND,
        0 < by < MASK_IND,
    ensures
        at.successor(by) != at.loaded_vals,
{
    lemma_counts_differ(at.loaded_vals + by, at.loaded_vals as int);
    vstd::arithmetic::div_mod::lemma_small_mod(at.loaded_vals as nat, MASK_IND as nat);
}

/// What sizes are: a power of two is one or twice another; the size for a request is the only power of
/// two that is not below it and less than twice as large; and a valid size fits four times into the
/// words.
pub proof fn lemma_sizes(val: Index, size: Index)
    requires
        rounds_up(val, size),
        val > 0,
    ensures
        exists|k: nat| size == vstd::arithmetic::power2::pow2(k),
        val <= size < 2 * val,
        valid_wrap(size) <==> size <= usize::MAX / 4,
{
    let n = size as int;
    lemma_power_basics(n);
    let k = choose|k: nat| n == vstd::arithmetic::power2::pow2(k);
    if n >= 2 * val {
        vstd::arithmetic::power2::lemma2_to64();
        assert(k != 0);
        vstd::arithmetic::power2::lemma_pow2_unfold(k);
        let half = vstd::arithmetic::power2::pow2((k - 1) as nat) as int;
        assert(is_power(half));
        assert(half >= val ==> half >= n);
    }
}

/// The powers of two are the numbers that are so, and the size for a request is the smallest of them
/// that is not below it.
pub proof fn lemma_powers(n: int, k: nat, val: Index, size: Index, index: CountedIndex)
    requires
        index.mask < usize::MAX,
    ensures
        is_power(vstd::arithmetic::power2::pow2(k) as int),
        is_power(n) <==> exists|j: nat| n == vstd::arithmetic::power2::pow2(j),
        rounds_up(val, size) && vstd::arithmetic::power2::pow2(k) >= val ==> size
            <= vstd::arithmetic::power2::pow2(k),
        valid_wrap(size) <==> is_power(size as int) && size <= usize::MAX / 4,
        index.wrap() == index.mask + 1,
        index.wf() <==> valid_wrap((index.mask + 1) as usize) && index.mask < MAX_WRAP,
{
}

} // verus!
