//! Small integer utilities: parity and divisibility labels, three-way
//! comparison of a guess, the sum and the largest of a list, and the sum of
//! an arithmetic progression.

use vstd::prelude::*;

verus! {

/// Whether `n` is divisible by two.
pub fn is_even(n: i32) -> (even: bool)
    ensures
        even == (n % 2 == 0),
{
    n % 2 == 0
}

/// What `check_guess` answers for a guess against a secret: `0` when they
/// are equal, `1` when the guess is too high, `-1` when it is too low.
pub open spec fn guess_verdict(guess: int, secret: int) -> int {
    if guess == secret {
        0
    } else if guess > secret {
        1
    } else {
        -1
    }
}

/// Compares a guess with the secret number.
pub fn check_guess(guess: i32, secret: i32) -> (verdict: i32)
    ensures
        verdict == guess_verdict(guess as int, secret as int),
{
    if guess == secret {
        0
    } else if guess > secret {
        1
    } else {
        -1
    }
}

/// How many numbers lie between `low` and `high`, the two included.
pub open spec fn span(low: int, high: int) -> nat {
    if low > high {
        0
    } else {
        (high - low + 1) as nat
    }
}

/// The sum of `low`, `low + step`, `low + 2 * step` and so on, as far as
/// the terms do not exceed `high`, for a positive `step`. It is zero when
/// `low` exceeds `high`.
pub open spec fn step_sum(low: int, high: int, step: int) -> int
    decreases span(low, high),
{
    if low > high || step <= 0 {
        0
    } else {
        low + step_sum(low + step, high, step)
    }
}

/// Stores in `total` the sum of the numbers from `low` up to `high`, taken
/// `step` apart. Whatever `total` held before is discarded.
///
/// The step must be positive unless the range is empty, and the sum must
/// fit the total.
pub fn sum_with_step(total: &mut i32, low: i32, high: i32, step: i32)
    requires
        low <= high ==> step > 0,
        i32::MIN <= step_sum(low as int, high as int, step as int) <= i32::MAX,
    ensures
        *final(total) == step_sum(low as int, high as int, step as int),
{
    *total = 0;
    if low > high {
        return ;
    }
    let mut sum: i128 = 0;
    let mut i: i64 = low as i64;
    while i <= high as i64
        invariant
            step > 0,
            low <= i <= high + step,
            -(i - low) * 0x8000_0000 <= sum <= (i - low) * 0x8000_0000,
            sum + step_sum(i as int, high as int, step as int) == step_sum(
                low as int,
                high as int,
                step as int,
            ),
        decreases span(i as int, high as int),
    {
        sum = sum + i as i128;
        i = i + step as i64;
    }
    *total = sum as i32;
}

/// The label that the number analyzer gives a number.
#[derive(Debug, Clone, Copy, PartialEq, Eq, Structural)]
pub enum NumberKind {
    /// Divisible by three and by five.
    FizzBuzz,
    /// Divisible by three, not by five.
    Fizz,
    /// Divisible by five, not by three.
    Buzz,
    /// Divisible by neither, and even.
    Even,
    /// Divisible by neither, and odd.
    Odd,
}

/// The label of `n`: divisibility by three and five comes before parity.
pub open spec fn kind_of(n: int) -> NumberKind {
    if n % 3 == 0 && n % 5 == 0 {
        NumberKind::FizzBuzz
    } else if n % 3 == 0 {
        NumberKind::Fizz
    } else if n % 5 == 0 {
        NumberKind::Buzz
    } else if n % 2 == 0 {
        NumberKind::Even
    } else {
        NumberKind::Odd
    }
}

/// Labels `n` for the number analyzer.
pub fn classify(n: i32) -> (kind: NumberKind)
    ensures
        kind == kind_of(n as int),
{
    if n % 3 == 0 && n % 5 == 0 {
        NumberKind::FizzBuzz
    } else if n % 3 == 0 {
        NumberKind::Fizz
    } else if n % 5 == 0 {
        NumberKind::Buzz
    } else if is_even(n) {
        NumberKind::Even
    } else {
        NumberKind::Odd
    }
}

/// The sum of the numbers of a list.
pub open spec fn total_of(numbers: Seq<i32>) -> int
    decreases numbers.len(),
{
    if numbers.len() == 0 {
        0
    } else {
        total_of(numbers.drop_last()) + numbers.last()
    }
}

/// Adds up `numbers`. The sum must fit the result.
pub fn sum_of(numbers: &[i32]) -> (sum: i32)
    requires
        i32::MIN <= total_of(numbers@) <= i32::MAX,
    ensures
        sum == total_of(numbers@),
{
    let mut sum: i128 = 0;
    let mut i: usize = 0;
    while i < numbers.len()
        invariant
            i <= numbers.len(),
            sum == total_of(numbers@.take(i as int)),
            -(i as int) * 0x8000_0000 <= sum <= i * 0x8000_0000,
        decreases numbers.len() - i,
    {
        assert(numbers@.take(i + 1).drop_last() == numbers@.take(i as int));
        sum = sum + numbers[i] as i128;
        i += 1;
    }
    assert(numbers@.take(numbers.len() as int) == numbers@);
    sum as i32
}

/// The largest number of a list that is not empty.
pub fn largest(numbers: &[i32]) -> (max: i32)
    requires
        numbers.len() > 0,
    ensures
        numbers@.contains(max),
        forall|i: int| 0 <= i < numbers.len() ==> numbers[i] <= max,
{
    let mut max = numbers[0];
    let mut i: usize = 1;
    while i < numbers.len()
        invariant
            1 <= i <= numbers.len(),
            numbers@.contains(max),
            forall|j: int| 0 <= j < i ==> numbers[j] <= max,
        decreases numbers.len() - i,
    {
        if numbers[i] > max {
            max = numbers[i];
        }
        i += 1;
    }
    max
}

} // verus!
