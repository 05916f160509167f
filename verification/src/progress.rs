use vstd::prelude::*;
use vstd::string::StringExecFns;

verus! {

/// Number of decimal digits in `n` (0 for zero and negative values).
pub open spec fn spec_digits(n: int) -> int
    decreases n,
{
    if n <= 0 {
        0
    } else {
        1 + spec_digits(n / 10)
    }
}

/// Width of the padding that aligns label `curr` to the width of label `total`.
pub open spec fn pad_len(curr: int, total: int) -> int {
    if spec_digits(total) >= spec_digits(curr) {
        spec_digits(total) - spec_digits(curr)
    } else {
        0
    }
}

/// Returns the number of decimal digits an integer has.
pub fn get_digits(number: i32) -> (r: i32)
    ensures
        r == spec_digits(number as int),
        0 <= r <= 10,
{
    if number <= 0 {
        return 0;
    }
    let mut digits: i32 = 0;
    let mut temp_num: u32 = number as u32;
    proof {
        lemma_digits_bound(temp_num as int);
        lemma_digits_nonneg(temp_num as int);
    }
    while temp_num > 0
        invariant
            digits + spec_digits(temp_num as int) == spec_digits(number as int),
            0 <= digits,
            digits + spec_digits(temp_num as int) <= 10,
            0 <= spec_digits(temp_num as int),
        decreases temp_num,
    {
        proof {
            lemma_digits_nonneg(temp_num as int / 10);
        }
        temp_num = temp_num / 10;
        digits = digits + 1;
    }
    digits
}

proof fn lemma_digits_bound(n: int)
    requires
        n <= u32::MAX,
    ensures
        spec_digits(n) <= 10,
{
    reveal_with_fuel(pow10, 11);
    lemma_digits_at_most(n, 10);
}

proof fn lemma_digits_at_most(n: int, k: int)
    requires
        0 <= k,
        n < pow10(k),
    ensures
        spec_digits(n) <= k,
    decreases k,
{
    if n <= 0 {
    } else {
        lemma_digits_at_most(n / 10, k - 1);
    }
}

/// Ten to the power `k`.
pub open spec fn pow10(k: int) -> int
    decreases k,
{
    if k <= 0 {
        1
    } else {
        10 * pow10(k - 1)
    }
}

/// `spec_digits` never decreases on larger numbers.
pub proof fn lemma_digits_mono(a: int, b: int)
    requires
        a <= b,
    ensures
        spec_digits(a) <= spec_digits(b),
    decreases b,
{
    if a <= 0 {
        lemma_digits_nonneg(b);
    } else {
        lemma_digits_mono(a / 10, b / 10);
    }
}

pub proof fn lemma_digits_nonneg(n: int)
    ensures
        0 <= spec_digits(n),
    decreases n,
{
    if n > 0 {
        lemma_digits_nonneg(n / 10);
    }
}

/// Alignment law: for every item `curr` of a run of `total` items, the padded
/// label `get_padding(curr, total) + curr` has exactly the width of `total`.
pub proof fn lemma_padding_aligns(curr: int, total: int)
    requires
        1 <= curr <= total,
    ensures
        pad_len(curr, total) + spec_digits(curr) == spec_digits(total),
{
    lemma_digits_mono(curr, total);
}

/// Returns a string of spaces that pads the label of the current number to the
/// width of the total's label.
pub fn get_padding(curr_number: i32, total_number: i32) -> (r: String)
    ensures
        r@.len() == pad_len(curr_number as int, total_number as int),
        forall|i: int| 0 <= i < r@.len() ==> r@[i] == ' ',
{
    let total_digits = get_digits(total_number);
    let curr_digits = get_digits(curr_number);
    let mut padding = String::new();
    if total_digits <= curr_digits {
        return padding;
    }
    let n = total_digits - curr_digits;
    let mut i: i32 = 0;
    proof {
        reveal_strlit(" ");
    }
    while i < n
        invariant
            0 <= i <= n,
            n == pad_len(curr_number as int, total_number as int),
            padding@.len() == i,
            forall|j: int| 0 <= j < padding@.len() ==> padding@[j] == ' ',
        decreases n - i,
    {
        proof {
            reveal_strlit(" ");
        }
        padding.append(" ");
        i = i + 1;
    }
    padding
}

} // verus!
