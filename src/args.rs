use vstd::prelude::*;

verus! {

/// Why a requested event count was refused.
#[derive(Clone, Copy, Debug, PartialEq, Eq, Structural)]
pub enum ArgError {
    /// The argument is empty.
    Empty,
    /// The argument holds a character other than a decimal digit, a sign included.
    NotANumber,
    /// The number does not fit in 64 bits.
    TooLarge,
}

pub open spec fn is_digit(c: char) -> bool {
    '0' <= c && c <= '9'
}

pub open spec fn all_digits(s: Seq<char>) -> bool {
    forall|i: int| 0 <= i < s.len() ==> is_digit(#[trigger] s[i])
}

/// The number that the decimal digits `s` write.
pub open spec fn digits_value(s: Seq<char>) -> nat
    decreases s.len(),
{
    if s.len() == 0 {
        0
    } else {
        digits_value(s.drop_last()) * 10 + (s.last() as nat - '0' as nat) as nat
    }
}

/// Reads the number of launch events to generate: a non-empty string of
/// decimal digits whose value fits in a `u64`.
pub fn parse_event_count(s: &str) -> (r: Result<u64, ArgError>)
    ensures
        s@.len() == 0 ==> r == Err::<u64, ArgError>(ArgError::Empty),
        s@.len() > 0 && !all_digits(s@) ==> r == Err::<u64, ArgError>(ArgError::NotANumber),
        s@.len() > 0 && all_digits(s@) && digits_value(s@) > u64::MAX ==> r == Err::<u64, ArgError>(
            ArgError::TooLarge,
        ),
        s@.len() > 0 && all_digits(s@) && digits_value(s@) <= u64::MAX ==> r == Ok::<u64, ArgError>(
            digits_value(s@) as u64,
        ),
{
    let n = s.unicode_len();
    if n == 0 {
        return Err(ArgError::Empty);
    }
    let mut i: usize = 0;
    while i < n
        invariant
            n == s@.len(),
            i <= n,
            forall|j: int| 0 <= j < i ==> is_digit(#[trigger] s@[j]),
        decreases n - i,
    {
        let c = s.get_char(i);
        if !('0' <= c && c <= '9') {
            return Err(ArgError::NotANumber);
        }
        i = i + 1;
    }
    let mut v: u64 = 0;
    let mut k: usize = 0;
    while k < n
        invariant
            n == s@.len(),
            k <= n,
            all_digits(s@),
            v as nat == digits_value(s@.subrange(0, k as int)),
        decreases n - k,
    {
        let c = s.get_char(k);
        let d = (c as u32 - '0' as u32) as u64;
        assert(s@.subrange(0, k + 1).drop_last() =~= s@.subrange(0, k as int));
        if v > (u64::MAX - d) / 10 {
            proof {
                lemma_prefix_value_grows(s@, k as int + 1);
            }
            return Err(ArgError::TooLarge);
        }
        v = v * 10 + d;
        k = k + 1;
    }
    assert(s@.subrange(0, n as int) =~= s@);
    Ok(v)
}

proof fn lemma_prefix_value_grows(s: Seq<char>, k: int)
    requires
        all_digits(s),
        0 <= k <= s.len(),
    ensures
        digits_value(s.subrange(0, k)) <= digits_value(s),
    decreases s.len() - k,
{
    if k < s.len() {
        lemma_prefix_value_grows(s, k + 1);
        assert(s.subrange(0, k + 1).drop_last() =~= s.subrange(0, k));
    } else {
        assert(s.subrange(0, k) =~= s);
    }
}

} // verus!
