//! Byte-level text helpers: decimal numbers, booleans, and token splitting
//! for the command surface, which works on the raw bytes of a chat message.

use vstd::prelude::*;
use vstd::slice::slice_subrange;

verus! {

/// A byte is an ASCII decimal digit.
pub open spec fn is_digit(b: u8) -> bool {
    48 <= b && b <= 57
}

/// Every byte of `s` is an ASCII decimal digit.
pub open spec fn all_digits(s: Seq<u8>) -> bool {
    forall|i: int| 0 <= i < s.len() ==> is_digit(s[i])
}

/// The number denoted by a sequence of ASCII decimal digits.
pub open spec fn decimal_value(s: Seq<u8>) -> nat
    decreases s.len(),
{
    if s.len() == 0 {
        0
    } else {
        decimal_value(s.drop_last()) * 10 + ((s.last() - 48) as nat)
    }
}

proof fn lemma_decimal_value_step(s: Seq<u8>, i: int)
    requires
        0 <= i < s.len(),
    ensures
        decimal_value(s.subrange(0, i + 1)) == decimal_value(s.subrange(0, i)) * 10 + ((s[i]
            - 48) as nat),
{
    let t = s.subrange(0, i + 1);
    assert(t.drop_last() =~= s.subrange(0, i));
    assert(t.last() == s[i]);
}

/// Reading more digits never shrinks the denoted number.
proof fn lemma_decimal_prefix_le(s: Seq<u8>, i: int)
    requires
        0 <= i <= s.len(),
    ensures
        decimal_value(s.subrange(0, i)) <= decimal_value(s),
    decreases s.len() - i,
{
    if i == s.len() {
        assert(s.subrange(0, i) =~= s);
    } else {
        lemma_decimal_value_step(s, i);
        lemma_decimal_prefix_le(s, i + 1);
    }
}

/// Why a byte string is not a number.
#[derive(Clone, Copy, PartialEq, Eq, Structural, Debug)]
pub enum NumError {
    /// Empty input, or a byte that is not a decimal digit.
    Malformed,
    /// A well-formed number too large for `u64`.
    Overflow,
}

/// Parses an unsigned decimal number. Returns `Ok` exactly on a non-empty
/// all-digit input whose value fits in a `u64`.
pub fn parse_u64(s: &[u8]) -> (r: Result<u64, NumError>)
    ensures
        match r {
            Ok(v) => s@.len() > 0 && all_digits(s@) && decimal_value(s@) == v,
            Err(e) => match e {
                NumError::Malformed => s@.len() == 0 || !all_digits(s@),
                NumError::Overflow => s@.len() > 0 && all_digits(s@) && decimal_value(s@)
                    > u64::MAX,
            },
        },
{
    let n = s.len();
    if n == 0 {
        return Err(NumError::Malformed);
    }
    let mut i: usize = 0;
    while i < n
        invariant
            n == s@.len(),
            0 <= i <= n,
            all_digits(s@.subrange(0, i as int)),
        decreases n - i,
    {
        let b = s[i];
        if b < 48 || b > 57 {
            assert(!is_digit(s@[i as int]));
            return Err(NumError::Malformed);
        }
        assert(s@.subrange(0, i as int + 1) =~= s@.subrange(0, i as int).push(s@[i as int]));
        i += 1;
    }
    assert(s@.subrange(0, n as int) =~= s@);
    let mut acc: u64 = 0;
    let mut j: usize = 0;
    while j < n
        invariant
            n == s@.len(),
            all_digits(s@),
            0 <= j <= n,
            acc == decimal_value(s@.subrange(0, j as int)),
        decreases n - j,
    {
        assert(is_digit(s@[j as int]));
        let b = s[j];
        let d = (b - 48) as u64;
        if acc > (u64::MAX - d) / 10 {
            proof {
                lemma_decimal_value_step(s@, j as int);
                assert(decimal_value(s@.subrange(0, j as int + 1)) > u64::MAX);
                lemma_decimal_prefix_le(s@, j as int + 1);
            }
            return Err(NumError::Overflow);
        }
        proof {
            lemma_decimal_value_step(s@, j as int);
        }
        acc = acc * 10 + d;
        j += 1;
    }
    assert(s@.subrange(0, n as int) =~= s@);
    Ok(acc)
}

/// Index of the first space byte in `s`, or `s.len()` if there is none.
pub open spec fn first_space(s: Seq<u8>) -> int
    decreases s.len(),
{
    if s.len() == 0 {
        0
    } else if s[0] == 32 {
        0
    } else {
        1 + first_space(s.skip(1))
    }
}

/// `first_space` points at the first space: nothing before it is a space,
/// and it is a space unless the whole input is space-free.
pub proof fn lemma_first_space(s: Seq<u8>)
    ensures
        0 <= first_space(s) <= s.len(),
        forall|j: int| 0 <= j < first_space(s) ==> s[j] != 32,
        first_space(s) < s.len() ==> s[first_space(s)] == 32,
    decreases s.len(),
{
    if s.len() == 0 {
    } else if s[0] == 32 {
    } else {
        lemma_first_space(s.skip(1));
        assert forall|j: int| 0 <= j < first_space(s) implies s[j] != 32 by {
            if j > 0 {
                assert(s.skip(1)[j - 1] == s[j]);
            }
        }
        if first_space(s) < s.len() {
            assert(s.skip(1)[first_space(s) - 1] == s[first_space(s)]);
        }
    }
}

/// Finds where the leading token ends: the first space, or the end of input.
pub fn find_token_end(s: &[u8]) -> (i: usize)
    ensures
        i == first_space(s@),
        0 <= i <= s@.len(),
{
    let n = s.len();
    let mut i: usize = 0;
    while i < n
        invariant
            n == s@.len(),
            0 <= i <= n,
            forall|j: int| 0 <= j < i ==> s@[j] != 32,
        decreases n - i,
    {
        if s[i] == 32 {
            proof {
                lemma_first_space(s@);
            }
            return i;
        }
        i += 1;
    }
    proof {
        lemma_first_space(s@);
    }
    i
}

/// The bytes of the word `true`.
pub open spec fn true_bytes() -> Seq<u8> {
    seq![116u8, 114u8, 117u8, 101u8]
}

/// The bytes of the word `false`.
pub open spec fn false_bytes() -> Seq<u8> {
    seq![102u8, 97u8, 108u8, 115u8, 101u8]
}

/// Parses a boolean: exactly the words `true` and `false` are accepted.
pub fn parse_bool(s: &[u8]) -> (r: Option<bool>)
    ensures
        match r {
            Some(b) => (s@ == true_bytes() || s@ == false_bytes()) && b == (s@ == true_bytes()),
            None => s@ != true_bytes() && s@ != false_bytes(),
        },
{
    if s.len() == 4 && s[0] == 116 && s[1] == 114 && s[2] == 117 && s[3] == 101 {
        proof {
            assert(s@ =~= true_bytes());
        }
        Some(true)
    } else if s.len() == 5 && s[0] == 102 && s[1] == 97 && s[2] == 108 && s[3] == 115 && s[4]
        == 101 {
        proof {
            assert(s@ =~= false_bytes());
        }
        Some(false)
    } else {
        proof {
            if s@ == true_bytes() {
                assert(s@.len() == 4 && s@[0] == 116 && s@[1] == 114 && s@[2] == 117 && s@[3]
                    == 101);
            }
            if s@ == false_bytes() {
                assert(s@.len() == 5 && s@[0] == 102 && s@[1] == 97 && s@[2] == 108 && s@[3] == 115
                    && s@[4] == 101);
            }
        }
        None
    }
}

/// Byte-for-byte equality of two slices.
pub fn bytes_eq(a: &[u8], b: &[u8]) -> (r: bool)
    ensures
        r <==> a@ == b@,
{
    if a.len() != b.len() {
        return false;
    }
    let n = a.len();
    let mut i: usize = 0;
    while i < n
        invariant
            n == a@.len(),
            n == b@.len(),
            0 <= i <= n,
            forall|j: int| 0 <= j < i ==> a@[j] == b@[j],
        decreases n - i,
    {
        if a[i] != b[i] {
            return false;
        }
        i += 1;
    }
    assert(a@ =~= b@);
    true
}

/// `s` begins with the bytes of `p`.
pub fn has_prefix(s: &[u8], p: &[u8]) -> (r: bool)
    ensures
        r <==> p@.is_prefix_of(s@),
{
    if p.len() > s.len() {
        return false;
    }
    let head = slice_subrange(s, 0, p.len());
    let r = bytes_eq(head, p);
    proof {
        if p@ =~= s@.subrange(0, p@.len() as int) {
            assert(p@.is_prefix_of(s@));
        }
    }
    r
}

} // verus!

