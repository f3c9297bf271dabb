use crate::text::texts_of;
use unicode_segmentation::UnicodeSegmentation;
use vstd::arithmetic::div_mod::{lemma_fundamental_div_mod, lemma_mod_multiples_basic};
use vstd::prelude::*;

verus! {

/// What `unicode_segmentation` splits a text into: its extended grapheme
/// clusters, from the first to the last.
pub uninterp spec fn grapheme_clusters(text: Seq<char>) -> Seq<Seq<char>>;

/// Whether a text holds printable ASCII characters only: those from the
/// space to the tilde.
pub open spec fn is_printable_ascii(text: Seq<char>) -> bool {
    forall|i: int| 0 <= i < text.len() ==> ' ' <= #[trigger] text[i] <= '~'
}

/// The characters of a text, each as a text of its own.
pub open spec fn single_characters(text: Seq<char>) -> Seq<Seq<char>> {
    Seq::new(text.len(), |i: int| seq![text[i]])
}

/// `UnicodeSegmentation::graphemes` of `unicode_segmentation`, for extended
/// clusters, collected into a vector. Nothing is proved of it: the contract
/// gives its result the name [`grapheme_clusters`], and states that a text
/// of printable ASCII characters is split into its single characters, which
/// the crate's category lookup shows: it gives each of them the category of
/// the characters that every cluster boundary surrounds.
#[verifier::external_body]
pub(crate) fn str_to_grapheme_clusters<'a>(text: &'a str) -> (clusters: Vec<&'a str>)
    ensures
        texts_of(clusters@) == grapheme_clusters(text@),
        is_printable_ascii(text@) ==> texts_of(clusters@) == single_characters(text@),
{
    text.graphemes(true).collect()
}

/// A number is prime when it is at least 2 and nothing from 2 up to itself divides it.
pub open spec fn is_prime_number(n: int) -> bool {
    n >= 2 && forall|d: int| 2 <= d < n ==> #[trigger] (n % d) != 0
}

/// `p` is the least prime that is not below `n`.
pub open spec fn is_next_prime(n: int, p: int) -> bool {
    &&& n <= p
    &&& is_prime_number(p)
    &&& forall|q: int| n <= q < p ==> !is_prime_number(q)
}

/// The least prime that is not below `n`.
pub open spec fn least_prime_from(n: int) -> int {
    choose|p: int| is_next_prime(n, p)
}

/// The polynomial hash of a sequence of characters: seed 7, multiplier 31,
/// accumulated from the first character to the last in 64-bit wrapping arithmetic.
pub open spec fn hash_chars(chars: Seq<char>) -> u64
    decreases chars.len(),
{
    if chars.len() == 0 {
        7
    } else {
        ((hash_chars(chars.drop_last()) * 31 + chars.last() as u64) % 0x1_0000_0000_0000_0000) as u64
    }
}

/// A divisor `d` of `n` splits `n` into `d` and a cofactor that divides `n` too.
proof fn lemma_cofactor(n: int, d: int)
    requires
        n > 0,
        d > 0,
        n % d == 0,
    ensures
        n == d * (n / d),
        n / d > 0,
        n % (n / d) == 0,
{
    lemma_fundamental_div_mod(n, d);
    let e: int = n / d;
    assert(e > 0) by (nonlinear_arith)
        requires
            n == d * e,
            n > 0,
            d > 0,
    ;
    assert(n == d * e);
    assert(d * e == e * d) by (nonlinear_arith);
    lemma_mod_multiples_basic(d, e);
}

/// An odd number has no even divisor.
proof fn lemma_odd_has_no_even_divisor(n: int, d: int)
    requires
        n > 0,
        d > 0,
        n % 2 != 0,
        d % 2 == 0,
    ensures
        n % d != 0,
{
    if n % d == 0 {
        lemma_fundamental_div_mod(n, d);
        lemma_fundamental_div_mod(d, 2);
        let e: int = n / d;
        let h: int = d / 2;
        assert(n == (h * e) * 2) by (nonlinear_arith)
            requires
                n == d * e,
                d == 2 * h,
        ;
        lemma_mod_multiples_basic(h * e, 2);
    }
}

/// Hashes the given string.
pub fn hash_str(value: &str) -> (hash: u64)
    ensures
        hash == hash_chars(value@),
{
    let mut hash: u64 = 7;
    for c in it: value.chars()
        invariant
            it.seq() == value@,
            hash == hash_chars(value@.take(it.index() as int)),
    {
        proof {
            let prefix = value@.take(it.index() + 1);
            assert(prefix.drop_last() =~= value@.take(it.index() as int));
            assert(prefix.last() == c);
        }
        hash = hash.wrapping_mul(31).wrapping_add(c as u64);
    }
    proof {
        assert(value@.take(value@.len() as int) =~= value@);
    }
    hash
}

/// Returns whether `n` is prime.
pub fn is_prime(n: usize) -> (prime: bool)
    ensures
        prime == is_prime_number(n as int),
{
    if n <= 1 {
        return false;
    } else if n <= 3 {
        assert(is_prime_number(n as int)) by {
            assert forall|d: int| 2 <= d < n implies #[trigger] (n as int % d) != 0 by {
                assert(n == 3 && d == 2);
            }
        }
        return true;
    } else if n % 2 == 0 {
        return false;
    } else {
        let mut i: usize = 3;
        while i <= n / i
            invariant
                n > 3,
                n % 2 != 0,
                3 <= i <= n,
                i % 2 == 1,
                forall|d: int| 2 <= d < i ==> #[trigger] (n as int % d) != 0,
            decreases n - i,
        {
            if n % i == 0 {
                assert(i < n) by (nonlinear_arith)
                    requires
                        i <= n / i,
                        i >= 3,
                        n > 3,
                ;
                return false;
            }
            assert(i + 2 <= n) by (nonlinear_arith)
                requires
                    i <= n / i,
                    i >= 3,
                    n > 3,
            ;
            proof {
                lemma_odd_has_no_even_divisor(n as int, i + 1);
            }
            i += 2;
        }
        assert forall|d: int| 2 <= d < n implies #[trigger] (n as int % d) != 0 by {
            if d >= i && n as int % d == 0 {
                lemma_cofactor(n as int, d);
                let e: int = n as int / d;
                assert(e < i) by (nonlinear_arith)
                    requires
                        n == d * e,
                        d >= i,
                        i > n / i,
                        i >= 3,
                        e > 0,
                ;
                assert(e >= 2) by (nonlinear_arith)
                    requires
                        n == d * e,
                        d < n,
                        e > 0,
                ;
            }
        }
        true
    }
}

/// Returns the least prime greater than or equal to `n`, or nothing when no
/// prime from `n` on is below the largest `usize`.
pub fn checked_next_prime(n: usize) -> (found: Option<usize>)
    ensures
        match found {
            Some(p) => p < usize::MAX && is_next_prime(n as int, p as int),
            None => forall|q: int| n <= q < usize::MAX ==> !is_prime_number(q),
        },
{
    let mut i: usize = n;
    while i < usize::MAX
        invariant
            n <= i,
            forall|q: int| n <= q < i ==> !is_prime_number(q),
        decreases usize::MAX - i,
    {
        if is_prime(i) {
            return Some(i);
        }
        i += 1;
    }
    None
}

/// Returns the next prime number greater than or equal to `n`.
pub fn next_prime(n: usize) -> (p: usize)
    requires
        exists|q: int| n <= q < usize::MAX && is_prime_number(q),
    ensures
        is_next_prime(n as int, p as int),
{
    let found = checked_next_prime(n);
    found.unwrap()
}

} // verus!
