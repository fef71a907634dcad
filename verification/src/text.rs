//! Unicode-aware text helpers: codepoint reversal, ASCII vowel counting,
//! full case mapping, codepoint counting, and a palindrome test that keeps
//! only alphanumeric characters and case-folds them.
//!
//! Text is modelled as a sequence of codepoints (`Seq<char>`), never as
//! bytes, so every contract is stated over codepoints.

use vstd::prelude::*;
use vstd::string::StrSliceExecFns;

verus! {

/// Relies on String's FromIterator implementation: collecting characters
/// yields the string of exactly those characters, in order.
#[verifier::external_body]
fn chars_to_string(chars: &Vec<char>) -> (r: String)
    ensures
        r@ == chars@,
{
    chars.iter().collect()
}

/// `s` with its codepoints in reverse order; multi-byte characters stay
/// intact because the reversal is by codepoint, not by byte.
pub fn reverse(s: &str) -> (r: String)
    ensures
        r@ == s@.reverse(),
{
    let len = s.unicode_len();
    let mut chars: Vec<char> = Vec::new();
    let mut k: usize = 0;
    while k < len
        invariant
            len == s@.len(),
            k <= len,
            chars@.len() == k,
            forall|j: int| 0 <= j < k ==> chars@[j] == s@[len - 1 - j],
        decreases len - k,
    {
        let c = s.get_char(len - 1 - k);
        chars.push(c);
        k = k + 1;
    }
    proof {
        assert(chars@ =~= s@.reverse());
    }
    chars_to_string(&chars)
}

/// Reversing twice gives the original text back, for every sequence of
/// codepoints.
pub proof fn lemma_reverse_involutive(s: Seq<char>)
    ensures
        s.reverse().reverse() == s,
{
    assert(s.reverse().reverse() =~= s);
}

/// The ten ASCII vowels, in either case. Vowels of other scripts are not
/// counted.
pub open spec fn is_vowel(c: char) -> bool {
    c == 'a' || c == 'e' || c == 'i' || c == 'o' || c == 'u' || c == 'A' || c == 'E' || c == 'I'
        || c == 'O' || c == 'U'
}

/// How many codepoints of `s` are ASCII vowels.
pub open spec fn vowel_count(s: Seq<char>) -> nat {
    s.filter(|c: char| is_vowel(c)).len()
}

/// Counts the ASCII vowels of `s`, case-insensitively.
pub fn count_vowels(s: &str) -> (r: usize)
    ensures
        r == vowel_count(s@),
{
    let len = s.unicode_len();
    let mut count: usize = 0;
    let mut k: usize = 0;
    while k < len
        invariant
            len == s@.len(),
            k <= len,
            count <= k,
            count == vowel_count(s@.take(k as int)),
        decreases len - k,
    {
        let c = s.get_char(k);
        let hit = c == 'a' || c == 'e' || c == 'i' || c == 'o' || c == 'u' || c == 'A' || c == 'E'
            || c == 'I' || c == 'O' || c == 'U';
        proof {
            reveal(Seq::filter);
            assert(s@.take(k as int + 1).drop_last() =~= s@.take(k as int));
            assert(s@.take(k as int + 1).last() == s@[k as int]);
        }
        if hit {
            count = count + 1;
        }
        k = k + 1;
    }
    proof {
        assert(s@.take(len as int) =~= s@);
    }
    count
}

/// The full Unicode uppercase mapping of a codepoint sequence. What the
/// mapping does to a given character is left to the Unicode tables; it is a
/// function of the characters alone.
pub uninterp spec fn upper_of(s: Seq<char>) -> Seq<char>;

/// The full Unicode lowercase mapping of a codepoint sequence.
pub uninterp spec fn lower_of(s: Seq<char>) -> Seq<char>;

/// Relies on str::to_uppercase: the full Unicode uppercase mapping, a
/// function of the characters alone; an empty input stays empty.
#[verifier::external_body]
pub fn to_uppercase(s: &str) -> (r: String)
    ensures
        r@ == upper_of(s@),
        s@.len() == 0 ==> r@.len() == 0,
{
    s.to_uppercase()
}

/// Relies on str::to_lowercase: the full Unicode lowercase mapping, a
/// function of the characters alone; an empty input stays empty.
#[verifier::external_body]
pub fn to_lowercase(s: &str) -> (r: String)
    ensures
        r@ == lower_of(s@),
        s@.len() == 0 ==> r@.len() == 0,
{
    s.to_lowercase()
}

/// The number of codepoints in `s`: not bytes, and not grapheme clusters.
pub fn char_count(s: &str) -> (r: usize)
    ensures
        r == s@.len(),
{
    s.unicode_len()
}

/// Whether a codepoint counts as alphanumeric for the palindrome test; the
/// Unicode tables decide, as a function of the codepoint alone.
pub uninterp spec fn alnum(c: char) -> bool;

/// The case fold of a single codepoint: the first codepoint of its Unicode
/// lowercase mapping.
pub uninterp spec fn fold_lower(c: char) -> char;

/// Relies on char::is_alphanumeric: a property of the character alone.
#[verifier::external_body]
fn char_is_alnum(c: char) -> (r: bool)
    ensures
        r == alnum(c),
{
    c.is_alphanumeric()
}

/// Relies on char::to_lowercase, which always yields at least one codepoint;
/// the first one is a function of the input character alone.
#[verifier::external_body]
fn char_fold_lower(c: char) -> (r: char)
    ensures
        r == fold_lower(c),
{
    c.to_lowercase().next().unwrap()
}

/// `s` reduced for the palindrome test: only the alphanumeric codepoints,
/// each case-folded, in their original order.
pub open spec fn folded_core(s: Seq<char>) -> Seq<char> {
    s.filter(|c: char| alnum(c)).map_values(|c: char| fold_lower(c))
}

/// Palindrome test: strips every non-alphanumeric codepoint, case-folds the
/// rest, and compares the result with its own reversal. The empty string is
/// a palindrome by this definition.
pub fn is_palindrome(s: &str) -> (r: bool)
    ensures
        r == (folded_core(s@) == folded_core(s@).reverse()),
{
    let len = s.unicode_len();
    let mut core: Vec<char> = Vec::new();
    let mut k: usize = 0;
    while k < len
        invariant
            len == s@.len(),
            k <= len,
            core@ == folded_core(s@.take(k as int)),
        decreases len - k,
    {
        let c = s.get_char(k);
        proof {
            reveal(Seq::filter);
            assert(s@.take(k as int + 1).drop_last() =~= s@.take(k as int));
            assert(s@.take(k as int + 1).last() == s@[k as int]);
            if alnum(s@[k as int]) {
                assert(folded_core(s@.take(k as int + 1)) =~= folded_core(
                    s@.take(k as int),
                ).push(fold_lower(s@[k as int])));
            } else {
                assert(folded_core(s@.take(k as int + 1)) =~= folded_core(s@.take(k as int)));
            }
        }
        if char_is_alnum(c) {
            let folded = char_fold_lower(c);
            core.push(folded);
        }
        k = k + 1;
    }
    proof {
        assert(s@.take(len as int) =~= s@);
    }
    let m = core.len();
    let mut j: usize = 0;
    while j < m
        invariant
            m == core@.len(),
            j <= m,
            core@ == folded_core(s@),
            forall|t: int| 0 <= t < j ==> #[trigger] core@[t] == core@[m - 1 - t],
        decreases m - j,
    {
        let left = core[j];
        let right = core[m - 1 - j];
        if left != right {
            proof {
                assert(folded_core(s@).reverse()[j as int] == core@[m - 1 - j]);
            }
            return false;
        }
        j = j + 1;
    }
    proof {
        assert(folded_core(s@) =~= folded_core(s@).reverse());
    }
    true
}

} // verus!
