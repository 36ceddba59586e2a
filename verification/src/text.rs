//! Searching and comparing text, one character at a time.

use vstd::prelude::*;

verus! {

/// Whether `needle` stands in `hay` at the position `at`.
pub open spec fn occurs_at(hay: Seq<char>, needle: Seq<char>, at: int) -> bool {
    0 <= at && at + needle.len() <= hay.len() && hay.subrange(at, at + needle.len()) == needle
}

/// Whether `needle` stands somewhere in `hay`.
pub open spec fn contains_text(hay: Seq<char>, needle: Seq<char>) -> bool {
    exists|at: int| occurs_at(hay, needle, at)
}

/// The lower-case form of a text as `str::to_lowercase` gives it: every
/// character is mapped as Unicode defines it, whatever the alphabet and
/// whatever the place where the program runs.
pub uninterp spec fn lowercased(text: Seq<char>) -> Seq<char>;

/// Calls `str::to_lowercase`.
///
/// Trusted: the result is a function of the text alone, named
/// `lowercased`.
#[verifier::external_body]
fn std_to_lowercase(text: &str) -> (lower: String)
    ensures
        lower@ == lowercased(text@),
{
    text.to_lowercase()
}

/// Whether `name` begins with `prefix` once both are brought to lower
/// case: upper and lower case do not tell two letters apart.
pub open spec fn starts_with_folded(name: Seq<char>, prefix: Seq<char>) -> bool {
    occurs_at(lowercased(name), lowercased(prefix), 0)
}

/// The characters of a text, in order.
pub fn chars_of(text: &str) -> (chars: Vec<char>)
    ensures
        chars@ == text@,
{
    let mut chars: Vec<char> = Vec::new();
    for c in it: text.chars()
        invariant
            chars@ == it.seq().take(it.index() as int),
            it.seq() == text@,
    {
        chars.push(c);
    }
    chars
}

/// Whether `needle` stands in `hay` at the position `at`.
fn matches_at(hay: &Vec<char>, needle: &Vec<char>, at: usize) -> (found: bool)
    requires
        at + needle@.len() <= hay@.len(),
    ensures
        found == occurs_at(hay@, needle@, at as int),
{
    let n = hay.len();
    let m = needle.len();
    let mut k: usize = 0;
    while k < m
        invariant
            k <= m,
            m == needle@.len(),
            n == hay@.len(),
            at + m <= n,
            forall|i: int| 0 <= i < k ==> hay@[at + i] == needle@[i],
        decreases m - k,
    {
        if hay[at + k] != needle[k] {
            proof {
                assert(hay@.subrange(at as int, at + m)[k as int] == hay@[at + k]);
            }
            return false;
        }
        k = k + 1;
    }
    proof {
        assert(hay@.subrange(at as int, at + m) =~= needle@);
    }
    true
}

/// Whether `needle` stands somewhere in `hay`.
pub fn contains(hay: &str, needle: &str) -> (found: bool)
    ensures
        found == contains_text(hay@, needle@),
{
    let hay_chars = chars_of(hay);
    let needle_chars = chars_of(needle);
    let n = hay_chars.len();
    let m = needle_chars.len();
    if m > n {
        return false;
    }
    let last = n - m;
    let mut at: usize = 0;
    loop
        invariant
            m <= n,
            n == hay_chars@.len(),
            m == needle_chars@.len(),
            hay_chars@ == hay@,
            needle_chars@ == needle@,
            last == n - m,
            at <= last,
            forall|i: int| 0 <= i < at ==> !occurs_at(hay@, needle@, i),
        decreases last - at,
    {
        if matches_at(&hay_chars, &needle_chars, at) {
            return true;
        }
        if at == last {
            return false;
        }
        at = at + 1;
    }
}

/// Whether the lower-case form of `name` begins with `prefix`, which is
/// in lower case already.
pub fn starts_with_lowered(name: &str, lowered_prefix: &Vec<char>) -> (found: bool)
    ensures
        found == occurs_at(lowercased(name@), lowered_prefix@, 0),
{
    let lower = std_to_lowercase(name);
    let name_chars = chars_of(lower.as_str());
    lowered_prefix.len() <= name_chars.len() && matches_at(&name_chars, lowered_prefix, 0)
}

/// The characters of the lower-case form of a text.
pub fn lowered_chars(text: &str) -> (chars: Vec<char>)
    ensures
        chars@ == lowercased(text@),
{
    let lower = std_to_lowercase(text);
    chars_of(lower.as_str())
}

/// Whether `name` begins with `prefix`, upper and lower case being taken
/// for the same.
pub fn starts_with_ignoring_case(name: &str, prefix: &str) -> (found: bool)
    ensures
        found == starts_with_folded(name@, prefix@),
{
    let prefix_chars = lowered_chars(prefix);
    starts_with_lowered(name, &prefix_chars)
}

/// Whether two texts are the same, letter for letter.
pub fn text_equal(a: &str, b: &str) -> (same: bool)
    ensures
        same == (a@ == b@),
{
    let a_chars = chars_of(a);
    let b_chars = chars_of(b);
    if a_chars.len() != b_chars.len() {
        return false;
    }
    let n = a_chars.len();
    let mut i: usize = 0;
    while i < n
        invariant
            i <= n,
            n == a@.len(),
            n == b@.len(),
            a_chars@ == a@,
            b_chars@ == b@,
            forall|k: int| 0 <= k < i ==> a@[k] == b@[k],
        decreases n - i,
    {
        if a_chars[i] != b_chars[i] {
            return false;
        }
        i = i + 1;
    }
    proof {
        assert(a@ =~= b@);
    }
    true
}

} // verus!
