//! Names derived from a uuid or a label by a reserved suffix.

use vstd::prelude::*;
use vstd::string::StrSliceExecFns;
use vstd::string::StringExecFns;

verus! {

/// Whether `s` ends in `suffix`.
pub open spec fn ends_with(s: Seq<char>, suffix: Seq<char>) -> bool {
    s.len() >= suffix.len() && s.subrange(s.len() - suffix.len(), s.len() as int) == suffix
}

/// `s` without its last `n` characters.
pub open spec fn without_tail(s: Seq<char>, n: nat) -> Seq<char> {
    s.subrange(0, s.len() - n)
}

/// A name with a suffix ends in it, and gives the name back without it.
pub proof fn law_suffix_round_trip(base: Seq<char>, suffix: Seq<char>)
    ensures
        ends_with(base + suffix, suffix),
        without_tail(base + suffix, suffix.len()) == base,
{
    let s = base + suffix;
    assert(s.subrange(s.len() - suffix.len(), s.len() as int) =~= suffix);
    assert(s.subrange(0, s.len() - suffix.len()) =~= base);
}

/// Two names with the same suffix are equal only if they are equal without it.
pub proof fn law_suffix_injective(a: Seq<char>, b: Seq<char>, suffix: Seq<char>)
    requires
        a + suffix == b + suffix,
    ensures
        a == b,
{
    law_suffix_round_trip(a, suffix);
    law_suffix_round_trip(b, suffix);
}

/// `base` followed by `suffix`.
pub fn with_suffix(base: &str, suffix: &str) -> (r: String)
    ensures
        r@ == base@ + suffix@,
{
    let mut r: String = base.to_owned();
    r.append(suffix);
    r
}

/// `s` without `suffix`, if it ends in it.
pub fn strip_suffix(s: &str, suffix: &str) -> (r: Option<String>)
    ensures
        r is Some == ends_with(s@, suffix@),
        r matches Some(base) ==> base@ == without_tail(s@, suffix@.len()) && base@ + suffix@ == s@,
{
    let n = s.unicode_len();
    let k = suffix.unicode_len();
    if n < k {
        return None;
    }
    let tail: String = s.substring_char(n - k, n).to_owned();
    let wanted: String = suffix.to_owned();
    if tail == wanted {
        let base: String = s.substring_char(0, n - k).to_owned();
        assert(base@ + suffix@ =~= s@);
        Some(base)
    } else {
        None
    }
}

} // verus!
