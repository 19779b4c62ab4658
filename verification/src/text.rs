//! Display-name sanitising: mesh names shown in the interface are reduced to
//! printable ASCII, with every other character replaced by a question mark.

use vstd::prelude::*;
use vstd::string::*;

verus! {

/// What a character sanitises to: itself when printable ASCII, '?' otherwise.
pub open spec fn spec_ascii_or_qmark(c: char) -> char {
    if (c as u32) > 31 && (c as u32) < 127 {
        c
    } else {
        '?'
    }
}

/// Utility function for converting unprintable characters into '?'.
pub fn ascii_or_qmark(c: char) -> (r: char)
    ensures
        r == spec_ascii_or_qmark(c),
{
    if (c as u32) > 31 && (c as u32) < 127 {
        c
    } else {
        '?'
    }
}

/// A name with every unprintable character replaced by '?'.
pub open spec fn spec_sanitize(s: Seq<char>) -> Seq<char> {
    s.map_values(|c: char| spec_ascii_or_qmark(c))
}

/// Reduce a display name to printable ASCII, character by character.
pub fn sanitize_name(s: &str) -> (r: String)
    ensures
        r@ == spec_sanitize(s@),
{
    let n = s.unicode_len();
    let mut r = String::new();
    let mut i: usize = 0;
    while i < n
        invariant
            i <= n == s@.len(),
            r@ == spec_sanitize(s@.subrange(0, i as int)),
        decreases n - i,
    {
        let c = s.get_char(i);
        if (c as u32) > 31 && (c as u32) < 127 {
            let piece = s.substring_char(i, i + 1);
            r.append(piece);
        } else {
            r.append("?");
        }
        proof {
            reveal_strlit("?");
            assert(r@ =~= spec_sanitize(s@.subrange(0, i + 1)));
        }
        i += 1;
    }
    proof {
        assert(s@.subrange(0, n as int) =~= s@);
        assert(r@ =~= spec_sanitize(s@));
    }
    r
}

} // verus!
