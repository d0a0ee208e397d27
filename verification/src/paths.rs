//! Derived artifact paths. Side artifacts sit next to the input file; the
//! final output replaces a recognized executable suffix with a `-protected`
//! marker, or appends a neutral suffix when the input has none.

use vstd::prelude::*;

verus! {

/// Path of the masked-string side artifact.
pub fn enc_path(input: &str) -> (r: String)
    ensures
        r@ == input@ + ".enc"@,
{
    let mut r = input.to_owned();
    r.append(".enc");
    r
}

/// Path of the symbol-mapping side artifact.
pub fn map_path(input: &str) -> (r: String)
    ensures
        r@ == input@ + ".obf-map"@,
{
    let mut r = input.to_owned();
    r.append(".obf-map");
    r
}

/// The path ends in the recognized executable suffix `.exe`.
pub open spec fn has_exe_suffix(s: Seq<char>) -> bool {
    s.len() >= 4 && s.subrange(s.len() - 4, s.len() as int) == ".exe"@
}

/// The final artifact path: `.exe` inputs get a `-protected` marker before the
/// suffix; anything else gets a neutral suffix appended.
pub open spec fn spec_output_path(s: Seq<char>) -> Seq<char> {
    if has_exe_suffix(s) {
        s.subrange(0, s.len() - 4) + "-protected.exe"@
    } else {
        s + ".obscura-protected"@
    }
}

/// Derives the final artifact path from the input path.
pub fn output_path(input: &str) -> (r: String)
    ensures
        r@ == spec_output_path(input@),
{
    proof {
        reveal_strlit(".exe");
    }
    let n = input.unicode_len();
    let suffixed = n >= 4 && input.get_char(n - 4) == '.' && input.get_char(n - 3) == 'e'
        && input.get_char(n - 2) == 'x' && input.get_char(n - 1) == 'e';
    proof {
        if suffixed {
            assert(input@.subrange(input@.len() - 4, input@.len() as int) =~= ".exe"@);
        } else if input@.len() >= 4 && input@.subrange(input@.len() - 4, input@.len() as int)
            == ".exe"@ {
            let t = input@.subrange(input@.len() - 4, input@.len() as int);
            assert(input@[input@.len() - 4] == t[0]);
            assert(input@[input@.len() - 3] == t[1]);
            assert(input@[input@.len() - 2] == t[2]);
            assert(input@[input@.len() - 1] == t[3]);
        }
    }
    if suffixed {
        let stem = input.substring_char(0, n - 4);
        let mut r = stem.to_owned();
        r.append("-protected.exe");
        r
    } else {
        let mut r = input.to_owned();
        r.append(".obscura-protected");
        r
    }
}

} // verus!
