use vstd::prelude::*;
use vstd::string::StringSliceAdditionalSpecFns;

verus! {

pub open spec fn has_suffix(s: Seq<u8>, suffix: Seq<u8>) -> bool {
    s.len() >= suffix.len() && s.subrange(s.len() - suffix.len(), s.len() as int) == suffix
}

/// The bytes of ".brs".
pub open spec fn brs_suffix() -> Seq<u8> {
    seq![46u8, 98u8, 114u8, 115u8]
}

/// The bytes of ".vox".
pub open spec fn vox_suffix() -> Seq<u8> {
    seq![46u8, 118u8, 111u8, 120u8]
}

fn ends_with_bytes(s: &str, suffix: &[u8]) -> (r: bool)
    ensures
        r == has_suffix(s.spec_bytes(), suffix@),
{
    let b = s.as_bytes();
    if b.len() < suffix.len() {
        return false;
    }
    let off = b.len() - suffix.len();
    let mut i: usize = 0;
    while i < suffix.len()
        invariant
            b@ == s.spec_bytes(),
            off + suffix@.len() == b@.len(),
            b@.len() == b.len(),
            i <= suffix@.len(),
            forall|j: int| 0 <= j < i ==> b@[off + j] == suffix@[j],
        decreases suffix@.len() - i,
    {
        if b[off + i] != suffix[i] {
            assert(b@.subrange(off as int, b@.len() as int)[i as int] != suffix@[i as int]);
            return false;
        }
        i += 1;
    }
    assert(b@.subrange(off as int, b@.len() as int) =~= suffix@);
    true
}

/// Accepts a save path that ends in ".brs".
pub fn valid_brs_path(s: &str) -> (r: Result<String, &'static str>)
    ensures
        has_suffix(s.spec_bytes(), brs_suffix()) ==> (r matches Ok(p) && p@ == s@),
        !has_suffix(s.spec_bytes(), brs_suffix()) ==> (r matches Err(m) && m@ == "Invalid path to brs."@),
{
    let suffix: [u8; 4] = [46u8, 98u8, 114u8, 115u8];
    assert(suffix@ =~= brs_suffix());
    if !ends_with_bytes(s, &suffix) {
        proof { reveal_strlit("Invalid path to brs."); }
        return Err("Invalid path to brs.");
    }
    Ok(s.to_owned())
}

/// Accepts a model path that ends in ".vox" and names a file that exists;
/// `exists` tells whether it does.
pub fn valid_vox_path(s: &str, exists: bool) -> (r: Result<String, &'static str>)
    ensures
        !has_suffix(s.spec_bytes(), vox_suffix()) ==> (r matches Err(m) && m@ == "Invalid path to vox."@),
        has_suffix(s.spec_bytes(), vox_suffix()) && exists ==> (r matches Ok(p) && p@ == s@),
        has_suffix(s.spec_bytes(), vox_suffix()) && !exists ==> (r matches Err(m) && m@
            == "Input file doesn't exist."@),
{
    let suffix: [u8; 4] = [46u8, 118u8, 111u8, 120u8];
    assert(suffix@ =~= vox_suffix());
    if !ends_with_bytes(s, &suffix) {
        return Err("Invalid path to vox.");
    }
    if exists {
        return Ok(s.to_owned());
    }
    Err("Input file doesn't exist.")
}

} // verus!
