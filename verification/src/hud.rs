use crate::font::text_width;
use vstd::prelude::*;
use vstd::string::StringSliceAdditionalSpecFns;

verus! {

/// Width of HUD text, drawn at scale 2.
pub fn text_w(s: &str) -> (w: i32)
    requires
        s.spec_bytes().len() * 8 <= i32::MAX,
    ensures
        w == s.spec_bytes().len() * 8 - 2,
{
    text_width(s, 2)
}

} // verus!
