//! The tray icon's pixels, as the Linux tray host expects them.
use vstd::prelude::*;

verus! {

/// The ARGB pixels of RGBA pixels: each whole pixel `[r, g, b, a]` becomes
/// `[a, r, g, b]`; trailing bytes that make no whole pixel are dropped.
pub fn argb(rgba: &[u8]) -> (r: Vec<u8>)
    ensures
        r@.len() == rgba@.len() / 4 * 4,
        forall|k: int|
            0 <= k < rgba@.len() / 4 ==> {
                &&& #[trigger] r@[4 * k] == rgba@[4 * k + 3]
                &&& r@[4 * k + 1] == rgba@[4 * k]
                &&& r@[4 * k + 2] == rgba@[4 * k + 1]
                &&& r@[4 * k + 3] == rgba@[4 * k + 2]
            },
{
    let pixels = rgba.len() / 4;
    let mut out: Vec<u8> = Vec::new();
    let mut p: usize = 0;
    while p < pixels
        invariant
            pixels == rgba@.len() / 4,
            p <= pixels,
            out@.len() == 4 * p,
            forall|k: int|
                0 <= k < p ==> {
                    &&& #[trigger] out@[4 * k] == rgba@[4 * k + 3]
                    &&& out@[4 * k + 1] == rgba@[4 * k]
                    &&& out@[4 * k + 2] == rgba@[4 * k + 1]
                    &&& out@[4 * k + 3] == rgba@[4 * k + 2]
                },
        decreases pixels - p,
    {
        assert(4 * pixels <= rgba.len());
        assert(4 * p + 4 <= rgba.len());
        let base = 4 * p;
        let ghost before = out@;
        out.push(rgba[base + 3]);
        out.push(rgba[base]);
        out.push(rgba[base + 1]);
        out.push(rgba[base + 2]);
        assert forall|k: int| 0 <= k < p + 1 implies {
            &&& #[trigger] out@[4 * k] == rgba@[4 * k + 3]
            &&& out@[4 * k + 1] == rgba@[4 * k]
            &&& out@[4 * k + 2] == rgba@[4 * k + 1]
            &&& out@[4 * k + 3] == rgba@[4 * k + 2]
        } by {
            if k < p {
                assert(out@[4 * k] == before[4 * k]);
                assert(out@[4 * k + 1] == before[4 * k + 1]);
                assert(out@[4 * k + 2] == before[4 * k + 2]);
                assert(out@[4 * k + 3] == before[4 * k + 3]);
            }
        }
        p = p + 1;
    }
    out
}

} // verus!
