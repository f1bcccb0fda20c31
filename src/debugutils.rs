//! Thinning out periodic diagnostics.
use vstd::prelude::*;

verus! {

/// Whether the diagnostic of frame `frame_counter` is due when one is printed every
/// `each_n_frames` frames: the counter is a multiple of the period.
pub fn should_log(frame_counter: i128, each_n_frames: i32) -> (r: bool)
    requires
        each_n_frames != 0,
    ensures
        r == (frame_counter as int % each_n_frames as int == 0),
{
    let n = each_n_frames as i128;
    let m: i128 = if n < 0 {
        -n
    } else {
        n
    };
    if frame_counter < 0 {
        let k: i128 = -(frame_counter + 1);
        let rem = k % m;
        proof {
            let f = frame_counter as int;
            let mi = m as int;
            assert(f == -(k as int) - 1);
            assert(rem as int == (k as int) % mi);
            assert((f % mi == 0) <==> (rem as int == mi - 1)) by (nonlinear_arith)
                requires
                    f == -(k as int) - 1,
                    k >= 0,
                    mi > 0,
                    0 <= rem < mi,
                    rem as int == (k as int) % mi,
            {
                vstd::arithmetic::div_mod::lemma_fundamental_div_mod(k as int, mi);
                vstd::arithmetic::div_mod::lemma_fundamental_div_mod(f, mi);
            }
            assert((f % (each_n_frames as int) == 0) <==> (f % mi == 0)) by (nonlinear_arith)
                requires
                    mi == each_n_frames as int || mi == -(each_n_frames as int),
                    mi > 0,
            {
            }
        }
        rem == m - 1
    } else {
        let rem = frame_counter % m;
        proof {
            let f = frame_counter as int;
            let mi = m as int;
            assert((f % (each_n_frames as int) == 0) <==> (f % mi == 0)) by (nonlinear_arith)
                requires
                    mi == each_n_frames as int || mi == -(each_n_frames as int),
                    mi > 0,
            {
            }
        }
        rem == 0
    }
}

} // verus!
