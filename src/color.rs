use vstd::prelude::*;

verus! {

/// Brightness of a pixel whose point escaped after `count` iterations: the
/// fewer iterations were needed, the darker the pixel. Only the low byte of
/// the count takes part, as the iteration limit keeps counts below 256.
pub open spec fn energy_of(count: nat) -> int {
    255 - (count % 256) as int
}

/// The red, green and blue bytes of one pixel, given the outcome of the
/// escape test for its point. Points that never escaped are black; for the
/// others, red is the energy, green is `energy * (255 - energy)` kept to its
/// low byte, and blue is `energy / (255 - energy)`, or 0 where that divisor
/// is 0.
pub open spec fn color_of(escape: Option<usize>) -> Seq<u8> {
    match escape {
        None => seq![0u8, 0u8, 0u8],
        Some(count) => {
            let e = energy_of(count as nat);
            let rest = 255 - e;
            seq![
                e as u8,
                ((e * rest) % 256) as u8,
                if rest == 0 { 0u8 } else { (e / rest) as u8 },
            ]
        },
    }
}

/// The colour of one pixel, given the outcome of the escape test for its point.
pub fn colorize(escape: Option<usize>) -> (rgb: [u8; 3])
    ensures
        rgb@ == color_of(escape),
{
    match escape {
        None => [0u8, 0u8, 0u8],
        Some(count) => {
            let energy: u8 = 255 - (count % 256) as u8;
            let rest: u8 = 255 - energy;
            assert(energy as int + rest as int == 255);
            assert(energy as u16 * rest as u16 <= 255 * 255) by (nonlinear_arith)
                requires
                    energy as int + rest as int == 255,
            ;
            let green: u8 = ((energy as u16 * rest as u16) % 256) as u8;
            let blue: u8 = if rest == 0 {
                0
            } else {
                energy / rest
            };
            let rgb = [energy, green, blue];
            assert(rgb@ =~= color_of(escape));
            rgb
        },
    }
}

/// The more iterations a point needed to escape, the less red its pixel
/// holds: the colouring grows darker with the iteration count, up to the
/// iteration limit.
pub proof fn lemma_darker_with_more_iterations(fewer: usize, more: usize)
    requires
        fewer < more <= 255,
    ensures
        color_of(Some(more))[0] < color_of(Some(fewer))[0],
{
}

} // verus!
