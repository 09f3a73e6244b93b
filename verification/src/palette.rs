use vstd::prelude::*;

use crate::error::FireError;
use crate::grid::MAX_INTENSITY;

verus! {

/// A channel value at or below this on all of R, G and B makes a pixel
/// transparent (alpha 0); anything brighter is fully opaque.
pub const COLD_THRESHOLD: u8 = 0x07;

/// The fixed color ramp: one RGB triple for each of the 37 heat intensities,
/// coldest (near black) at 0 up to white heat at 36.
pub open spec fn palette_rgb(i: int) -> (u8, u8, u8) {
    if i == 0 {
        (0x07u8, 0x07u8, 0x07u8)
    } else if i == 1 {
        (0x1Fu8, 0x07u8, 0x07u8)
    } else if i == 2 {
        (0x2Fu8, 0x0Fu8, 0x07u8)
    } else if i == 3 {
        (0x47u8, 0x0Fu8, 0x07u8)
    } else if i == 4 {
        (0x57u8, 0x17u8, 0x07u8)
    } else if i == 5 {
        (0x67u8, 0x1Fu8, 0x07u8)
    } else if i == 6 {
        (0x77u8, 0x1Fu8, 0x07u8)
    } else if i == 7 {
        (0x8Fu8, 0x27u8, 0x07u8)
    } else if i == 8 {
        (0x9Fu8, 0x2Fu8, 0x07u8)
    } else if i == 9 {
        (0xAFu8, 0x3Fu8, 0x07u8)
    } else if i == 10 {
        (0xBFu8, 0x47u8, 0x07u8)
    } else if i == 11 {
        (0xC7u8, 0x47u8, 0x07u8)
    } else if i == 12 {
        (0xDFu8, 0x4Fu8, 0x07u8)
    } else if i == 13 {
        (0xDFu8, 0x57u8, 0x07u8)
    } else if i == 14 {
        (0xDFu8, 0x57u8, 0x07u8)
    } else if i == 15 {
        (0xD7u8, 0x5Fu8, 0x07u8)
    } else if i == 16 {
        (0xD7u8, 0x5Fu8, 0x07u8)
    } else if i == 17 {
        (0xD7u8, 0x67u8, 0x0Fu8)
    } else if i == 18 {
        (0xCFu8, 0x6Fu8, 0x0Fu8)
    } else if i == 19 {
        (0xCFu8, 0x77u8, 0x0Fu8)
    } else if i == 20 {
        (0xCFu8, 0x7Fu8, 0x0Fu8)
    } else if i == 21 {
        (0xCFu8, 0x87u8, 0x17u8)
    } else if i == 22 {
        (0xC7u8, 0x87u8, 0x17u8)
    } else if i == 23 {
        (0xC7u8, 0x8Fu8, 0x17u8)
    } else if i == 24 {
        (0xC7u8, 0x97u8, 0x1Fu8)
    } else if i == 25 {
        (0xBFu8, 0x9Fu8, 0x1Fu8)
    } else if i == 26 {
        (0xBFu8, 0x9Fu8, 0x1Fu8)
    } else if i == 27 {
        (0xBFu8, 0xA7u8, 0x27u8)
    } else if i == 28 {
        (0xBFu8, 0xA7u8, 0x27u8)
    } else if i == 29 {
        (0xBFu8, 0xAFu8, 0x2Fu8)
    } else if i == 30 {
        (0xB7u8, 0xAFu8, 0x2Fu8)
    } else if i == 31 {
        (0xB7u8, 0xB7u8, 0x2Fu8)
    } else if i == 32 {
        (0xB7u8, 0xB7u8, 0x37u8)
    } else if i == 33 {
        (0xCFu8, 0xCFu8, 0x6Fu8)
    } else if i == 34 {
        (0xDFu8, 0xDFu8, 0x9Fu8)
    } else if i == 35 {
        (0xEFu8, 0xEFu8, 0xC7u8)
    } else {
        (0xFFu8, 0xFFu8, 0xFFu8)
    }
}

/// A pixel is transparent exactly when all three channels are at or below the
/// cold threshold; otherwise it is fully opaque.
pub open spec fn spec_alpha(rgb: (u8, u8, u8)) -> u8 {
    if rgb.0 <= COLD_THRESHOLD && rgb.1 <= COLD_THRESHOLD && rgb.2 <= COLD_THRESHOLD {
        0u8
    } else {
        255u8
    }
}

/// The full (R, G, B, A) output for a heat intensity.
pub open spec fn spec_pixel(i: int) -> (u8, u8, u8, u8) {
    let rgb = palette_rgb(i);
    (rgb.0, rgb.1, rgb.2, spec_alpha(rgb))
}

/// Palette lookup: the (R, G, B, A) bytes for one heat intensity. The same
/// intensity always yields the same pixel; intensities above the maximum are
/// rejected with `OutOfRange`.
pub fn map_intensity(intensity: u8) -> (r: Result<(u8, u8, u8, u8), FireError>)
    ensures
        r is Ok <==> intensity <= MAX_INTENSITY,
        r is Err ==> r->Err_0 == FireError::OutOfRange,
        intensity <= MAX_INTENSITY ==> r->Ok_0 == spec_pixel(intensity as int),
        r is Ok ==> ((r->Ok_0.3 == 0) <==> (r->Ok_0.0 <= COLD_THRESHOLD
            && r->Ok_0.1 <= COLD_THRESHOLD && r->Ok_0.2 <= COLD_THRESHOLD)),
{
    if intensity > MAX_INTENSITY {
        return Err(FireError::OutOfRange);
    }
    let rgb: (u8, u8, u8) = match intensity {
        0 => (0x07, 0x07, 0x07),
        1 => (0x1F, 0x07, 0x07),
        2 => (0x2F, 0x0F, 0x07),
        3 => (0x47, 0x0F, 0x07),
        4 => (0x57, 0x17, 0x07),
        5 => (0x67, 0x1F, 0x07),
        6 => (0x77, 0x1F, 0x07),
        7 => (0x8F, 0x27, 0x07),
        8 => (0x9F, 0x2F, 0x07),
        9 => (0xAF, 0x3F, 0x07),
        10 => (0xBF, 0x47, 0x07),
        11 => (0xC7, 0x47, 0x07),
        12 => (0xDF, 0x4F, 0x07),
        13 => (0xDF, 0x57, 0x07),
        14 => (0xDF, 0x57, 0x07),
        15 => (0xD7, 0x5F, 0x07),
        16 => (0xD7, 0x5F, 0x07),
        17 => (0xD7, 0x67, 0x0F),
        18 => (0xCF, 0x6F, 0x0F),
        19 => (0xCF, 0x77, 0x0F),
        20 => (0xCF, 0x7F, 0x0F),
        21 => (0xCF, 0x87, 0x17),
        22 => (0xC7, 0x87, 0x17),
        23 => (0xC7, 0x8F, 0x17),
        24 => (0xC7, 0x97, 0x1F),
        25 => (0xBF, 0x9F, 0x1F),
        26 => (0xBF, 0x9F, 0x1F),
        27 => (0xBF, 0xA7, 0x27),
        28 => (0xBF, 0xA7, 0x27),
        29 => (0xBF, 0xAF, 0x2F),
        30 => (0xB7, 0xAF, 0x2F),
        31 => (0xB7, 0xB7, 0x2F),
        32 => (0xB7, 0xB7, 0x37),
        33 => (0xCF, 0xCF, 0x6F),
        34 => (0xDF, 0xDF, 0x9F),
        35 => (0xEF, 0xEF, 0xC7),
        _ => (0xFF, 0xFF, 0xFF),
    };
    let alpha: u8 = if rgb.0 <= COLD_THRESHOLD && rgb.1 <= COLD_THRESHOLD
        && rgb.2 <= COLD_THRESHOLD {
        0
    } else {
        255
    };
    Ok((rgb.0, rgb.1, rgb.2, alpha))
}

} // verus!
