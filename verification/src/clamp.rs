use vstd::prelude::*;

verus! {

/// A type into which a value of type `T` can be clamped: the conversion
/// saturates at the target's representable range, never panics and
/// never wraps.
pub trait Clamp<T>: Sized {
    /// The saturated value, as each implementation defines it.
    spec fn spec_clamp(x: T) -> Self;

    /// Clamp `x` to a valid value for this type.
    fn clamp(x: T) -> (r: Self)
        ensures
            r == Self::spec_clamp(x),
    ;
}

impl Clamp<i16> for u8 {
    open spec fn spec_clamp(x: i16) -> u8 {
        if x > 255 {
            255u8
        } else if x < 0 {
            0u8
        } else {
            x as u8
        }
    }

    fn clamp(x: i16) -> (r: u8) {
        if x > 255 {
            255
        } else if x < 0 {
            0
        } else {
            x as u8
        }
    }
}

impl Clamp<u16> for u8 {
    open spec fn spec_clamp(x: u16) -> u8 {
        if x > 255 {
            255u8
        } else {
            x as u8
        }
    }

    fn clamp(x: u16) -> (r: u8) {
        if x > 255 {
            255
        } else {
            x as u8
        }
    }
}

impl Clamp<i32> for u8 {
    open spec fn spec_clamp(x: i32) -> u8 {
        if x > 255 {
            255u8
        } else if x < 0 {
            0u8
        } else {
            x as u8
        }
    }

    fn clamp(x: i32) -> (r: u8) {
        if x > 255 {
            255
        } else if x < 0 {
            0
        } else {
            x as u8
        }
    }
}

impl Clamp<u32> for u8 {
    open spec fn spec_clamp(x: u32) -> u8 {
        if x > 255 {
            255u8
        } else {
            x as u8
        }
    }

    fn clamp(x: u32) -> (r: u8) {
        if x > 255 {
            255
        } else {
            x as u8
        }
    }
}

impl Clamp<i32> for u16 {
    open spec fn spec_clamp(x: i32) -> u16 {
        if x > 65535 {
            65535u16
        } else if x < 0 {
            0u16
        } else {
            x as u16
        }
    }

    fn clamp(x: i32) -> (r: u16) {
        if x > 65535 {
            65535
        } else if x < 0 {
            0
        } else {
            x as u16
        }
    }
}

impl Clamp<i32> for i16 {
    open spec fn spec_clamp(x: i32) -> i16 {
        if x > 32767 {
            32767i16
        } else if x < -32768 {
            -32768i16
        } else {
            x as i16
        }
    }

    fn clamp(x: i32) -> (r: i16) {
        if x > 32767 {
            32767
        } else if x < -32768 {
            -32768
        } else {
            x as i16
        }
    }
}

impl Clamp<u8> for u8 {
    open spec fn spec_clamp(x: u8) -> u8 {
        x
    }

    fn clamp(x: u8) -> (r: u8) {
        x
    }
}

impl Clamp<i8> for i8 {
    open spec fn spec_clamp(x: i8) -> i8 {
        x
    }

    fn clamp(x: i8) -> (r: i8) {
        x
    }
}

impl Clamp<u16> for u16 {
    open spec fn spec_clamp(x: u16) -> u16 {
        x
    }

    fn clamp(x: u16) -> (r: u16) {
        x
    }
}

impl Clamp<i16> for i16 {
    open spec fn spec_clamp(x: i16) -> i16 {
        x
    }

    fn clamp(x: i16) -> (r: i16) {
        x
    }
}

impl Clamp<u32> for u32 {
    open spec fn spec_clamp(x: u32) -> u32 {
        x
    }

    fn clamp(x: u32) -> (r: u32) {
        x
    }
}

impl Clamp<i32> for i32 {
    open spec fn spec_clamp(x: i32) -> i32 {
        x
    }

    fn clamp(x: i32) -> (r: i32) {
        x
    }
}

impl Clamp<u64> for u64 {
    open spec fn spec_clamp(x: u64) -> u64 {
        x
    }

    fn clamp(x: u64) -> (r: u64) {
        x
    }
}

impl Clamp<i64> for i64 {
    open spec fn spec_clamp(x: i64) -> i64 {
        x
    }

    fn clamp(x: i64) -> (r: i64) {
        x
    }
}

} // verus!
