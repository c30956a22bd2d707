//! The board: which pins the dashboard uses.

use vstd::prelude::*;

verus! {

/// The number of pins that are used.
pub const USED_GPIO_COUNT: usize = 16;

/// The pins that are used.
pub open spec fn used_pins() -> Seq<i32> {
    seq![0i32, 2, 3, 4, 5, 6, 7, 8, 9, 10, 11, 15, 18, 21, 20, 22]
}

/// The pins that are used, in the order in which their pads are prepared.
pub fn used_gpios() -> (r: [i32; USED_GPIO_COUNT])
    ensures
        r@ == used_pins(),
{
    let r: [i32; USED_GPIO_COUNT] = [0, 2, 3, 4, 5, 6, 7, 8, 9, 10, 11, 15, 18, 21, 20, 22];
    assert(r@ =~= used_pins());
    r
}

/// The pins of the USB connection and of the serial monitor are left alone.
pub proof fn law_reserved_pins_are_left_alone(pin: i32)
    requires
        used_pins().contains(pin),
    ensures
        pin != 12,
        pin != 13,
        pin != 1,
{
}

/// No pin is prepared twice.
pub proof fn law_pins_are_distinct(i: int, j: int)
    requires
        0 <= i < j < used_pins().len(),
    ensures
        used_pins()[i] != used_pins()[j],
{
}

} // verus!
