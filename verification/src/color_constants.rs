//! The palette of named colors the renderer paints with.
use vstd::prelude::*;
use crate::color::Color;

verus! {

pub fn black() -> (r: Color)
    ensures
        r == (Color { red: 0, green: 0, blue: 0 }),
{
    Color { red: 0, green: 0, blue: 0 }
}

pub fn red() -> (r: Color)
    ensures
        r == (Color { red: 255, green: 0, blue: 0 }),
{
    Color { red: 255, green: 0, blue: 0 }
}

pub fn green() -> (r: Color)
    ensures
        r == (Color { red: 0, green: 255, blue: 0 }),
{
    Color { red: 0, green: 255, blue: 0 }
}

pub fn blue() -> (r: Color)
    ensures
        r == (Color { red: 0, green: 0, blue: 255 }),
{
    Color { red: 0, green: 0, blue: 255 }
}

pub fn purple() -> (r: Color)
    ensures
        r == (Color { red: 255, green: 0, blue: 255 }),
{
    Color { red: 255, green: 0, blue: 255 }
}

pub fn cyan() -> (r: Color)
    ensures
        r == (Color { red: 0, green: 255, blue: 255 }),
{
    Color { red: 0, green: 255, blue: 255 }
}

pub fn yellow() -> (r: Color)
    ensures
        r == (Color { red: 255, green: 255, blue: 0 }),
{
    Color { red: 255, green: 255, blue: 0 }
}

pub fn white() -> (r: Color)
    ensures
        r == (Color { red: 255, green: 255, blue: 255 }),
{
    Color { red: 255, green: 255, blue: 255 }
}

} // verus!
