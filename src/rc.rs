use vstd::prelude::*;

use crate::sbus::Chan;

verus! {

/// Raw channel value at the centre of a proportional control.
pub const CHANNEL_CENTER: u16 = 1000;
/// Raw distance from the centre to full deflection; an axis is measured in
/// steps of one part in this many.
pub const AXIS_SCALE: i16 = 800;

/// A two-state control.
#[derive(Clone, Copy, PartialEq, Eq, Structural, Debug)]
pub enum Button {
    Pressed,
    Released,
}

impl Default for Button {
    fn default() -> (r: Self)
        ensures
            r == Button::Released,
    {
        Button::Released
    }
}

/// A button is pressed exactly when the raw value is above the centre.
pub open spec fn button_of(raw: u16) -> Button {
    if raw > 1000 {
        Button::Pressed
    } else {
        Button::Released
    }
}

impl Button {
    /// Pressed above the centre value, released at or below it.
    pub fn from_channel(val: u16) -> (r: Self)
        ensures
            r == button_of(val),
    {
        if val > CHANNEL_CENTER {
            Self::Pressed
        } else {
            Self::Released
        }
    }
}

/// The calibrated position of a proportional control, in steps of 1/800
/// of full deflection: `-800` is -1.0, `0` the centre, `800` is 1.0.
///
/// `(raw - 1000) / 800` normalised, zero where its magnitude is below 0.02
/// (the dead zone), and clamped to `[-1, 1]`.
pub open spec fn axis_ticks(raw: u16) -> int {
    let d = raw - 1000;
    // |d / 800| < 0.02, that is |d| * 50 < 800
    if -800 < d * 50 < 800 {
        0
    } else if d > 800 {
        800
    } else if d < -800 {
        -800
    } else {
        d
    }
}

/// A normalised axis in `[-1.0, 1.0]`, held exactly as a number of
/// 1/800 steps.
#[derive(Clone, Copy, PartialEq, Eq, Structural, Debug)]
pub struct Axis {
    val: i16,
}

impl View for Axis {
    /// The position in 1/800 steps.
    type V = int;

    closed spec fn view(&self) -> int {
        self.val as int
    }
}

impl Default for Axis {
    fn default() -> (r: Self)
        ensures
            r@ == 0,
    {
        Axis { val: 0 }
    }
}

impl Axis {
    #[verifier::type_invariant]
    spec fn inv(self) -> bool {
        -800 <= self.val <= 800
    }

    /// Calibrates a raw channel value; see [`axis_ticks`].
    pub fn from_channel(val: u16) -> (r: Self)
        ensures
            r@ == axis_ticks(val),
    {
        let d: i32 = val as i32 - CHANNEL_CENTER as i32;
        // the dead zone, |d| * 50 < 800, is |d| < 16
        let ticks: i16 = if -16 < d && d < 16 {
            0
        } else if d > AXIS_SCALE as i32 {
            AXIS_SCALE
        } else if d < -(AXIS_SCALE as i32) {
            -AXIS_SCALE
        } else {
            d as i16
        };
        Axis { val: ticks }
    }

    /// The position in 1/800 steps.
    pub fn ticks(&self) -> (r: i16)
        ensures
            r as int == self@,
            -800 <= r <= 800,
    {
        proof {
            use_type_invariant(self);
        }
        self.val
    }
}

/// A two-axis stick.
#[derive(Clone, Copy, PartialEq, Eq, Structural, Debug, Default)]
pub struct Stick {
    pub x: Axis,
    pub y: Axis,
}

impl Stick {
    pub fn new(x: Axis, y: Axis) -> (r: Self)
        ensures
            r.x == x,
            r.y == y,
    {
        Self { x, y }
    }

    /// Calibrates both raw channel values.
    pub fn from_channels(x: u16, y: u16) -> (r: Self)
        ensures
            r.x@ == axis_ticks(x),
            r.y@ == axis_ticks(y),
    {
        Self { x: Axis::from_channel(x), y: Axis::from_channel(y) }
    }
}

/// A three-position switch.
#[derive(Clone, Copy, PartialEq, Eq, Structural, Debug)]
pub enum ThreeWay {
    Up,
    Mid,
    Down,
}

impl Default for ThreeWay {
    fn default() -> (r: Self)
        ensures
            r == ThreeWay::Mid,
    {
        ThreeWay::Mid
    }
}

/// Up at exactly 1800, down at exactly 200, and in the middle otherwise
/// (1000 included).
pub open spec fn three_way_of(raw: u16) -> ThreeWay {
    if raw == 1800 {
        ThreeWay::Up
    } else if raw == 200 {
        ThreeWay::Down
    } else {
        ThreeWay::Mid
    }
}

impl ThreeWay {
    /// Matches the three exact codes 1800, 1000 and 200; any other value
    /// is `Mid`.
    pub fn from_channel(val: u16) -> (r: Self)
        ensures
            r == three_way_of(val),
    {
        match val {
            1800 => Self::Up,
            1000 => Self::Mid,
            200 => Self::Down,
            _ => Self::Mid,
        }
    }
}

/// The controls of the transmitter, each calibrated from its own channel.
#[derive(Clone, Copy, PartialEq, Eq, Structural, Debug, Default)]
pub struct RadioLinkController {
    pub left_thumb: Stick,
    pub left_shoulder: Axis,
    pub left_trigger: ThreeWay,
    pub right_thumb: Stick,
    pub right_shoulder: Button,
    pub right_trigger: ThreeWay,
}

impl RadioLinkController {
    /// Maps the first eight channels; channels 8 to 15 are not used.
    pub fn from_channels(chs: &[Chan; 16]) -> (r: Self)
        ensures
            r.right_thumb.x@ == axis_ticks(chs@[0]@),
            r.right_thumb.y@ == axis_ticks(chs@[1]@),
            r.left_thumb.y@ == axis_ticks(chs@[2]@),
            r.left_thumb.x@ == axis_ticks(chs@[3]@),
            r.right_trigger == three_way_of(chs@[4]@),
            r.right_shoulder == button_of(chs@[5]@),
            r.left_trigger == three_way_of(chs@[6]@),
            r.left_shoulder@ == axis_ticks(chs@[7]@),
    {
        Self {
            right_thumb: Stick::from_channels(chs[0].get(), chs[1].get()),
            left_thumb: Stick::from_channels(chs[3].get(), chs[2].get()),
            right_trigger: ThreeWay::from_channel(chs[4].get()),
            right_shoulder: Button::from_channel(chs[5].get()),
            left_trigger: ThreeWay::from_channel(chs[6].get()),
            left_shoulder: Axis::from_channel(chs[7].get()),
        }
    }
}

} // verus!
